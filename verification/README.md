# krds

A small Linux rootkit-footprint scanner whose checking logic is verified
with Verus.

Rootkits often hide from one kernel view and forget another, so the checks
cross-examine what `/proc`, `/sys`, `ps`, `ss`, the kernel log, the audit log
and the module files on disk say, and compare boot files and the symbol table
with a saved baseline.

Layout:

- `src/` — the verified library. Every check is a function from the text
  that was read (a `*Inputs` struct) to a list of findings, with a contract
  that states exactly which findings come out, in which order. The risk
  score, the text report and the forensic dump texts are verified too.
  Scores are kept in tenths of a point and the risk in hundredths, so that
  no floating point is needed.
- `src/outside.rs` — the trusted calls into `regex`, `sha2`, `hex` and a few
  std functions, with the contracts the proofs rely on.
- `app/` — the command-line program: reads the files, runs the commands,
  writes `output/latest.json`, `output/latest.txt` and the integrity
  baseline, and collects forensic dumps.
- `tests/` — tests of the library on concrete inputs.

```
sudo krds scan
sudo krds scan --collect
sudo krds collect
```

Needs root for useful results. If the kernel is owned hard enough, it can
lie to this tool too.
