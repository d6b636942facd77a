//! Remaining checks: kernel settings, the audit log, preload files and
//! artifact paths, the kernel log, and hidden kernel pointers.
use vstd::prelude::*;
use crate::findings::{Finding, FindingView, mk, views, finding_if, lemma_views_push, extend_findings};
use crate::outside::{lowercase, to_lowercase};
use crate::text::{
    chars_of, line_spans, token_spans, lines, tokens, span_view, spans_ok, starts_with,
    starts_with_in, string_of, push_str, contains, contains_in, trim, trimmed, find, find_in,
    owned, str_eq, cat, opt_chars,
};

verus! {

// ---------------------------------------------------------------------------
// Kernel settings
// ---------------------------------------------------------------------------

/// The setting could be read and is `0` once trimmed.
pub open spec fn is_zero_setting(raw: Option<Seq<char>>) -> bool {
    match raw {
        Some(v) => trim(v) == "0"@,
        None => false,
    }
}

fn zero_setting(raw: Option<&str>) -> (b: bool)
    ensures
        b == is_zero_setting(opt_chars(raw)),
{
    match raw {
        Some(v) => str_eq(trimmed(v).as_str(), "0"),
        None => false,
    }
}

/// What `kernel/yama/ptrace_scope` and `kernel/kptr_restrict` give.
pub open spec fn sysctl_findings(ptrace: Option<Seq<char>>, kptr: Option<Seq<char>>) -> Seq<
    FindingView,
> {
    finding_if(
        is_zero_setting(ptrace),
        mk(
            "syscalls"@,
            "low"@,
            "ptrace_scope is 0"@,
            "unrestricted ptrace makes process injection easier"@,
            seq![],
            Some(20),
        ),
    ) + finding_if(
        is_zero_setting(kptr),
        mk(
            "syscalls"@,
            "info"@,
            "kptr_restrict is 0"@,
            "kernel pointers visible — good for analysis, also helps attackers"@,
            seq![],
            Some(5),
        ),
    )
}

/// A low finding when `ptrace_scope` is 0 and an info one when
/// `kptr_restrict` is 0 (each value trimmed).
pub fn sysctl_bits(ptrace_scope: Option<&str>, kptr_restrict: Option<&str>) -> (r: Vec<Finding>)
    ensures
        views(r@) == sysctl_findings(opt_chars(ptrace_scope), opt_chars(kptr_restrict)),
{
    let mut r: Vec<Finding> = Vec::new();
    assert(views(r@) =~= Seq::<FindingView>::empty());
    if zero_setting(ptrace_scope) {
        let f = Finding::new(
            "syscalls",
            "low",
            "ptrace_scope is 0",
            "unrestricted ptrace makes process injection easier",
        ).with_score(20);
        proof {
            lemma_views_push(r@, f);
        }
        r.push(f);
    }
    if zero_setting(kptr_restrict) {
        let f = Finding::new(
            "syscalls",
            "info",
            "kptr_restrict is 0",
            "kernel pointers visible — good for analysis, also helps attackers",
        ).with_score(5);
        proof {
            lemma_views_push(r@, f);
        }
        r.push(f);
    }
    r
}

// ---------------------------------------------------------------------------
// Fields of audit records
// ---------------------------------------------------------------------------

/// `s` up to its first `c` (all of it when there is none).
pub open spec fn before_char(s: Seq<char>, c: char) -> Seq<char> {
    match find(s, seq![c]) {
        Some(j) => s.take(j),
        None => s,
    }
}

/// The value after the first `key` in a line: up to the next `"` when it
/// starts with `"`, else its first whitespace-separated token; `None` when
/// the key is missing or nothing follows it.
pub open spec fn field_value(line: Seq<char>, key: Seq<char>) -> Option<Seq<char>> {
    match find(line, key) {
        None => None,
        Some(i) => {
            let rest = line.skip(i + key.len());
            if rest.len() > 0 && rest[0] == '"' {
                Some(before_char(rest.drop_first(), '"'))
            } else if tokens(rest).len() > 0 {
                Some(tokens(rest)[0])
            } else {
                None
            }
        },
    }
}

fn field_in(v: &Vec<char>, lo: usize, hi: usize, key: &Vec<char>) -> (r: Option<String>)
    requires
        lo <= hi <= v@.len(),
    ensures
        match r {
            Some(s) => field_value(v@.subrange(lo as int, hi as int), key@) == Some(s@),
            None => field_value(v@.subrange(lo as int, hi as int), key@) is None,
        },
{
    let ghost line = v@.subrange(lo as int, hi as int);
    match find_in(v, lo, hi, key) {
        None => None,
        Some(i) => {
            let start = lo + i + key.len();
            assert(line.skip(i + key@.len()) =~= v@.subrange(start as int, hi as int));
            if start < hi && v[start] == '"' {
                let q = chars_of("\"");
                assert(q@ == seq!['"']) by {
                    reveal_strlit("\"");
                    assert(q@ =~= seq!['"']);
                }
                assert(line.skip(i + key@.len()).drop_first() =~= v@.subrange(start + 1, hi as int));
                let end = match find_in(v, start + 1, hi, &q) {
                    Some(j) => start + 1 + j,
                    None => hi,
                };
                assert(v@.subrange(start + 1, hi as int).take(end - start - 1) =~= v@.subrange(
                    start + 1,
                    end as int,
                ));
                Some(string_of(v, start + 1, end))
            } else {
                let toks = token_spans(v, start, hi);
                if toks.len() > 0 {
                    let (a, b) = toks[0];
                    Some(string_of(v, a, b))
                } else {
                    None
                }
            }
        },
    }
}

/// The value of `key` in an audit record line (see `field_value`).
pub fn grab_field(line: &str, key: &str) -> (r: Option<String>)
    ensures
        match r {
            Some(s) => field_value(line@, key@) == Some(s@),
            None => field_value(line@, key@) is None,
        },
{
    let v = chars_of(line);
    let k = chars_of(key);
    assert(v@.subrange(0, v@.len() as int) == v@);
    field_in(&v, 0, v.len(), &k)
}


// ---------------------------------------------------------------------------
// The audit log
// ---------------------------------------------------------------------------

/// What reading `/var/log/audit/audit.log` gave.
pub enum AuditLog {
    /// The file does not exist.
    Missing,
    /// The file exists but could not be read as text.
    Unreadable,
    /// The text of the file.
    Text(String),
}

/// The number of syscalls looked for in the audit log.
pub const AUDIT_SYSCALLS: usize = 6;

/// Syscall number on x86_64, name, severity and score of the syscalls
/// looked for in the audit log.
pub open spec fn audit_syscall(k: int) -> (Seq<char>, Seq<char>, Seq<char>, u64) {
    if k == 0 {
        ("175"@, "init_module"@, "medium"@, 60)
    } else if k == 1 {
        ("313"@, "finit_module"@, "medium"@, 60)
    } else if k == 2 {
        ("176"@, "delete_module"@, "medium"@, 60)
    } else if k == 3 {
        ("246"@, "kexec_load"@, "high"@, 200)
    } else if k == 4 {
        ("311"@, "process_vm_writev"@, "medium"@, 70)
    } else {
        ("310"@, "process_vm_readv"@, "medium"@, 70)
    }
}

fn audit_syscall_at(k: usize) -> (r: (&'static str, &'static str, &'static str, u64))
    requires
        k < AUDIT_SYSCALLS,
    ensures
        (r.0@, r.1@, r.2@, r.3) == audit_syscall(k as int),
{
    if k == 0 {
        ("175", "init_module", "medium", 60)
    } else if k == 1 {
        ("313", "finit_module", "medium", 60)
    } else if k == 2 {
        ("176", "delete_module", "medium", 60)
    } else if k == 3 {
        ("246", "kexec_load", "high", 200)
    } else if k == 4 {
        ("311", "process_vm_writev", "medium", 70)
    } else {
        ("310", "process_vm_readv", "medium", 70)
    }
}

/// The last 5000 lines (or all, when fewer), last first.
pub open spec fn tail_reversed(ls: Seq<Seq<char>>) -> Seq<Seq<char>> {
    let n = if ls.len() < 5000 {
        ls.len() as int
    } else {
        5000
    };
    Seq::new(n as nat, |j: int| ls[ls.len() - 1 - j])
}

/// The syscalls of the table, among the first `k`, that a record line
/// names as `syscall=<nr>` (as a substring).
pub open spec fn line_hits(line: Seq<char>, k: int) -> Seq<int>
    decreases k,
{
    if k <= 0 {
        seq![]
    } else {
        line_hits(line, k - 1) + if contains(line, "syscall="@ + audit_syscall(k - 1).0) {
            seq![k - 1]
        } else {
            seq![]
        }
    }
}

/// The (line, syscall) hits of the first `n` lines that are `type=SYSCALL` records.
pub open spec fn audit_hits(ls: Seq<Seq<char>>, n: int) -> Seq<(Seq<char>, int)>
    decreases n,
{
    if n <= 0 {
        seq![]
    } else {
        let l = ls[n - 1];
        audit_hits(ls, n - 1) + if contains(l, "type=SYSCALL"@) {
            line_hits(l, AUDIT_SYSCALLS as int).map_values(|k: int| (l, k))
        } else {
            seq![]
        }
    }
}

/// Who made the call: the `exe=` value, else the `comm=` value, else `?`.
pub open spec fn audit_actor(line: Seq<char>) -> Seq<char> {
    match field_value(line, "exe="@) {
        Some(e) => e,
        None => match field_value(line, "comm="@) {
            Some(c) => c,
            None => "?"@,
        },
    }
}

/// The finding for one hit.
pub open spec fn hit_finding(h: (Seq<char>, int)) -> FindingView {
    let sc = audit_syscall(h.1);
    mk(
        "syscalls"@,
        sc.2,
        "audit: "@ + sc.1 + " by "@ + audit_actor(h.0),
        "module load / memory poke / kexec in audit trail — verify it"@,
        seq!["syscall:"@ + sc.1],
        Some(sc.3),
    )
}

/// What the audit log gives: an info finding when it is missing; else one
/// finding for each of the first 12 hits among the last 5000 lines, read
/// from the end.
pub open spec fn audit_findings(log: AuditLog) -> Seq<FindingView> {
    match log {
        AuditLog::Missing => seq![
            mk(
                "syscalls"@,
                "info"@,
                "no audit.log"@,
                "enable auditd rules for init_module/ptrace/bpf if you want syscall trails"@,
                seq![],
                Some(0),
            ),
        ],
        AuditLog::Unreadable => seq![],
        AuditLog::Text(t) => {
            let tl = tail_reversed(lines(t@));
            let hits = audit_hits(tl, tl.len() as int);
            let shown = if hits.len() < 12 {
                hits
            } else {
                hits.take(12)
            };
            shown.map_values(|h: (Seq<char>, int)| hit_finding(h))
        },
    }
}

fn actor_of(v: &Vec<char>, lo: usize, hi: usize) -> (r: String)
    requires
        lo <= hi <= v@.len(),
    ensures
        r@ == audit_actor(v@.subrange(lo as int, hi as int)),
{
    match field_in(v, lo, hi, &chars_of("exe=")) {
        Some(e) => e,
        None => match field_in(v, lo, hi, &chars_of("comm=")) {
            Some(c) => c,
            None => owned("?"),
        },
    }
}

/// The findings for the audit log (see `audit_findings`).
pub fn audit_bits(log: &AuditLog) -> (r: Vec<Finding>)
    ensures
        views(r@) == audit_findings(*log),
{
    let mut r: Vec<Finding> = Vec::new();
    match log {
        AuditLog::Missing => {
            let f = Finding::new(
                "syscalls",
                "info",
                "no audit.log",
                "enable auditd rules for init_module/ptrace/bpf if you want syscall trails",
            ).with_score(0);
            r.push(f);
            assert(views(r@) =~= seq![f@]);
            r
        },
        AuditLog::Unreadable => {
            assert(views(r@) =~= Seq::<FindingView>::empty());
            r
        },
        AuditLog::Text(t) => {
            let v = chars_of(t.as_str());
            let ls = line_spans(&v);
            let ghost all = lines(t@);
            let ghost tl = tail_reversed(all);
            let total = ls.len();
            let n = if total < 5000 {
                total
            } else {
                5000
            };
            let marker = chars_of("type=SYSCALL");
            let mut hits: usize = 0;
            let mut j: usize = 0;
            assert(views(r@) =~= Seq::<FindingView>::empty());
            while j < n
                invariant
                    j <= n,
                    n == tl.len(),
                    total == ls@.len(),
                    spans_ok(v@, ls@),
                    span_view(v@, ls@) == all,
                    tl == tail_reversed(all),
                    marker@ == "type=SYSCALL"@,
                    hits == (if audit_hits(tl, j as int).len() < 12 {
                        audit_hits(tl, j as int).len()
                    } else {
                        12
                    }),
                    views(r@) == (if audit_hits(tl, j as int).len() < 12 {
                        audit_hits(tl, j as int)
                    } else {
                        audit_hits(tl, j as int).take(12)
                    }).map_values(|h: (Seq<char>, int)| hit_finding(h)),
                decreases n - j,
            {
                let (lo, hi) = ls[total - 1 - j];
                let ghost line = v@.subrange(lo as int, hi as int);
                assert(tl[j as int] == line);
                let ghost prev = audit_hits(tl, j as int);
                if contains_in(&v, lo, hi, &marker) {
                    let mut k: usize = 0;
                    while k < AUDIT_SYSCALLS
                        invariant
                            k <= AUDIT_SYSCALLS,
                            lo <= hi <= v@.len(),
                            line == v@.subrange(lo as int, hi as int),
                            hits == (if prev.len() + line_hits(line, k as int).len() < 12 {
                                prev.len() + line_hits(line, k as int).len()
                            } else {
                                12
                            }),
                            views(r@) == ({
                                let h = prev + line_hits(line, k as int).map_values(|x: int| (line, x));
                                if h.len() < 12 {
                                    h
                                } else {
                                    h.take(12)
                                }
                            }).map_values(|h: (Seq<char>, int)| hit_finding(h)),
                        decreases AUDIT_SYSCALLS - k,
                    {
                        let (num, name, sev, sc) = audit_syscall_at(k);
                        let needle = chars_of(cat("syscall=", num).as_str());
                        let ghost h0 = prev + line_hits(line, k as int).map_values(|x: int| (line, x));
                        let ghost h1 = prev + line_hits(line, k + 1).map_values(|x: int| (line, x));
                        if contains_in(&v, lo, hi, &needle) {
                            assert(line_hits(line, k + 1) == line_hits(line, k as int).push(k as int));
                            assert(h1 =~= h0.push((line, k as int)));
                            if hits < 12 {
                                let f = Finding::new(
                                    "syscalls",
                                    sev,
                                    {
                                        let mut title = cat("audit: ", name);
                                        push_str(&mut title, " by ");
                                        push_str(&mut title, actor_of(&v, lo, hi).as_str());
                                        title
                                    }.as_str(),
                                    "module load / memory poke / kexec in audit trail — verify it",
                                ).ioc(cat("syscall:", name).as_str()).with_score(sc);
                                proof {
                                    assert(f@.iocs =~= seq!["syscall:"@ + name@]);
                                    assert(f@ == hit_finding((line, k as int)));
                                    lemma_views_push(r@, f);
                                    assert(h1.take(h1.len() as int) == h1);
                                    if h0.len() < 12 {
                                        if h1.len() < 12 {
                                            assert(h1.map_values(|h: (Seq<char>, int)| hit_finding(h))
                                                =~= h0.map_values(|h: (Seq<char>, int)| hit_finding(h)).push(f@));
                                        } else {
                                            assert(h1.take(12) == h1);
                                            assert(h1.map_values(|h: (Seq<char>, int)| hit_finding(h))
                                                =~= h0.map_values(|h: (Seq<char>, int)| hit_finding(h)).push(f@));
                                        }
                                    }
                                }
                                r.push(f);
                            } else {
                                assert(h1.take(12) =~= h0.take(12));
                            }
                            if hits < 12 {
                                hits = hits + 1;
                            }
                        } else {
                            assert(line_hits(line, k + 1) == line_hits(line, k as int));
                        }
                        k = k + 1;
                    }
                    assert(audit_hits(tl, j + 1) == prev + line_hits(line, AUDIT_SYSCALLS as int).map_values(
                        |x: int| (line, x),
                    ));
                } else {
                    assert(audit_hits(tl, j + 1) == prev);
                }
                j = j + 1;
            }
            r
        },
    }
}


// ---------------------------------------------------------------------------
// Preload file and artifact paths
// ---------------------------------------------------------------------------

/// The first 300 characters of `s` (all of it when shorter).
pub open spec fn first_300(s: Seq<char>) -> Seq<char> {
    if s.len() < 300 {
        s
    } else {
        s.take(300)
    }
}

fn first_300_of(s: &str) -> (r: String)
    ensures
        r@ == first_300(s@),
{
    let v = chars_of(s);
    let n = if v.len() < 300 {
        v.len()
    } else {
        300
    };
    assert(v@.subrange(0, n as int) == first_300(v@));
    string_of(&v, 0, n)
}

/// The number of artifact paths looked for.
pub const ARTIFACT_PATHS: usize = 2;

/// Paths where common rootkits leave files.
pub open spec fn artifact_path_spec(k: int) -> Seq<char> {
    if k == 0 {
        "/lib/libprocesshider.so"@
    } else {
        "/dev/shm/.rk"@
    }
}

/// Paths where common rootkits leave files.
pub fn artifact_path(k: usize) -> (p: &'static str)
    requires
        k < ARTIFACT_PATHS,
    ensures
        p@ == artifact_path_spec(k as int),
{
    if k == 0 {
        "/lib/libprocesshider.so"
    } else {
        "/dev/shm/.rk"
    }
}

/// The artifact path exists, by the flags that were read (missing flags
/// count as absent).
pub open spec fn artifact_seen(found: Seq<bool>, k: int) -> bool {
    k < found.len() && found[k]
}

/// Findings for the first `n` artifact paths.
pub open spec fn artifact_findings(found: Seq<bool>, n: int) -> Seq<FindingView>
    decreases n,
{
    if n <= 0 {
        seq![]
    } else {
        artifact_findings(found, n - 1) + finding_if(
            artifact_seen(found, n - 1),
            mk(
                "behavior"@,
                "medium"@,
                "suspicious path exists: "@ + artifact_path_spec(n - 1),
                "common artifact location"@,
                seq!["file:"@ + artifact_path_spec(n - 1)],
                Some(100),
            ),
        )
    }
}

/// What `/etc/ld.so.preload` and the artifact paths give: a high finding
/// when the preload file is non-empty (its size known and above 0), with
/// the first 300 characters of its text; a medium one per artifact path
/// that exists.
pub open spec fn preload_findings(size: Option<u64>, content: Seq<char>, found: Seq<bool>) -> Seq<
    FindingView,
> {
    finding_if(
        size matches Some(n) && n > 0,
        mk(
            "behavior"@,
            "high"@,
            "/etc/ld.so.preload is non-empty"@,
            first_300(content),
            seq!["file:/etc/ld.so.preload"@],
            Some(250),
        ),
    ) + artifact_findings(found, ARTIFACT_PATHS as int)
}

/// The preload file and artifact path findings (see `preload_findings`).
/// `preload_size` is the size of `/etc/ld.so.preload` when it exists,
/// `preload_text` its text (empty when unreadable), `artifacts[k]` whether
/// `artifact_path(k)` exists.
pub fn preload_and_paths(preload_size: Option<u64>, preload_text: &str, artifacts: &Vec<bool>) -> (r:
    Vec<Finding>)
    ensures
        views(r@) == preload_findings(preload_size, preload_text@, artifacts@),
{
    let mut r: Vec<Finding> = Vec::new();
    assert(views(r@) =~= Seq::<FindingView>::empty());
    match preload_size {
        Some(n) => {
            if n > 0 {
                let f = Finding::new(
                    "behavior",
                    "high",
                    "/etc/ld.so.preload is non-empty",
                    first_300_of(preload_text).as_str(),
                ).ioc("file:/etc/ld.so.preload").with_score(250);
                proof {
                    assert(f@.iocs =~= seq!["file:/etc/ld.so.preload"@]);
                    lemma_views_push(r@, f);
                }
                r.push(f);
            }
        },
        None => {},
    }
    let ghost base = views(r@);
    let mut k: usize = 0;
    while k < ARTIFACT_PATHS
        invariant
            k <= ARTIFACT_PATHS,
            views(r@) == base + artifact_findings(artifacts@, k as int),
        decreases ARTIFACT_PATHS - k,
    {
        if k < artifacts.len() && artifacts[k] {
            let p = artifact_path(k);
            let f = Finding::new(
                "behavior",
                "medium",
                cat("suspicious path exists: ", p).as_str(),
                "common artifact location",
            ).ioc(cat("file:", p).as_str()).with_score(100);
            proof {
                assert(f@.iocs =~= seq!["file:"@ + p@]);
                lemma_views_push(r@, f);
            }
            r.push(f);
        }
        k = k + 1;
    }
    r
}

// ---------------------------------------------------------------------------
// The kernel log
// ---------------------------------------------------------------------------

/// The number of phrases looked for in the kernel log.
pub const DMESG_NEEDLES: usize = 4;

/// Phrases of the kernel log worth a look.
pub open spec fn dmesg_needle(k: int) -> Seq<char> {
    if k == 0 {
        "rootkit"@
    } else if k == 1 {
        "module verification failed"@
    } else if k == 2 {
        "disagrees about version of symbol"@
    } else {
        "loading out-of-tree module taints"@
    }
}

fn dmesg_needle_at(k: usize) -> (r: &'static str)
    requires
        k < DMESG_NEEDLES,
    ensures
        r@ == dmesg_needle(k as int),
{
    if k == 0 {
        "rootkit"
    } else if k == 1 {
        "module verification failed"
    } else if k == 2 {
        "disagrees about version of symbol"
    } else {
        "loading out-of-tree module taints"
    }
}

/// The lowercased line contains one of the phrases.
pub open spec fn interesting_line(low: Seq<char>) -> bool {
    exists|k: int| 0 <= k < DMESG_NEEDLES && contains(low, #[trigger] dmesg_needle(k))
}

/// The lines of the kernel log that are worth a look, among the first `n`.
pub open spec fn dmesg_hits(ls: Seq<Seq<char>>, n: int) -> Seq<Seq<char>>
    decreases n,
{
    if n <= 0 {
        seq![]
    } else {
        dmesg_hits(ls, n - 1) + if interesting_line(lowercase(ls[n - 1])) {
            seq![ls[n - 1]]
        } else {
            seq![]
        }
    }
}

/// The finding for a kernel log line worth a look, given its lowercased
/// form `low`: high when it mentions a rootkit, low otherwise.
pub open spec fn dmesg_entry(line: Seq<char>, low: Seq<char>) -> FindingView {
    let high = contains(low, "rootkit"@);
    mk(
        "behavior"@,
        if high {
            "high"@
        } else {
            "low"@
        },
        "interesting dmesg line"@,
        first_300(line),
        seq![],
        Some(
            if high {
                50
            } else {
                10
            },
        ),
    )
}

/// The finding for a kernel log line worth a look.
pub open spec fn dmesg_finding(line: Seq<char>) -> FindingView {
    dmesg_entry(line, lowercase(line))
}

/// What the kernel log gives: a finding for each of the first 15 lines
/// worth a look.
pub open spec fn dmesg_findings(text: Option<Seq<char>>) -> Seq<FindingView> {
    match text {
        Some(t) => {
            let hits = dmesg_hits(lines(t), lines(t).len() as int);
            let shown = if hits.len() < 15 {
                hits
            } else {
                hits.take(15)
            };
            shown.map_values(|l: Seq<char>| dmesg_finding(l))
        },
        None => seq![],
    }
}

fn interesting_exec(low: &Vec<char>) -> (b: bool)
    ensures
        b == interesting_line(low@),
{
    let n = low.len();
    assert(low@.subrange(0, n as int) == low@);
    let mut k: usize = 0;
    while k < DMESG_NEEDLES
        invariant
            k <= DMESG_NEEDLES,
            n == low@.len(),
            low@.subrange(0, n as int) == low@,
            forall|j: int| 0 <= j < k ==> !contains(low@, #[trigger] dmesg_needle(j)),
        decreases DMESG_NEEDLES - k,
    {
        if contains_in(low, 0, n, &chars_of(dmesg_needle_at(k))) {
            return true;
        }
        k = k + 1;
    }
    false
}

/// What one kernel log line gives, from its lowercased form `low`: a
/// finding when `low` contains one of the phrases, none otherwise.
pub fn dmesg_line(line: &str, low: &str) -> (r: Option<Finding>)
    ensures
        match r {
            Some(f) => interesting_line(low@) && f@ == dmesg_entry(line@, low@),
            None => !interesting_line(low@),
        },
{
    let lv = chars_of(low);
    if !interesting_exec(&lv) {
        return None;
    }
    assert(lv@.subrange(0, lv@.len() as int) == lv@);
    let high = contains_in(&lv, 0, lv.len(), &chars_of("rootkit"));
    let f = Finding::new(
        "behavior",
        if high {
            "high"
        } else {
            "low"
        },
        "interesting dmesg line",
        first_300_of(line).as_str(),
    ).with_score(
        if high {
            50
        } else {
            10
        },
    );
    Some(f)
}

/// The kernel log findings (see `dmesg_findings`); `None` when `dmesg`
/// could not be run.
pub fn dmesg_bits(text: Option<&str>) -> (r: Vec<Finding>)
    ensures
        views(r@) == dmesg_findings(opt_chars(text)),
{
    let mut r: Vec<Finding> = Vec::new();
    assert(views(r@) =~= Seq::<FindingView>::empty());
    let t = match text {
        Some(t) => t,
        None => {
            return r;
        },
    };
    let v = chars_of(t);
    let ls = line_spans(&v);
    let ghost all = lines(t@);
    let mut i: usize = 0;
    let mut n: usize = 0;
    while i < ls.len()
        invariant_except_break
            i <= ls@.len(),
            spans_ok(v@, ls@),
            span_view(v@, ls@) == all,
            n == dmesg_hits(all, i as int).len(),
            n < 15,
            views(r@) == dmesg_hits(all, i as int).map_values(|l: Seq<char>| dmesg_finding(l)),
        ensures
            views(r@) == ({
                let hits = dmesg_hits(all, all.len() as int);
                if hits.len() < 15 {
                    hits
                } else {
                    hits.take(15)
                }
            }).map_values(|l: Seq<char>| dmesg_finding(l)),
        decreases ls@.len() - i,
    {
        let (lo, hi) = ls[i];
        let line = string_of(&v, lo, hi);
        let low = to_lowercase(line.as_str());
        let ghost prev = dmesg_hits(all, i as int);
        assert(all[i as int] == line@);
        if let Some(f) = dmesg_line(line.as_str(), low.as_str()) {
            proof {
                assert(f@ == dmesg_finding(line@));
                lemma_views_push(r@, f);
                assert(dmesg_hits(all, i + 1) == prev.push(line@));
                assert(prev.push(line@).map_values(|l: Seq<char>| dmesg_finding(l)) =~= prev.map_values(
                    |l: Seq<char>| dmesg_finding(l),
                ).push(f@));
            }
            r.push(f);
            n = n + 1;
            if n >= 15 {
                proof {
                    lemma_hits_prefix(all, i + 1, all.len() as int);
                    let hits = dmesg_hits(all, all.len() as int);
                    assert(hits.take(15) == dmesg_hits(all, i + 1));
                }
                break ;
            }
        } else {
            assert(dmesg_hits(all, i + 1) == prev);
        }
        i = i + 1;
    }
    r
}

proof fn lemma_hits_prefix(ls: Seq<Seq<char>>, a: int, b: int)
    requires
        0 <= a <= b <= ls.len(),
    ensures
        dmesg_hits(ls, b).len() >= dmesg_hits(ls, a).len(),
        dmesg_hits(ls, b).take(dmesg_hits(ls, a).len() as int) == dmesg_hits(ls, a),
    decreases b - a,
{
    if a < b {
        lemma_hits_prefix(ls, a, b - 1);
        let x = dmesg_hits(ls, b - 1);
        let y = dmesg_hits(ls, b);
        let k = dmesg_hits(ls, a).len() as int;
        assert(y.take(k) =~= x.take(k));
    } else {
        assert(dmesg_hits(ls, a).take(dmesg_hits(ls, a).len() as int) =~= dmesg_hits(ls, a));
    }
}

// ---------------------------------------------------------------------------
// Hidden kernel pointers
// ---------------------------------------------------------------------------

/// The first 20 lines of the symbol table are not all empty, and every
/// non-empty one starts with sixteen zeros.
pub open spec fn pointers_hidden(ks: Seq<char>) -> bool {
    let ls = lines(ks);
    let n = if ls.len() < 20 {
        ls.len() as int
    } else {
        20
    };
    n > 0 && forall|i: int|
        0 <= i < n ==> (#[trigger] ls[i]).len() == 0 || starts_with(ls[i], "0000000000000000"@)
}

/// What the symbol table gives: an info finding when kernel pointers are
/// hidden.
pub open spec fn memory_findings(ks: Option<Seq<char>>) -> Seq<FindingView> {
    match ks {
        Some(t) => finding_if(
            pointers_hidden(t),
            mk(
                "memory"@,
                "info"@,
                "kernel pointers hidden in kallsyms"@,
                "run as root / relax kptr_restrict for deeper analysis"@,
                seq![],
                Some(0),
            ),
        ),
        None => seq![],
    }
}

/// An info finding when the symbol table's first lines show only zero
/// addresses (see `pointers_hidden`).
pub fn memory_ish(kallsyms: Option<&str>) -> (r: Vec<Finding>)
    ensures
        views(r@) == memory_findings(opt_chars(kallsyms)),
{
    let mut r: Vec<Finding> = Vec::new();
    assert(views(r@) =~= Seq::<FindingView>::empty());
    let ks = match kallsyms {
        Some(k) => k,
        None => {
            return r;
        },
    };
    let v = chars_of(ks);
    let ls = line_spans(&v);
    let ghost all = lines(ks@);
    let n = if ls.len() < 20 {
        ls.len()
    } else {
        20
    };
    let zeros = chars_of("0000000000000000");
    let mut i: usize = 0;
    let mut ok = true;
    while i < n
        invariant
            i <= n <= ls@.len(),
            spans_ok(v@, ls@),
            span_view(v@, ls@) == all,
            zeros@ == "0000000000000000"@,
            ok == forall|j: int| 0 <= j < i ==> (#[trigger] all[j]).len() == 0 || starts_with(
                all[j],
                "0000000000000000"@,
            ),
        decreases n - i,
    {
        let (lo, hi) = ls[i];
        assert(all[i as int] == v@.subrange(lo as int, hi as int));
        if lo < hi && !starts_with_in(&v, lo, hi, &zeros) {
            ok = false;
        }
        i = i + 1;
    }
    if n > 0 && ok {
        let f = Finding::new(
            "memory",
            "info",
            "kernel pointers hidden in kallsyms",
            "run as root / relax kptr_restrict for deeper analysis",
        ).with_score(0);
        proof {
            lemma_views_push(r@, f);
        }
        r.push(f);
    }
    r
}

// ---------------------------------------------------------------------------
// All of the above
// ---------------------------------------------------------------------------

/// Everything the remaining checks read.
pub struct MiscInputs {
    /// `/proc/sys/kernel/yama/ptrace_scope`, if it could be read.
    pub ptrace_scope: Option<String>,
    /// `/proc/sys/kernel/kptr_restrict`, if it could be read.
    pub kptr_restrict: Option<String>,
    /// `/var/log/audit/audit.log`.
    pub audit: AuditLog,
    /// The size of `/etc/ld.so.preload`, when it exists.
    pub preload_size: Option<u64>,
    /// The text of `/etc/ld.so.preload` (empty when unreadable).
    pub preload_text: String,
    /// Whether each `artifact_path(k)` exists.
    pub artifacts: Vec<bool>,
    /// The output of `dmesg -T`, if it could be run.
    pub dmesg: Option<String>,
    /// The text of `/proc/kallsyms`, if it could be read.
    pub kallsyms: Option<String>,
}

fn opt_str(o: &Option<String>) -> (r: Option<&str>)
    ensures
        opt_chars(r) == crate::modules::opt_string(*o),
{
    match o {
        Some(t) => Some(t.as_str()),
        None => None,
    }
}

/// All remaining findings, in the order: kernel settings, audit log,
/// preload and artifact paths, kernel log, hidden pointers.
pub open spec fn misc_findings(inp: MiscInputs) -> Seq<FindingView> {
    sysctl_findings(
        crate::modules::opt_string(inp.ptrace_scope),
        crate::modules::opt_string(inp.kptr_restrict),
    ) + audit_findings(inp.audit) + preload_findings(
        inp.preload_size,
        inp.preload_text@,
        inp.artifacts@,
    ) + dmesg_findings(crate::modules::opt_string(inp.dmesg)) + memory_findings(
        crate::modules::opt_string(inp.kallsyms),
    )
}

/// The remaining checks on what was read.
pub fn run(inp: &MiscInputs) -> (r: Vec<Finding>)
    ensures
        views(r@) == misc_findings(*inp),
{
    let mut r = sysctl_bits(opt_str(&inp.ptrace_scope), opt_str(&inp.kptr_restrict));
    extend_findings(&mut r, audit_bits(&inp.audit));
    extend_findings(
        &mut r,
        preload_and_paths(inp.preload_size, inp.preload_text.as_str(), &inp.artifacts),
    );
    extend_findings(&mut r, dmesg_bits(opt_str(&inp.dmesg)));
    extend_findings(&mut r, memory_ish(opt_str(&inp.kallsyms)));
    r
}

// ---------------------------------------------------------------------------
// Laws of the remaining checks
// ---------------------------------------------------------------------------

/// The audit log never floods the report: at most 12 findings, however
/// many calls it records.
pub proof fn law_audit_at_most_twelve(log: AuditLog)
    ensures
        audit_findings(log).len() <= 12,
{
}

/// The kernel log never floods the report: at most 15 findings.
pub proof fn law_dmesg_at_most_fifteen(text: Option<Seq<char>>)
    ensures
        dmesg_findings(text).len() <= 15,
{
}

/// The audit findings depend only on the newest 5000 lines of the log: two
/// logs of at least 5000 lines that end with the same 5000 lines give the
/// same findings, whatever comes before.
pub proof fn law_audit_reads_newest_lines(a: String, b: String)
    requires
        lines(a@).len() >= 5000,
        lines(b@).len() >= 5000,
        lines(a@).skip(lines(a@).len() - 5000) == lines(b@).skip(lines(b@).len() - 5000),
    ensures
        audit_findings(AuditLog::Text(a)) == audit_findings(AuditLog::Text(b)),
{
    let la = lines(a@);
    let lb = lines(b@);
    assert forall|j: int| 0 <= j < 5000 implies #[trigger] tail_reversed(la)[j] == tail_reversed(lb)[j] by {
        assert(la.skip(la.len() - 5000)[4999 - j] == la[la.len() - 1 - j]);
        assert(lb.skip(lb.len() - 5000)[4999 - j] == lb[lb.len() - 1 - j]);
    }
    assert(tail_reversed(la) =~= tail_reversed(lb));
}

/// The newest line is read first: when the last line of the log is a
/// `type=SYSCALL` record of `init_module` (`syscall=175`), the first audit
/// finding is about that line.
pub proof fn law_audit_newest_line_first(a: String)
    requires
        lines(a@).len() > 0,
        contains(lines(a@).last(), "type=SYSCALL"@),
        contains(lines(a@).last(), "syscall=175"@),
    ensures
        audit_findings(AuditLog::Text(a)).len() > 0,
        audit_findings(AuditLog::Text(a))[0] == hit_finding((lines(a@).last(), 0)),
{
    let tl = tail_reversed(lines(a@));
    assert(tl[0] == lines(a@).last());
    reveal_strlit("syscall=");
    reveal_strlit("175");
    reveal_strlit("syscall=175");
    assert("syscall="@ + audit_syscall(0).0 =~= "syscall=175"@);
    let l0 = line_hits(tl[0], AUDIT_SYSCALLS as int);
    lemma_line_hits_first(tl[0]);
    assert(tl.len() >= 1);
    assert(audit_hits(tl, 0) == Seq::<(Seq<char>, int)>::empty());
    assert(audit_hits(tl, 1) =~= l0.map_values(|k: int| (tl[0], k)));
    assert(audit_hits(tl, 1)[0] == (tl[0], 0int));
    lemma_audit_hits_start(tl, tl.len() as int);
    let hits = audit_hits(tl, tl.len() as int);
    assert(hits.take(audit_hits(tl, 1).len() as int)[0] == hits[0]);
    assert(hits[0] == (tl[0], 0int));
    let shown = if hits.len() < 12 {
        hits
    } else {
        hits.take(12)
    };
    assert(shown[0] == hits[0]);
}

proof fn lemma_line_hits_first(l: Seq<char>)
    requires
        contains(l, "syscall="@ + audit_syscall(0).0),
    ensures
        line_hits(l, AUDIT_SYSCALLS as int).len() > 0,
        line_hits(l, AUDIT_SYSCALLS as int)[0] == 0,
{
    lemma_line_hits_prefix(l, 1, AUDIT_SYSCALLS as int);
    assert(line_hits(l, 0) == Seq::<int>::empty());
    assert(line_hits(l, 1) =~= seq![0int]);
    assert(line_hits(l, AUDIT_SYSCALLS as int).take(1)[0] == line_hits(l, AUDIT_SYSCALLS as int)[0]);
}

proof fn lemma_line_hits_prefix(l: Seq<char>, a: int, b: int)
    requires
        0 <= a <= b,
    ensures
        line_hits(l, b).len() >= line_hits(l, a).len(),
        line_hits(l, b).take(line_hits(l, a).len() as int) == line_hits(l, a),
    decreases b - a,
{
    if a < b {
        lemma_line_hits_prefix(l, a, b - 1);
        let k = line_hits(l, a).len() as int;
        assert(line_hits(l, b).take(k) =~= line_hits(l, b - 1).take(k));
    } else {
        assert(line_hits(l, a).take(line_hits(l, a).len() as int) =~= line_hits(l, a));
    }
}

proof fn lemma_audit_hits_start(ls: Seq<Seq<char>>, n: int)
    requires
        1 <= n <= ls.len(),
    ensures
        audit_hits(ls, n).len() >= audit_hits(ls, 1).len(),
        audit_hits(ls, n).take(audit_hits(ls, 1).len() as int) == audit_hits(ls, 1),
    decreases n,
{
    if n > 1 {
        lemma_audit_hits_start(ls, n - 1);
        let k = audit_hits(ls, 1).len() as int;
        assert(audit_hits(ls, n).take(k) =~= audit_hits(ls, n - 1).take(k));
    } else {
        assert(audit_hits(ls, 1).take(audit_hits(ls, 1).len() as int) =~= audit_hits(ls, 1));
    }
}

} // verus!
