//! Integrity checks: a snapshot of boot files, the kernel symbol table and
//! the module list, compared with a saved baseline.
use vstd::prelude::*;
use crate::findings::{Finding, FindingView, mk, views, finding_if, lemma_views_push, extend_findings};
use crate::outside::{sha256, sha256_digest, hex_encode, hex_lower};
use crate::text::{
    chars_of, line_spans, lines, span_view, spans_ok, starts_with, starts_with_in, ends_with,
    ends_with_in, push_str, push_dec, dec, owned, cat, opt_chars, push_range,
    push_char,
};

verus! {

/// The SHA-256 digest of `data` in lowercase hexadecimal.
pub open spec fn hex_digest(data: Seq<u8>) -> Seq<char> {
    hex_lower(sha256(data))
}

/// The SHA-256 digest of `data` in lowercase hexadecimal.
pub fn hex_sha256(data: &[u8]) -> (r: String)
    ensures
        r@ == hex_digest(data@),
{
    let d = sha256_digest(data);
    hex_encode(d.as_slice())
}

/// A file of `/boot` worth watching: a kernel image, symbol map, initial
/// ramdisk or EFI binary.
pub open spec fn is_boot_file(name: Seq<char>) -> bool {
    ||| starts_with(name, "vmlinuz"@)
    ||| starts_with(name, "System.map"@)
    ||| starts_with(name, "initrd"@)
    ||| starts_with(name, "initramfs"@)
    ||| ends_with(name, ".efi"@)
}

/// Whether a file of `/boot` is worth watching.
pub fn is_boot_artifact(name: &str) -> (b: bool)
    ensures
        b == is_boot_file(name@),
{
    let v = chars_of(name);
    let n = v.len();
    assert(v@.subrange(0, n as int) == v@);
    let a = starts_with_in(&v, 0, n, &chars_of("vmlinuz"));
    let b = starts_with_in(&v, 0, n, &chars_of("System.map"));
    let c = starts_with_in(&v, 0, n, &chars_of("initrd"));
    let d = starts_with_in(&v, 0, n, &chars_of("initramfs"));
    let e = ends_with_in(&v, 0, n, &chars_of(".efi"));
    a || b || c || d || e
}

/// The first `n` lines, each followed by `\n`.
pub open spec fn with_newlines(ls: Seq<Seq<char>>, n: int) -> Seq<char>
    decreases n,
{
    if n <= 0 {
        seq![]
    } else {
        with_newlines(ls, n - 1) + ls[n - 1] + seq!['\n']
    }
}

/// The first 2000 lines of the symbol table, each followed by `\n`.
pub open spec fn sample_text(ks: Seq<char>) -> Seq<char> {
    let ls = lines(ks);
    with_newlines(
        ls,
        if ls.len() < 2000 {
            ls.len() as int
        } else {
            2000
        },
    )
}

/// The text of the first 2000 lines of the symbol table and its number of
/// lines; empty and 0 when it could not be read.
pub fn kallsyms_sample(kallsyms: Option<&str>) -> (r: (String, usize))
    ensures
        r.0@ == match opt_chars(kallsyms) {
            Some(t) => sample_text(t),
            None => seq![],
        },
        r.1 == match opt_chars(kallsyms) {
            Some(t) => lines(t).len(),
            None => 0,
        },
{
    match kallsyms {
        None => (String::new(), 0),
        Some(ks) => {
            let v = chars_of(ks);
            let ls = line_spans(&v);
            let ghost all = lines(ks@);
            let n = if ls.len() < 2000 {
                ls.len()
            } else {
                2000
            };
            let mut s = String::new();
            let mut i: usize = 0;
            while i < n
                invariant
                    i <= n <= ls@.len(),
                    spans_ok(v@, ls@),
                    span_view(v@, ls@) == all,
                    s@ == with_newlines(all, i as int),
                decreases n - i,
            {
                let (lo, hi) = ls[i];
                assert(all[i as int] == v@.subrange(lo as int, hi as int));
                push_range(&mut s, &v, lo, hi);
                push_char(&mut s, '\n');
                i = i + 1;
            }
            (s, ls.len())
        },
    }
}

/// A snapshot of what the integrity check watches.
pub struct Baseline {
    /// The kernel release.
    pub kernel: String,
    /// Path and SHA-256 (hexadecimal) of each watched file of `/boot`.
    pub files: Vec<(String, String)>,
    /// SHA-256 of the first 2000 lines of the symbol table.
    pub kallsyms_sample: String,
    /// Number of lines of the symbol table.
    pub kallsyms_lines: usize,
    /// SHA-256 of the text of `/proc/modules`.
    pub modules_hash: String,
}

/// The contents of a `Baseline`.
pub struct BaselineView {
    pub kernel: Seq<char>,
    pub files: Seq<(Seq<char>, Seq<char>)>,
    pub kallsyms_sample: Seq<char>,
    pub kallsyms_lines: usize,
    pub modules_hash: Seq<char>,
}

/// The contents of a list of (path, hash) pairs.
pub open spec fn file_views(v: Seq<(String, String)>) -> Seq<(Seq<char>, Seq<char>)> {
    v.map_values(|p: (String, String)| (p.0@, p.1@))
}

impl View for Baseline {
    type V = BaselineView;

    open spec fn view(&self) -> BaselineView {
        BaselineView {
            kernel: self.kernel@,
            files: file_views(self.files@),
            kallsyms_sample: self.kallsyms_sample@,
            kallsyms_lines: self.kallsyms_lines,
            modules_hash: self.modules_hash@,
        }
    }
}

/// The snapshot of what was read.
pub open spec fn snapshot_of(
    kernel: Seq<char>,
    files: Seq<(Seq<char>, Seq<char>)>,
    kallsyms: Option<Seq<char>>,
    modules: Seq<char>,
) -> BaselineView {
    BaselineView {
        kernel,
        files,
        kallsyms_sample: hex_digest(
            vstd::utf8::encode_utf8(
                match kallsyms {
                    Some(t) => sample_text(t),
                    None => seq![],
                },
            ),
        ),
        kallsyms_lines: match kallsyms {
            Some(t) => lines(t).len() as usize,
            None => 0,
        },
        modules_hash: hex_digest(vstd::utf8::encode_utf8(modules)),
    }
}

/// The snapshot of what was read: the kernel release, the hashed boot
/// files, the SHA-256 of the first 2000 lines of the symbol table (of empty
/// text when it could not be read) with its line count, and the SHA-256 of
/// the text of `/proc/modules` (empty when unreadable).
pub fn snapshot(kernel: &str, files: Vec<(String, String)>, kallsyms: Option<&str>, modules: &str) -> (b:
    Baseline)
    ensures
        b@ == snapshot_of(kernel@, file_views(files@), opt_chars(kallsyms), modules@),
{
    let (sample, count) = kallsyms_sample(kallsyms);
    let sample_hash = hex_sha256(sample.as_str().as_bytes());
    let modules_hash = hex_sha256(modules.as_bytes());
    Baseline {
        kernel: owned(kernel),
        files,
        kallsyms_sample: sample_hash,
        kallsyms_lines: count,
        modules_hash,
    }
}


// ---------------------------------------------------------------------------
// Comparing with the baseline
// ---------------------------------------------------------------------------

/// The hash that the list records for a path (the first entry for it).
pub open spec fn lookup(files: Seq<(Seq<char>, Seq<char>)>, path: Seq<char>) -> Option<Seq<char>>
    decreases files.len(),
{
    if files.len() == 0 {
        None
    } else if files[0].0 == path {
        Some(files[0].1)
    } else {
        lookup(files.drop_first(), path)
    }
}

/// Findings for the first `n` files of the snapshot: new files and changed
/// hashes.
pub open spec fn file_change_findings(
    base: Seq<(Seq<char>, Seq<char>)>,
    snap: Seq<(Seq<char>, Seq<char>)>,
    n: int,
) -> Seq<FindingView>
    decreases n,
{
    if n <= 0 {
        seq![]
    } else {
        let (path, hash) = snap[n - 1];
        file_change_findings(base, snap, n - 1) + match lookup(base, path) {
            None => seq![
                mk(
                    "integrity"@,
                    "medium"@,
                    "new critical file: "@ + path,
                    "showed up after baseline"@,
                    seq!["file:"@ + path],
                    Some(80),
                ),
            ],
            Some(old) => finding_if(
                old != hash,
                mk(
                    "integrity"@,
                    "high"@,
                    "hash mismatch: "@ + path,
                    "was "@ + old + ", now "@ + hash,
                    seq!["file:"@ + path, "sha256:"@ + hash],
                    Some(200),
                ),
            ),
        }
    }
}

/// Findings for the first `n` files of the baseline that the snapshot lacks.
pub open spec fn missing_file_findings(
    base: Seq<(Seq<char>, Seq<char>)>,
    snap: Seq<(Seq<char>, Seq<char>)>,
    n: int,
) -> Seq<FindingView>
    decreases n,
{
    if n <= 0 {
        seq![]
    } else {
        let path = base[n - 1].0;
        missing_file_findings(base, snap, n - 1) + finding_if(
            lookup(snap, path) is None,
            mk(
                "integrity"@,
                "high"@,
                "monitored file missing: "@ + path,
                "present in baseline, gone now"@,
                seq!["file:"@ + path],
                Some(150),
            ),
        )
    }
}

/// The difference of two line counts.
pub open spec fn abs_diff(a: usize, b: usize) -> nat {
    if a >= b {
        (a - b) as nat
    } else {
        (b - a) as nat
    }
}

/// What comparing the snapshot with the baseline gives: new, changed and
/// missing files, a changed symbol table sample (when the baseline has
/// one), a line count that moved by more than 500, a changed module list.
pub open spec fn compare_findings(base: BaselineView, snap: BaselineView) -> Seq<FindingView> {
    let delta = abs_diff(snap.kallsyms_lines, base.kallsyms_lines);
    file_change_findings(base.files, snap.files, snap.files.len() as int) + missing_file_findings(
        base.files,
        snap.files,
        base.files.len() as int,
    ) + finding_if(
        base.kallsyms_sample.len() > 0 && base.kallsyms_sample != snap.kallsyms_sample,
        mk(
            "integrity"@,
            "medium"@,
            "kallsyms sample hash changed"@,
            "symbol table sample drifted — check module list"@,
            seq![],
            Some(80),
        ),
    ) + finding_if(
        delta > 500,
        mk(
            "integrity"@,
            "low"@,
            "large kallsyms line-count delta ("@ + dec(delta) + ")"@,
            "normal after big module loads, still worth a glance"@,
            seq![],
            Some(30),
        ),
    ) + finding_if(
        base.modules_hash != snap.modules_hash,
        mk(
            "integrity"@,
            "low"@,
            "/proc/modules changed since baseline"@,
            "expected after loading drivers; review if unexpected"@,
            seq![],
            Some(20),
        ),
    )
}

fn lookup_exec(files: &Vec<(String, String)>, path: &String) -> (r: Option<usize>)
    ensures
        match r {
            Some(j) => j < files@.len() && lookup(file_views(files@), path@) == Some(
                files@[j as int].1@,
            ),
            None => lookup(file_views(files@), path@) is None,
        },
{
    let ghost fv = file_views(files@);
    let mut j: usize = 0;
    assert(fv.skip(0) == fv);
    while j < files.len()
        invariant
            j <= files@.len(),
            fv == file_views(files@),
            lookup(fv, path@) == lookup(fv.skip(j as int), path@),
        decreases files@.len() - j,
    {
        assert(fv.skip(j as int)[0] == (files@[j as int].0@, files@[j as int].1@));
        if files[j].0 == *path {
            return Some(j);
        }
        assert(fv.skip(j as int).drop_first() == fv.skip(j + 1));
        j = j + 1;
    }
    None
}

/// The findings of comparing a snapshot with the baseline (see
/// `compare_findings`).
pub fn compare(base: &Baseline, snap: &Baseline) -> (r: Vec<Finding>)
    ensures
        views(r@) == compare_findings(base@, snap@),
{
    let ghost bf = file_views(base.files@);
    let ghost sf = file_views(snap.files@);
    let mut r: Vec<Finding> = Vec::new();
    assert(views(r@) =~= Seq::<FindingView>::empty());
    let mut i: usize = 0;
    while i < snap.files.len()
        invariant
            i <= snap.files@.len(),
            bf == file_views(base.files@),
            sf == file_views(snap.files@),
            views(r@) == file_change_findings(bf, sf, i as int),
        decreases snap.files@.len() - i,
    {
        let (path, hash) = (&snap.files[i].0, &snap.files[i].1);
        assert(sf[i as int] == (path@, hash@));
        match lookup_exec(&base.files, path) {
            None => {
                let f = Finding::new(
                    "integrity",
                    "medium",
                    cat("new critical file: ", path.as_str()).as_str(),
                    "showed up after baseline",
                ).ioc(cat("file:", path.as_str()).as_str()).with_score(80);
                proof {
                    assert(f@.iocs =~= seq!["file:"@ + path@]);
                    lemma_views_push(r@, f);
                }
                r.push(f);
            },
            Some(j) => {
                let old = &base.files[j].1;
                if !(*old == *hash) {
                    let mut detail = cat("was ", old.as_str());
                    push_str(&mut detail, ", now ");
                    push_str(&mut detail, hash.as_str());
                    let f = Finding::new(
                        "integrity",
                        "high",
                        cat("hash mismatch: ", path.as_str()).as_str(),
                        detail.as_str(),
                    ).ioc(cat("file:", path.as_str()).as_str()).ioc(
                        cat("sha256:", hash.as_str()).as_str(),
                    ).with_score(200);
                    proof {
                        assert(f@.iocs =~= seq!["file:"@ + path@, "sha256:"@ + hash@]);
                        lemma_views_push(r@, f);
                    }
                    r.push(f);
                } else {
                    assert(file_change_findings(bf, sf, i + 1) =~= file_change_findings(bf, sf, i as int));
                }
            },
        }
        i = i + 1;
    }
    let ghost base1 = views(r@);
    let mut i: usize = 0;
    while i < base.files.len()
        invariant
            i <= base.files@.len(),
            bf == file_views(base.files@),
            sf == file_views(snap.files@),
            views(r@) == base1 + missing_file_findings(bf, sf, i as int),
        decreases base.files@.len() - i,
    {
        let path = &base.files[i].0;
        assert(bf[i as int].0 == path@);
        if lookup_exec(&snap.files, path).is_none() {
            let f = Finding::new(
                "integrity",
                "high",
                cat("monitored file missing: ", path.as_str()).as_str(),
                "present in baseline, gone now",
            ).ioc(cat("file:", path.as_str()).as_str()).with_score(150);
            proof {
                assert(f@.iocs =~= seq!["file:"@ + path@]);
                lemma_views_push(r@, f);
            }
            r.push(f);
        }
        i = i + 1;
    }
    let mut tail: Vec<Finding> = Vec::new();
    assert(views(tail@) =~= Seq::<FindingView>::empty());
    if !base.kallsyms_sample.as_str().is_empty() && !(base.kallsyms_sample == snap.kallsyms_sample) {
        let f = Finding::new(
            "integrity",
            "medium",
            "kallsyms sample hash changed",
            "symbol table sample drifted — check module list",
        ).with_score(80);
        proof {
            lemma_views_push(tail@, f);
        }
        tail.push(f);
    }
    let delta: usize = if snap.kallsyms_lines >= base.kallsyms_lines {
        snap.kallsyms_lines - base.kallsyms_lines
    } else {
        base.kallsyms_lines - snap.kallsyms_lines
    };
    if delta > 500 {
        let mut title = owned("large kallsyms line-count delta (");
        push_dec(&mut title, delta as u64);
        push_str(&mut title, ")");
        let f = Finding::new(
            "integrity",
            "low",
            title.as_str(),
            "normal after big module loads, still worth a glance",
        ).with_score(30);
        proof {
            lemma_views_push(tail@, f);
        }
        tail.push(f);
    }
    if !(base.modules_hash == snap.modules_hash) {
        let f = Finding::new(
            "integrity",
            "low",
            "/proc/modules changed since baseline",
            "expected after loading drivers; review if unexpected",
        ).with_score(20);
        proof {
            lemma_views_push(tail@, f);
        }
        tail.push(f);
    }
    extend_findings(&mut r, tail);
    r
}

/// What became of the saved baseline.
pub enum BaselineState {
    /// There was none; the current snapshot was saved at this path.
    Created(String),
    /// It was read back.
    Loaded(Baseline),
    /// It exists but could not be read or parsed.
    Unusable,
}

/// All integrity findings: the baseline's creation, or the comparison with
/// it; then the rootkit symbols of the symbol table.
pub open spec fn integrity_findings(
    state: BaselineState,
    snap: BaselineView,
    kallsyms: Option<Seq<char>>,
) -> Seq<FindingView> {
    baseline_findings(state, snap) + crate::modules::symbol_findings(
        "integrity"@,
        "suspicious kernel symbol: "@,
        "matches known teaching-rootkit symbols"@,
        kallsyms,
    )
}

/// The baseline's creation, or the comparison with it.
pub open spec fn baseline_findings(state: BaselineState, snap: BaselineView) -> Seq<FindingView> {
    match state {
        BaselineState::Created(path) => seq![
            mk(
                "integrity"@,
                "info"@,
                "integrity baseline created"@,
                "wrote "@ + path@,
                seq![],
                Some(0),
            ),
        ],
        BaselineState::Loaded(base) => compare_findings(base@, snap),
        BaselineState::Unusable => seq![],
    }
}

/// The integrity checks on the snapshot and what became of the baseline.
pub fn run(state: &BaselineState, snap: &Baseline, kallsyms: Option<&str>) -> (r: Vec<Finding>)
    ensures
        views(r@) == integrity_findings(*state, snap@, opt_chars(kallsyms)),
{
    let mut r: Vec<Finding> = Vec::new();
    match state {
        BaselineState::Created(path) => {
            let f = Finding::new(
                "integrity",
                "info",
                "integrity baseline created",
                cat("wrote ", path.as_str()).as_str(),
            ).with_score(0);
            r.push(f);
            assert(views(r@) =~= seq![f@]);
        },
        BaselineState::Loaded(base) => {
            r = compare(base, snap);
        },
        BaselineState::Unusable => {
            assert(views(r@) =~= Seq::<FindingView>::empty());
        },
    }
    extend_findings(
        &mut r,
        crate::modules::check_symbols(
            "integrity",
            "suspicious kernel symbol: ",
            "matches known teaching-rootkit symbols",
            kallsyms,
        ),
    );
    r
}


// ---------------------------------------------------------------------------
// Laws of the comparison
// ---------------------------------------------------------------------------

/// No two files share a path.
pub open spec fn distinct_paths(files: Seq<(Seq<char>, Seq<char>)>) -> bool {
    forall|i: int, j: int| 0 <= i < j < files.len() ==> #[trigger] files[i].0 != #[trigger] files[j].0
}

proof fn lemma_lookup_finds(files: Seq<(Seq<char>, Seq<char>)>, k: int)
    requires
        distinct_paths(files),
        0 <= k < files.len(),
    ensures
        lookup(files, files[k].0) == Some(files[k].1),
    decreases k,
{
    if k > 0 {
        let rest = files.drop_first();
        assert(files[0].0 != files[k].0);
        assert(rest[k - 1] == files[k]);
        assert(distinct_paths(rest)) by {
            assert forall|i: int, j: int| 0 <= i < j < rest.len() implies #[trigger] rest[i].0
                != #[trigger] rest[j].0 by {
                assert(rest[i] == files[i + 1] && rest[j] == files[j + 1]);
            }
        }
        lemma_lookup_finds(rest, k - 1);
    }
}

/// A snapshot compared with itself as baseline raises nothing: an
/// unchanged system stays quiet run after run.
pub proof fn law_unchanged_snapshot_is_quiet(b: BaselineView)
    requires
        distinct_paths(b.files),
    ensures
        compare_findings(b, b) == Seq::<FindingView>::empty(),
{
    let n = b.files.len() as int;
    assert forall|k: int| 0 <= k <= n implies #[trigger] file_change_findings(b.files, b.files, k)
        == Seq::<FindingView>::empty() by {
        lemma_no_changes(b.files, k);
    }
    assert forall|k: int| 0 <= k <= n implies #[trigger] missing_file_findings(b.files, b.files, k)
        == Seq::<FindingView>::empty() by {
        lemma_none_missing(b.files, k);
    }
    assert(compare_findings(b, b) =~= Seq::<FindingView>::empty());
}

proof fn lemma_no_changes(files: Seq<(Seq<char>, Seq<char>)>, k: int)
    requires
        distinct_paths(files),
        0 <= k <= files.len(),
    ensures
        file_change_findings(files, files, k) == Seq::<FindingView>::empty(),
    decreases k,
{
    if k > 0 {
        lemma_no_changes(files, k - 1);
        lemma_lookup_finds(files, k - 1);
        assert(file_change_findings(files, files, k) =~= Seq::<FindingView>::empty());
    }
}

proof fn lemma_none_missing(files: Seq<(Seq<char>, Seq<char>)>, k: int)
    requires
        distinct_paths(files),
        0 <= k <= files.len(),
    ensures
        missing_file_findings(files, files, k) == Seq::<FindingView>::empty(),
    decreases k,
{
    if k > 0 {
        lemma_none_missing(files, k - 1);
        lemma_lookup_finds(files, k - 1);
        assert(missing_file_findings(files, files, k) =~= Seq::<FindingView>::empty());
    }
}

proof fn lemma_with_newlines_agree(a: Seq<Seq<char>>, b: Seq<Seq<char>>, n: int)
    requires
        0 <= n <= a.len(),
        n <= b.len(),
        forall|j: int| 0 <= j < n ==> #[trigger] a[j] == b[j],
    ensures
        with_newlines(a, n) == with_newlines(b, n),
    decreases n,
{
    if n > 0 {
        lemma_with_newlines_agree(a, b, n - 1);
        assert(a[n - 1] == b[n - 1]);
    }
}

/// The symbol table sample of a snapshot depends only on the first 2000
/// lines of the table: two tables that agree on their first 2000 lines (or
/// are equal when shorter) give the same `kallsyms_sample`, so symbols
/// added further down, as when a driver is loaded, do not change it.
pub proof fn law_sample_reads_first_2000_lines(
    kernel: Seq<char>,
    files: Seq<(Seq<char>, Seq<char>)>,
    k1: Seq<char>,
    k2: Seq<char>,
    m1: Seq<char>,
    m2: Seq<char>,
)
    requires
        lines(k1).len() < 2000 || lines(k2).len() < 2000 ==> lines(k1).len() == lines(k2).len(),
        forall|j: int|
            0 <= j < 2000 && j < lines(k1).len() ==> #[trigger] lines(k1)[j] == lines(k2)[j],
    ensures
        snapshot_of(kernel, files, Some(k1), m1).kallsyms_sample == snapshot_of(
            kernel,
            files,
            Some(k2),
            m2,
        ).kallsyms_sample,
{
    let a = lines(k1);
    let b = lines(k2);
    let n = if a.len() < 2000 {
        a.len() as int
    } else {
        2000
    };
    lemma_with_newlines_agree(a, b, n);
    assert(sample_text(k1) == sample_text(k2));
}

} // verus!
