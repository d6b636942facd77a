//! Kernel module checks: the module list in `/proc/modules` against
//! `/sys/module`, `/proc/kallsyms` and the `.ko` files on disk.
use vstd::prelude::*;
use crate::findings::{
    Finding, FindingView, mk, views, finding_if, lemma_views_push, extend_findings,
};
use crate::outside::{regex_is_match, regex_match, to_lowercase, lowercase};
use crate::text::{
    chars_of, line_spans, token_spans, lines, tokens, span_view, spans_ok, starts_with,
    starts_with_in, parse_u64, parse_u64_in, string_of, push_str, push_dec, dec, contains,
    contains_in, range_eq, trim, find, find_in, ends_with, ends_with_in, join,
    join_strings, str_eq, owned,
};

verus! {

/// One entry of `/proc/modules`.
pub struct ModInfo {
    pub name: String,
    pub size: u64,
    pub addr: String,
}

/// Name, size and load address of a module.
pub type ModView = (Seq<char>, u64, Seq<char>);

impl View for ModInfo {
    type V = ModView;

    open spec fn view(&self) -> ModView {
        (self.name@, self.size, self.addr@)
    }
}

/// The contents of a module list.
pub open spec fn mod_views(v: Seq<ModInfo>) -> Seq<ModView> {
    v.map_values(|m: ModInfo| m@)
}

// ---------------------------------------------------------------------------
// Parsing /proc/modules
// ---------------------------------------------------------------------------

/// The first token that starts with `0x`, or the empty string.
pub open spec fn first_hex_addr(toks: Seq<Seq<char>>) -> Seq<char>
    decreases toks.len(),
{
    if toks.len() == 0 {
        seq![]
    } else if starts_with(toks[0], "0x"@) {
        toks[0]
    } else {
        first_hex_addr(toks.drop_first())
    }
}

/// The module that a line of `/proc/modules` describes: lines of fewer than
/// three tokens describe none; an unreadable size counts as 0.
pub open spec fn module_line(l: Seq<char>) -> Option<ModView> {
    let t = tokens(l);
    if t.len() < 3 {
        None
    } else {
        Some(
            (
                t[0],
                match parse_u64(t[1]) {
                    Some(n) => n,
                    None => 0,
                },
                first_hex_addr(t),
            ),
        )
    }
}

/// Some entry of `m` has this name.
pub open spec fn has_name(m: Seq<ModView>, name: Seq<char>) -> bool {
    exists|k: int| 0 <= k < m.len() && #[trigger] m[k].0 == name
}

/// No two entries share a name.
pub open spec fn distinct_names(m: Seq<ModView>) -> bool {
    forall|i: int, j: int| 0 <= i < j < m.len() ==> #[trigger] m[i].0 != #[trigger] m[j].0
}

/// A map keyed by name after `insert`: the entry with that name is
/// replaced, or the new entry goes last.
pub open spec fn insert_module(m: Seq<ModView>, e: ModView) -> Seq<ModView> {
    if has_name(m, e.0) {
        m.update(choose|k: int| 0 <= k < m.len() && #[trigger] m[k].0 == e.0, e)
    } else {
        m.push(e)
    }
}

/// The modules that the lines describe, each name once with the values of
/// its last line.
pub open spec fn modules_of_lines(ls: Seq<Seq<char>>) -> Seq<ModView>
    decreases ls.len(),
{
    if ls.len() == 0 {
        seq![]
    } else {
        let m = modules_of_lines(ls.drop_last());
        match module_line(ls.last()) {
            Some(e) => insert_module(m, e),
            None => m,
        }
    }
}

/// The modules listed in the text of `/proc/modules`.
pub open spec fn proc_modules(data: Seq<char>) -> Seq<ModView> {
    modules_of_lines(lines(data))
}

fn first_hex_token(v: &Vec<char>, toks: &Vec<(usize, usize)>) -> (r: String)
    requires
        spans_ok(v@, toks@),
    ensures
        r@ == first_hex_addr(span_view(v@, toks@)),
{
    let ghost t = span_view(v@, toks@);
    let prefix = chars_of("0x");
    assert(t.skip(0) == t);
    let mut k: usize = 0;
    while k < toks.len()
        invariant
            spans_ok(v@, toks@),
            t == span_view(v@, toks@),
            k <= toks@.len(),
            prefix@ == "0x"@,
            first_hex_addr(t) == first_hex_addr(t.skip(k as int)),
        decreases toks@.len() - k,
    {
        let (a, b) = toks[k];
        assert(t.skip(k as int)[0] == v@.subrange(a as int, b as int));
        if starts_with_in(v, a, b, &prefix) {
            return string_of(v, a, b);
        }
        assert(t.skip(k as int).drop_first() == t.skip(k + 1));
        k = k + 1;
    }
    assert(t.skip(k as int).len() == 0);
    String::new()
}

/// The index of the module called `name` in `r`, if any.
fn position_of(r: &Vec<ModInfo>, name: &String) -> (p: Option<usize>)
    ensures
        match p {
            Some(j) => j < r@.len() && r@[j as int].name@ == name@ && forall|k: int|
                0 <= k < j ==> #[trigger] r@[k].name@ != name@,
            None => forall|k: int| 0 <= k < r@.len() ==> #[trigger] r@[k].name@ != name@,
        },
{
    let mut j: usize = 0;
    while j < r.len()
        invariant
            j <= r@.len(),
            forall|k: int| 0 <= k < j ==> #[trigger] r@[k].name@ != name@,
        decreases r@.len() - j,
    {
        if r[j].name == *name {
            return Some(j);
        }
        j = j + 1;
    }
    None
}

/// The modules listed in the text of `/proc/modules`: each line of at least
/// three whitespace-separated tokens gives a name (the first token), a size
/// (the second, 0 when it is not a number) and an address (the first token
/// that starts with `0x`, or empty). A name that occurs twice keeps the
/// values of its last line.
pub fn parse_proc_modules(data: &str) -> (r: Vec<ModInfo>)
    ensures
        mod_views(r@) == proc_modules(data@),
        distinct_names(mod_views(r@)),
{
    let v = chars_of(data);
    let ls = line_spans(&v);
    let ghost all = lines(v@);
    let mut r: Vec<ModInfo> = Vec::new();
    let mut i: usize = 0;
    while i < ls.len()
        invariant
            spans_ok(v@, ls@),
            span_view(v@, ls@) == all,
            all == lines(data@),
            i <= ls@.len(),
            mod_views(r@) == modules_of_lines(all.take(i as int)),
            distinct_names(mod_views(r@)),
        decreases ls@.len() - i,
    {
        let (lo, hi) = ls[i];
        assert(all.take(i + 1).drop_last() == all.take(i as int));
        assert(all.take(i + 1).last() == v@.subrange(lo as int, hi as int));
        let toks = token_spans(&v, lo, hi);
        let ghost t = span_view(v@, toks@);
        if toks.len() >= 3 {
            let (a0, b0) = toks[0];
            let (a1, b1) = toks[1];
            let name = string_of(&v, a0, b0);
            let size = match parse_u64_in(&v, a1, b1) {
                Some(n) => n,
                None => 0,
            };
            let addr = first_hex_token(&v, &toks);
            let entry = ModInfo { name, size, addr };
            let ghost e = entry@;
            assert(e == module_line(all.take(i + 1).last()).unwrap());
            let ghost m = mod_views(r@);
            let pos = position_of(&r, &entry.name);
            if let Some(j) = pos {
                proof {
                    assert(m[j as int].0 == e.0);
                    let c = choose|k: int| 0 <= k < m.len() && #[trigger] m[k].0 == e.0;
                    if c != j {
                        if c < j {
                            assert(m[c].0 != e.0);
                        } else {
                            assert(m[j as int].0 != m[c].0);
                        }
                    }
                }
                r.set(j, entry);
                assert(mod_views(r@) =~= m.update(j as int, e));
            } else {
                proof {
                    assert forall|k: int| 0 <= k < m.len() implies #[trigger] m[k].0 != e.0 by {
                        assert(m[k] == r@[k]@);
                    }
                }
                r.push(entry);
                assert(mod_views(r@) =~= m.push(e));
            }
        }
        i = i + 1;
    }
    assert(all.take(ls@.len() as int) == all);
    r
}


// ---------------------------------------------------------------------------
// What the module checks report
// ---------------------------------------------------------------------------

/// Module names that public LKM rootkits use, and the rootkit's name.
pub open spec fn known_sig(k: int) -> (Seq<char>, Seq<char>) {
    if k == 0 {
        ("diamorphine"@, "Diamorphine"@)
    } else if k == 1 {
        ("reptile"@, "Reptile"@)
    } else if k == 2 {
        ("suterusu"@, "Suterusu"@)
    } else if k == 3 {
        ("adore"@, "Adore-ng"@)
    } else {
        ("adore-ng"@, "Adore-ng"@)
    }
}

/// The number of known rootkit module signatures.
pub const KNOWN_SIGS: usize = 5;

fn known_sig_at(k: usize) -> (r: (&'static str, &'static str))
    requires
        k < KNOWN_SIGS,
    ensures
        r.0@ == known_sig(k as int).0,
        r.1@ == known_sig(k as int).1,
{
    if k == 0 {
        ("diamorphine", "Diamorphine")
    } else if k == 1 {
        ("reptile", "Reptile")
    } else if k == 2 {
        ("suterusu", "Suterusu")
    } else if k == 3 {
        ("adore", "Adore-ng")
    } else {
        ("adore-ng", "Adore-ng")
    }
}

/// The regular expression for suspicious module names.
pub const SUSPICIOUS_NAME: &'static str =
    "(?i)rootkit|hide|stealth|backdoor|^rk|diamorphine|reptile|suterusu|adore";

/// Symbols that public teaching rootkits leave in the kernel symbol table.
pub open spec fn bad_sym(k: int) -> Seq<char> {
    if k == 0 {
        "hacked_getdents"@
    } else if k == 1 {
        "hacked_kill"@
    } else if k == 2 {
        "give_root"@
    } else if k == 3 {
        "hide_module"@
    } else {
        "hidden_tcp4_seq_show"@
    }
}

/// The number of rootkit symbols looked for.
pub const BAD_SYMS: usize = 5;

fn bad_sym_at(k: usize) -> (r: &'static str)
    requires
        k < BAD_SYMS,
    ensures
        r@ == bad_sym(k as int),
{
    if k == 0 {
        "hacked_getdents"
    } else if k == 1 {
        "hacked_kill"
    } else if k == 2 {
        "give_root"
    } else if k == 3 {
        "hide_module"
    } else {
        "hidden_tcp4_seq_show"
    }
}

/// The finding for a module named like a known rootkit.
pub open spec fn known_finding(name: Seq<char>, label: Seq<char>) -> FindingView {
    mk(
        "modules"@,
        "critical"@,
        "known rootkit module: "@ + label + " ("@ + name + ")"@,
        "module name matches a known LKM rootkit signature"@,
        seq!["module:"@ + name, "rootkit:"@ + label],
        Some(400),
    )
}

/// Findings for the first `n` signatures that the lowercased name contains.
pub open spec fn known_findings(name: Seq<char>, lower: Seq<char>, n: int) -> Seq<FindingView>
    decreases n,
{
    if n <= 0 {
        seq![]
    } else {
        known_findings(name, lower, n - 1) + finding_if(
            contains(lower, known_sig(n - 1).0),
            known_finding(name, known_sig(n - 1).1),
        )
    }
}

/// The finding for a module whose name matches `SUSPICIOUS_NAME`.
pub open spec fn suspicious_finding(m: ModView) -> FindingView {
    mk(
        "modules"@,
        "high"@,
        "suspicious module name: "@ + m.0,
        "addr="@ + m.2 + " size="@ + dec(m.1 as nat),
        seq!["module:"@ + m.0],
        Some(200),
    )
}

/// What the name of one listed module gives.
pub open spec fn name_findings(m: ModView) -> Seq<FindingView> {
    known_findings(m.0, lowercase(m.0), KNOWN_SIGS as int) + finding_if(
        regex_match(SUSPICIOUS_NAME@, m.0) == Some(true),
        suspicious_finding(m),
    )
}

/// What the names of the first `n` listed modules give.
pub open spec fn all_name_findings(ms: Seq<ModView>, n: int) -> Seq<FindingView>
    decreases n,
{
    if n <= 0 {
        seq![]
    } else {
        all_name_findings(ms, n - 1) + name_findings(ms[n - 1])
    }
}

fn known_findings_for(name: &str, lower: &Vec<char>) -> (r: Vec<Finding>)
    ensures
        views(r@) == known_findings(name@, lower@, KNOWN_SIGS as int),
{
    let mut r: Vec<Finding> = Vec::new();
    let mut k: usize = 0;
    while k < KNOWN_SIGS
        invariant
            k <= KNOWN_SIGS,
            views(r@) == known_findings(name@, lower@, k as int),
        decreases KNOWN_SIGS - k,
    {
        let (sig, label) = known_sig_at(k);
        let sigv = chars_of(sig);
        assert(lower@.subrange(0, lower@.len() as int) == lower@);
        if contains_in(lower, 0, lower.len(), &sigv) {
            let mut title = String::new();
            push_str(&mut title, "known rootkit module: ");
            push_str(&mut title, label);
            push_str(&mut title, " (");
            push_str(&mut title, name);
            push_str(&mut title, ")");
            let f = Finding::new(
                "modules",
                "critical",
                title.as_str(),
                "module name matches a known LKM rootkit signature",
            ).ioc(crate::text::cat("module:", name).as_str()).ioc(
                crate::text::cat("rootkit:", label).as_str(),
            ).with_score(400);
            proof {
                assert(f@.iocs =~= seq!["module:"@ + name@, "rootkit:"@ + label@]);
                assert(f@ == known_finding(name@, known_sig(k as int).1));
                lemma_views_push(r@, f);
            }
            r.push(f);
        }
        k = k + 1;
    }
    r
}

/// What the name of a listed module gives, from its lowercased form
/// `lower` and from whether it matches `SUSPICIOUS_NAME` (`None` when the
/// expression could not be compiled): one critical finding per known
/// rootkit signature that `lower` contains, then a high one when it matched.
pub fn name_checks(m: &ModInfo, lower: &str, suspicious: Option<bool>) -> (r: Vec<Finding>)
    ensures
        views(r@) == known_findings(m.name@, lower@, KNOWN_SIGS as int) + finding_if(
            suspicious == Some(true),
            suspicious_finding(m@),
        ),
{
    let name = m.name.as_str();
    let lv = chars_of(lower);
    let mut r = known_findings_for(name, &lv);
    let ghost known = views(r@);
    if let Some(true) = suspicious {
        let mut detail = String::new();
        push_str(&mut detail, "addr=");
        push_str(&mut detail, m.addr.as_str());
        push_str(&mut detail, " size=");
        push_dec(&mut detail, m.size);
        let f = Finding::new(
            "modules",
            "high",
            crate::text::cat("suspicious module name: ", name).as_str(),
            detail.as_str(),
        ).ioc(crate::text::cat("module:", name).as_str()).with_score(200);
        proof {
            assert(f@.iocs =~= seq!["module:"@ + name@]);
            lemma_views_push(r@, f);
        }
        r.push(f);
    } else {
        assert(views(r@) =~= known + Seq::<FindingView>::empty());
    }
    r
}

fn name_findings_for(m: &ModInfo) -> (r: Vec<Finding>)
    ensures
        views(r@) == name_findings(m@),
{
    let lower = to_lowercase(m.name.as_str());
    let suspicious = regex_is_match(SUSPICIOUS_NAME, m.name.as_str());
    name_checks(m, lower.as_str(), suspicious)
}

/// Findings that the names of the listed modules give, module by module:
/// one critical finding per known rootkit signature that the lowercased
/// name contains, and a high one when the name matches `SUSPICIOUS_NAME`.
pub fn check_module_names(mods: &Vec<ModInfo>) -> (r: Vec<Finding>)
    ensures
        views(r@) == all_name_findings(mod_views(mods@), mods@.len() as int),
{
    let ghost ms = mod_views(mods@);
    let mut r: Vec<Finding> = Vec::new();
    let mut i: usize = 0;
    while i < mods.len()
        invariant
            i <= mods@.len(),
            ms == mod_views(mods@),
            views(r@) == all_name_findings(ms, i as int),
        decreases mods@.len() - i,
    {
        let more = name_findings_for(&mods[i]);
        assert(ms[i as int] == mods@[i as int]@);
        extend_findings(&mut r, more);
        i = i + 1;
    }
    r
}


// ---------------------------------------------------------------------------
// Symbols in /proc/kallsyms
// ---------------------------------------------------------------------------

/// Some whitespace-separated token of the line equals `t`.
pub open spec fn line_has_token(l: Seq<char>, t: Seq<char>) -> bool {
    exists|j: int| 0 <= j < tokens(l).len() && #[trigger] tokens(l)[j] == t
}

/// Some line of the symbol table has `sym` as one of its tokens.
pub open spec fn has_symbol(ks: Seq<char>, sym: Seq<char>) -> bool {
    exists|i: int| 0 <= i < lines(ks).len() && line_has_token(#[trigger] lines(ks)[i], sym)
}

fn line_has_token_in(v: &Vec<char>, lo: usize, hi: usize, t: &Vec<char>) -> (b: bool)
    requires
        lo <= hi <= v@.len(),
    ensures
        b == line_has_token(v@.subrange(lo as int, hi as int), t@),
{
    let toks = token_spans(v, lo, hi);
    let ghost tv = span_view(v@, toks@);
    let mut j: usize = 0;
    while j < toks.len()
        invariant
            spans_ok(v@, toks@),
            tv == span_view(v@, toks@),
            tv == tokens(v@.subrange(lo as int, hi as int)),
            j <= toks@.len(),
            forall|k: int| 0 <= k < j ==> #[trigger] tv[k] != t@,
        decreases toks@.len() - j,
    {
        let (a, b) = toks[j];
        if range_eq(v, a, b, t) {
            assert(tv[j as int] == t@);
            return true;
        }
        j = j + 1;
    }
    false
}

fn has_symbol_in(v: &Vec<char>, ls: &Vec<(usize, usize)>, sym: &Vec<char>) -> (b: bool)
    requires
        spans_ok(v@, ls@),
        span_view(v@, ls@) == lines(v@),
    ensures
        b == has_symbol(v@, sym@),
{
    let ghost lv = span_view(v@, ls@);
    let mut i: usize = 0;
    while i < ls.len()
        invariant
            spans_ok(v@, ls@),
            lv == span_view(v@, ls@),
            lv == lines(v@),
            i <= ls@.len(),
            forall|k: int| 0 <= k < i ==> !line_has_token(#[trigger] lv[k], sym@),
        decreases ls@.len() - i,
    {
        let (a, b) = ls[i];
        if line_has_token_in(v, a, b, sym) {
            assert(line_has_token(lv[i as int], sym@));
            return true;
        }
        i = i + 1;
    }
    false
}

/// Whether some line of the symbol table text has `sym` as a whole token.
pub fn kallsyms_has_symbol(kallsyms: &str, sym: &str) -> (b: bool)
    ensures
        b == has_symbol(kallsyms@, sym@),
{
    let v = chars_of(kallsyms);
    let ls = line_spans(&v);
    let s = chars_of(sym);
    has_symbol_in(&v, &ls, &s)
}

/// The finding for a rootkit symbol, with the given kind, title prefix and detail.
pub open spec fn symbol_finding(
    kind: Seq<char>,
    title: Seq<char>,
    detail: Seq<char>,
    sym: Seq<char>,
) -> FindingView {
    mk(kind, "critical"@, title + sym, detail, seq!["symbol:"@ + sym], Some(400))
}

/// Findings for the first `n` rootkit symbols present in the symbol table.
pub open spec fn symbol_findings_upto(
    kind: Seq<char>,
    title: Seq<char>,
    detail: Seq<char>,
    ks: Seq<char>,
    n: int,
) -> Seq<FindingView>
    decreases n,
{
    if n <= 0 {
        seq![]
    } else {
        symbol_findings_upto(kind, title, detail, ks, n - 1) + finding_if(
            has_symbol(ks, bad_sym(n - 1)),
            symbol_finding(kind, title, detail, bad_sym(n - 1)),
        )
    }
}

/// Findings for the rootkit symbols present in the symbol table, if it
/// could be read.
pub open spec fn symbol_findings(
    kind: Seq<char>,
    title: Seq<char>,
    detail: Seq<char>,
    ks: Option<Seq<char>>,
) -> Seq<FindingView> {
    match ks {
        Some(t) => symbol_findings_upto(kind, title, detail, t, BAD_SYMS as int),
        None => seq![],
    }
}

/// One critical finding, in the order of the list, for each known rootkit
/// symbol that the symbol table holds as a whole token.
pub fn check_symbols(kind: &str, title: &str, detail: &str, kallsyms: Option<&str>) -> (r: Vec<
    Finding,
>)
    ensures
        views(r@) == symbol_findings(kind@, title@, detail@, crate::text::opt_chars(kallsyms)),
{
    let mut r: Vec<Finding> = Vec::new();
    match kallsyms {
        None => {
            assert(views(r@) =~= Seq::<FindingView>::empty());
        },
        Some(ks) => {
            let v = chars_of(ks);
            let ls = line_spans(&v);
            let mut k: usize = 0;
            assert(views(r@) =~= Seq::<FindingView>::empty());
            while k < BAD_SYMS
                invariant
                    k <= BAD_SYMS,
                    v@ == ks@,
                    spans_ok(v@, ls@),
                    span_view(v@, ls@) == lines(v@),
                    views(r@) == symbol_findings_upto(kind@, title@, detail@, ks@, k as int),
                decreases BAD_SYMS - k,
            {
                let sym = bad_sym_at(k);
                let sv = chars_of(sym);
                if has_symbol_in(&v, &ls, &sv) {
                    let f = Finding::new(
                        kind,
                        "critical",
                        crate::text::cat(title, sym).as_str(),
                        detail,
                    ).ioc(crate::text::cat("symbol:", sym).as_str()).with_score(400);
                    proof {
                        assert(f@.iocs =~= seq!["symbol:"@ + sym@]);
                        lemma_views_push(r@, f);
                    }
                    r.push(f);
                }
                k = k + 1;
            }
        },
    }
    r
}

// ---------------------------------------------------------------------------
// Modules in /sys/module
// ---------------------------------------------------------------------------

/// A directory under `/sys/module`.
pub struct SysfsModule {
    pub name: String,
    /// `/sys/module/<name>/coresize` exists.
    pub has_coresize: bool,
    /// `/sys/module/<name>/sections` is a directory.
    pub has_sections: bool,
}

/// Name and the two marks of a loaded module of a `/sys/module` entry.
pub type SysView = (Seq<char>, bool, bool);

impl View for SysfsModule {
    type V = SysView;

    open spec fn view(&self) -> SysView {
        (self.name@, self.has_coresize, self.has_sections)
    }
}

/// The contents of a `/sys/module` listing.
pub open spec fn sys_views(v: Seq<SysfsModule>) -> Seq<SysView> {
    v.map_values(|m: SysfsModule| m@)
}

/// Some line of the symbol table contains `[name]`.
pub open spec fn mentions(ks: Seq<char>, name: Seq<char>) -> bool {
    exists|i: int| 0 <= i < lines(ks).len() && contains(#[trigger] lines(ks)[i], "["@ + name + "]"@)
}

/// The symbol table could be read and mentions the module.
pub open spec fn mentioned(ks: Option<Seq<char>>, name: Seq<char>) -> bool {
    match ks {
        Some(t) => mentions(t, name),
        None => false,
    }
}

/// Whether some line of the symbol table text contains `[name]`, the mark
/// of a symbol that belongs to that module.
pub fn kallsyms_mentions_module(kallsyms: &str, name: &str) -> (b: bool)
    ensures
        b == mentions(kallsyms@, name@),
{
    let mut needle = String::new();
    push_str(&mut needle, "[");
    push_str(&mut needle, name);
    push_str(&mut needle, "]");
    let nv = chars_of(needle.as_str());
    let v = chars_of(kallsyms);
    let ls = line_spans(&v);
    let ghost lv = span_view(v@, ls@);
    let mut i: usize = 0;
    while i < ls.len()
        invariant
            spans_ok(v@, ls@),
            lv == span_view(v@, ls@),
            lv == lines(kallsyms@),
            nv@ == "["@ + name@ + "]"@,
            i <= ls@.len(),
            forall|k: int| 0 <= k < i ==> !contains(#[trigger] lv[k], nv@),
        decreases ls@.len() - i,
    {
        let (a, b) = ls[i];
        if contains_in(&v, a, b, &nv) {
            assert(contains(lv[i as int], nv@));
            return true;
        }
        i = i + 1;
    }
    false
}

/// The finding for a module that `/sys/module` and the symbol table know
/// but `/proc/modules` does not list.
pub open spec fn hidden_finding(name: Seq<char>) -> FindingView {
    mk(
        "modules"@,
        "high"@,
        "possible hidden module: "@ + name,
        "in /sys/module + kallsyms but missing from /proc/modules"@,
        seq!["module:"@ + name],
        Some(250),
    )
}

/// Findings for the first `n` entries of `/sys/module`.
pub open spec fn hidden_findings(
    ms: Seq<ModView>,
    sys: Seq<SysView>,
    ks: Option<Seq<char>>,
    n: int,
) -> Seq<FindingView>
    decreases n,
{
    if n <= 0 {
        seq![]
    } else {
        let e = sys[n - 1];
        hidden_findings(ms, sys, ks, n - 1) + finding_if(
            !has_name(ms, e.0) && e.1 && e.2 && mentioned(ks, e.0),
            hidden_finding(e.0),
        )
    }
}

fn listed(mods: &Vec<ModInfo>, name: &String) -> (b: bool)
    ensures
        b == has_name(mod_views(mods@), name@),
{
    let p = position_of(mods, name);
    proof {
        let ms = mod_views(mods@);
        if let Some(j) = p {
            assert(ms[j as int].0 == name@);
        } else {
            assert forall|k: int| 0 <= k < ms.len() implies #[trigger] ms[k].0 != name@ by {
                assert(ms[k] == mods@[k]@);
            }
        }
    }
    p.is_some()
}

/// One high finding per `/sys/module` entry, in order, that `/proc/modules`
/// does not list, that has `coresize` and `sections`, and that the symbol
/// table (when it could be read) mentions as `[name]`.
pub fn check_hidden(mods: &Vec<ModInfo>, sysfs: &Vec<SysfsModule>, kallsyms: Option<&str>) -> (r:
    Vec<Finding>)
    ensures
        views(r@) == hidden_findings(
            mod_views(mods@),
            sys_views(sysfs@),
            crate::text::opt_chars(kallsyms),
            sysfs@.len() as int,
        ),
{
    let ghost ms = mod_views(mods@);
    let ghost sys = sys_views(sysfs@);
    let ghost ks = crate::text::opt_chars(kallsyms);
    let mut r: Vec<Finding> = Vec::new();
    let mut i: usize = 0;
    assert(views(r@) =~= Seq::<FindingView>::empty());
    while i < sysfs.len()
        invariant
            i <= sysfs@.len(),
            ms == mod_views(mods@),
            sys == sys_views(sysfs@),
            ks == crate::text::opt_chars(kallsyms),
            views(r@) == hidden_findings(ms, sys, ks, i as int),
        decreases sysfs@.len() - i,
    {
        let e = &sysfs[i];
        assert(sys[i as int] == e@);
        if !listed(mods, &e.name) && e.has_coresize && e.has_sections {
            let hit = match kallsyms {
                Some(ks) => kallsyms_mentions_module(ks, e.name.as_str()),
                None => false,
            };
            if hit {
                let f = Finding::new(
                    "modules",
                    "high",
                    crate::text::cat("possible hidden module: ", e.name.as_str()).as_str(),
                    "in /sys/module + kallsyms but missing from /proc/modules",
                ).ioc(crate::text::cat("module:", e.name.as_str()).as_str()).with_score(250);
                proof {
                    assert(f@.iocs =~= seq!["module:"@ + e.name@]);
                    lemma_views_push(r@, f);
                }
                r.push(f);
            }
        }
        i = i + 1;
    }
    r
}

/// Some entry of `/sys/module` has this name.
pub open spec fn in_sysfs(sys: Seq<SysView>, name: Seq<char>) -> bool {
    exists|k: int| 0 <= k < sys.len() && #[trigger] sys[k].0 == name
}

/// The finding for a listed module that `/sys/module` lacks.
pub open spec fn unlisted_finding(name: Seq<char>) -> FindingView {
    mk(
        "modules"@,
        "medium"@,
        "in /proc/modules but not sysfs: "@ + name,
        "module list views disagree"@,
        seq!["module:"@ + name],
        Some(100),
    )
}

/// Findings for the first `n` listed modules.
pub open spec fn unlisted_findings(ms: Seq<ModView>, sys: Seq<SysView>, n: int) -> Seq<FindingView>
    decreases n,
{
    if n <= 0 {
        seq![]
    } else {
        unlisted_findings(ms, sys, n - 1) + finding_if(
            !in_sysfs(sys, ms[n - 1].0),
            unlisted_finding(ms[n - 1].0),
        )
    }
}

fn in_sysfs_exec(sysfs: &Vec<SysfsModule>, name: &String) -> (b: bool)
    ensures
        b == in_sysfs(sys_views(sysfs@), name@),
{
    let ghost sys = sys_views(sysfs@);
    let mut k: usize = 0;
    while k < sysfs.len()
        invariant
            k <= sysfs@.len(),
            sys == sys_views(sysfs@),
            forall|j: int| 0 <= j < k ==> #[trigger] sys[j].0 != name@,
        decreases sysfs@.len() - k,
    {
        if sysfs[k].name == *name {
            assert(sys[k as int].0 == name@);
            return true;
        }
        k = k + 1;
    }
    false
}

/// One medium finding per listed module, in order, that `/sys/module` lacks.
pub fn check_unlisted(mods: &Vec<ModInfo>, sysfs: &Vec<SysfsModule>) -> (r: Vec<Finding>)
    ensures
        views(r@) == unlisted_findings(
            mod_views(mods@),
            sys_views(sysfs@),
            mods@.len() as int,
        ),
{
    let ghost ms = mod_views(mods@);
    let ghost sys = sys_views(sysfs@);
    let mut r: Vec<Finding> = Vec::new();
    let mut i: usize = 0;
    assert(views(r@) =~= Seq::<FindingView>::empty());
    while i < mods.len()
        invariant
            i <= mods@.len(),
            ms == mod_views(mods@),
            sys == sys_views(sysfs@),
            views(r@) == unlisted_findings(ms, sys, i as int),
        decreases mods@.len() - i,
    {
        let m = &mods[i];
        assert(ms[i as int] == m@);
        if !in_sysfs_exec(sysfs, &m.name) {
            let f = Finding::new(
                "modules",
                "medium",
                crate::text::cat("in /proc/modules but not sysfs: ", m.name.as_str()).as_str(),
                "module list views disagree",
            ).ioc(crate::text::cat("module:", m.name.as_str()).as_str()).with_score(100);
            proof {
                assert(f@.iocs =~= seq!["module:"@ + m.name@]);
                lemma_views_push(r@, f);
            }
            r.push(f);
        }
        i = i + 1;
    }
    r
}


// ---------------------------------------------------------------------------
// Taint
// ---------------------------------------------------------------------------

/// The finding for a tainted kernel.
pub open spec fn tainted_finding(t: Seq<char>) -> FindingView {
    mk(
        "modules"@,
        "info"@,
        "kernel tainted ("@ + t + ")"@,
        "often proprietary/out-of-tree modules; also set by some rootkits"@,
        seq![],
        Some(10),
    )
}

/// What `/proc/sys/kernel/tainted` gives, if it could be read: a finding
/// when its trimmed value is neither empty nor `0`.
pub open spec fn tainted_findings(raw: Option<Seq<char>>) -> Seq<FindingView> {
    match raw {
        Some(x) => finding_if(trim(x) != "0"@ && trim(x).len() > 0, tainted_finding(trim(x))),
        None => seq![],
    }
}

/// An info finding when the taint value, trimmed, is neither empty nor `0`.
pub fn check_tainted(tainted: Option<&str>) -> (r: Vec<Finding>)
    ensures
        views(r@) == tainted_findings(crate::text::opt_chars(tainted)),
{
    let mut r: Vec<Finding> = Vec::new();
    assert(views(r@) =~= Seq::<FindingView>::empty());
    if let Some(raw) = tainted {
        let t = crate::text::trimmed(raw);
        if !str_eq(t.as_str(), "0") && !t.as_str().is_empty() {
            let mut title = String::new();
            push_str(&mut title, "kernel tainted (");
            push_str(&mut title, t.as_str());
            push_str(&mut title, ")");
            let f = Finding::new(
                "modules",
                "info",
                title.as_str(),
                "often proprietary/out-of-tree modules; also set by some rootkits",
            ).with_score(10);
            proof {
                lemma_views_push(r@, f);
            }
            r.push(f);
        }
    }
    r
}

// ---------------------------------------------------------------------------
// Module files on disk
// ---------------------------------------------------------------------------

/// A file name of a kernel module: `.ko`, `.ko.zst` or `.ko.xz`.
pub open spec fn has_ko_suffix(f: Seq<char>) -> bool {
    ends_with(f, ".ko"@) || ends_with(f, ".ko.zst"@) || ends_with(f, ".ko.xz"@)
}

/// A file name up to its first `.`.
pub open spec fn stem(f: Seq<char>) -> Seq<char> {
    match find(f, "."@) {
        Some(i) => f.take(i),
        None => f,
    }
}

/// `s` with every `-` written as `_` (module names treat them alike).
pub open spec fn underscored(s: Seq<char>) -> Seq<char> {
    s.map_values(|c: char| if c == '-' { '_' } else { c })
}

/// Some module file's stem names the module, with `-` and `_` taken alike.
pub open spec fn on_disk(name: Seq<char>, files: Seq<Seq<char>>) -> bool {
    exists|i: int|
        0 <= i < files.len() && has_ko_suffix(#[trigger] files[i]) && underscored(stem(files[i]))
            == underscored(name)
}

fn underscored_vec(v: &Vec<char>, lo: usize, hi: usize) -> (r: Vec<char>)
    requires
        lo <= hi <= v@.len(),
    ensures
        r@ == underscored(v@.subrange(lo as int, hi as int)),
{
    let mut r: Vec<char> = Vec::new();
    let mut i = lo;
    while i < hi
        invariant
            lo <= i <= hi <= v@.len(),
            r@ == underscored(v@.subrange(lo as int, i as int)),
        decreases hi - i,
    {
        let c = v[i];
        r.push(if c == '-' { '_' } else { c });
        assert(underscored(v@.subrange(lo as int, i + 1)) =~= underscored(
            v@.subrange(lo as int, i as int),
        ).push(if c == '-' { '_' } else { c }));
        i = i + 1;
    }
    r
}

fn ko_suffix(f: &Vec<char>) -> (b: bool)
    ensures
        b == has_ko_suffix(f@),
{
    let n = f.len();
    assert(f@.subrange(0, n as int) == f@);
    let a = ends_with_in(f, 0, n, &chars_of(".ko"));
    let b = ends_with_in(f, 0, n, &chars_of(".ko.zst"));
    let c = ends_with_in(f, 0, n, &chars_of(".ko.xz"));
    a || b || c
}

fn stem_end(f: &Vec<char>) -> (e: usize)
    ensures
        e <= f@.len(),
        f@.subrange(0, e as int) == stem(f@),
{
    let n = f.len();
    assert(f@.subrange(0, n as int) == f@);
    let dot = chars_of(".");
    match find_in(f, 0, n, &dot) {
        Some(i) => {
            assert(find(f@, "."@) == Some(i as int));
            i
        },
        None => {
            assert(find(f@, "."@) is None);
            n
        },
    }
}

/// `underscored(stem(f))` when `f` names a module file.
fn disk_key(f: &Vec<char>) -> (r: Option<Vec<char>>)
    ensures
        match r {
            Some(k) => has_ko_suffix(f@) && k@ == underscored(stem(f@)),
            None => !has_ko_suffix(f@),
        },
{
    if !ko_suffix(f) {
        return None;
    }
    let end = stem_end(f);
    Some(underscored_vec(f, 0, end))
}

fn on_disk_in(key: &Vec<char>, files: &Vec<Vec<char>>) -> (b: bool)
    requires
        key@ == underscored(key@),
    ensures
        b == exists|i: int|
            0 <= i < files@.len() && has_ko_suffix(#[trigger] files@[i]@) && underscored(
                stem(files@[i]@),
            ) == key@,
{
    let mut i: usize = 0;
    while i < files.len()
        invariant
            i <= files@.len(),
            forall|j: int|
                0 <= j < i ==> !(has_ko_suffix(#[trigger] files@[j]@) && underscored(
                    stem(files@[j]@),
                ) == key@),
        decreases files@.len() - i,
    {
        if let Some(k) = disk_key(&files[i]) {
            if range_eq(&k, 0, k.len(), key) {
                assert(k@.subrange(0, k@.len() as int) == k@);
                return true;
            }
            assert(k@.subrange(0, k@.len() as int) == k@);
        }
        i = i + 1;
    }
    false
}

proof fn lemma_underscored_idempotent(s: Seq<char>)
    ensures
        underscored(underscored(s)) == underscored(s),
{
    assert(underscored(underscored(s)) =~= underscored(s));
}

fn files_chars(files: &Vec<String>) -> (fs: Vec<Vec<char>>)
    ensures
        crate::text::chars_views(fs@) == crate::text::string_views(files@),
{
    let mut fs: Vec<Vec<char>> = Vec::new();
    let mut i: usize = 0;
    while i < files.len()
        invariant
            i <= files@.len(),
            fs@.len() == i,
            forall|j: int| 0 <= j < i ==> #[trigger] fs@[j]@ == files@[j]@,
        decreases files@.len() - i,
    {
        fs.push(chars_of(files[i].as_str()));
        i = i + 1;
    }
    assert(crate::text::chars_views(fs@) =~= crate::text::string_views(files@));
    fs
}

fn on_disk_fs(name: &str, fs: &Vec<Vec<char>>) -> (b: bool)
    ensures
        b == on_disk(name@, crate::text::chars_views(fs@)),
{
    let nv = chars_of(name);
    let key = underscored_vec(&nv, 0, nv.len());
    assert(nv@.subrange(0, nv@.len() as int) == nv@);
    proof {
        lemma_underscored_idempotent(nv@);
    }
    let b = on_disk_in(&key, fs);
    proof {
        let sv = crate::text::chars_views(fs@);
        if b {
            let i = choose|i: int|
                0 <= i < fs@.len() && has_ko_suffix(#[trigger] fs@[i]@) && underscored(
                    stem(fs@[i]@),
                ) == key@;
            assert(sv[i] == fs@[i]@);
        } else {
            assert forall|i: int| 0 <= i < sv.len() implies !(has_ko_suffix(#[trigger] sv[i])
                && underscored(stem(sv[i])) == underscored(name@)) by {
                assert(sv[i] == fs@[i]@);
            }
        }
    }
    b
}

/// Whether a module file for `name` is among the file names: a name ending
/// in `.ko`, `.ko.zst` or `.ko.xz` whose part before the first `.` is the
/// module name, `-` and `_` taken alike.
pub fn module_on_disk(name: &str, files: &Vec<String>) -> (b: bool)
    ensures
        b == on_disk(name@, crate::text::string_views(files@)),
{
    let fs = files_chars(files);
    on_disk_fs(name, &fs)
}

/// The names of the first `n` listed modules that have no module file.
pub open spec fn missing_names(ms: Seq<ModView>, files: Seq<Seq<char>>, n: int) -> Seq<Seq<char>>
    decreases n,
{
    if n <= 0 {
        seq![]
    } else {
        missing_names(ms, files, n - 1) + if on_disk(ms[n - 1].0, files) {
            seq![]
        } else {
            seq![ms[n - 1].0]
        }
    }
}

/// At most 15 of the missing names.
pub open spec fn sample_of(miss: Seq<Seq<char>>) -> Seq<Seq<char>> {
    if miss.len() < 15 {
        miss
    } else {
        miss.take(15)
    }
}

/// The finding for listed modules without a module file.
pub open spec fn missing_finding(miss: Seq<Seq<char>>) -> FindingView {
    mk(
        "modules"@,
        if miss.len() >= 30 {
            "medium"@
        } else {
            "low"@
        },
        dec(miss.len()) + " modules have no matching .ko under /lib/modules"@,
        "sample: "@ + join(sample_of(miss), ", "@),
        seq![],
        Some(
            if 20 + 2 * miss.len() < 150 {
                (20 + 2 * miss.len()) as u64
            } else {
                150
            },
        ),
    )
}

/// What the module files give: one finding when some listed module has none.
pub open spec fn missing_findings(ms: Seq<ModView>, files: Seq<Seq<char>>) -> Seq<FindingView> {
    let miss = missing_names(ms, files, ms.len() as int);
    finding_if(miss.len() > 0, missing_finding(miss))
}

/// One finding when some listed modules have no module file among `files`:
/// `medium` from 30 such modules on, `low` below, naming the first 15; it
/// scores 2 points plus 0.2 per module, at most 15.
pub fn check_on_disk(mods: &Vec<ModInfo>, files: &Vec<String>) -> (r: Vec<Finding>)
    ensures
        views(r@) == missing_findings(mod_views(mods@), crate::text::string_views(files@)),
{
    let ghost ms = mod_views(mods@);
    let ghost fv = crate::text::string_views(files@);
    let fs = files_chars(files);
    let mut miss: Vec<String> = Vec::new();
    let mut i: usize = 0;
    while i < mods.len()
        invariant
            i <= mods@.len(),
            ms == mod_views(mods@),
            fv == crate::text::chars_views(fs@),
            crate::text::string_views(miss@) == missing_names(ms, fv, i as int),
            miss@.len() <= i,
        decreases mods@.len() - i,
    {
        let m = &mods[i];
        assert(ms[i as int] == m@);
        if !on_disk_fs(m.name.as_str(), &fs) {
            let ghost before = miss@;
            miss.push(owned(m.name.as_str()));
            assert(crate::text::string_views(miss@) =~= crate::text::string_views(before).push(
                m.name@,
            ));
        } else {
            assert(missing_names(ms, fv, i + 1) =~= missing_names(ms, fv, i as int));
        }
        i = i + 1;
    }
    let mut r: Vec<Finding> = Vec::new();
    assert(views(r@) =~= Seq::<FindingView>::empty());
    let count = miss.len();
    if count > 0 {
        let sev = if count >= 30 {
            "medium"
        } else {
            "low"
        };
        let mut title = String::new();
        push_dec(&mut title, count as u64);
        push_str(&mut title, " modules have no matching .ko under /lib/modules");
        let shown = if count < 15 {
            count
        } else {
            15
        };
        let sample = join_strings(&miss, shown, ", ");
        let detail = crate::text::cat("sample: ", sample.as_str());
        let score: u64 = if count < 65 {
            20 + 2 * (count as u64)
        } else {
            150
        };
        let f = Finding::new("modules", sev, title.as_str(), detail.as_str()).with_score(score);
        proof {
            let sv = crate::text::string_views(miss@);
            if count < 15 {
                assert(miss@.take(shown as int) == miss@);
            }
            assert(miss@.take(shown as int).map_values(|s: String| s@) =~= sample_of(sv));
            lemma_views_push(r@, f);
        }
        r.push(f);
    }
    r
}

/// Everything the module checks read.
pub struct ModuleInputs {
    /// The text of `/proc/modules` (empty when it could not be read).
    pub proc_modules: String,
    /// The directories under `/sys/module`.
    pub sysfs: Vec<SysfsModule>,
    /// The text of `/proc/kallsyms`, if it could be read.
    pub kallsyms: Option<String>,
    /// The readable lines of `/proc/kallsyms` joined with `\n`, if it could
    /// be opened.
    pub kallsyms_lines: Option<String>,
    /// The text of `/proc/sys/kernel/tainted`, if it could be read.
    pub tainted: Option<String>,
    /// The names of all entries under `/lib/modules/<release>`.
    pub module_files: Vec<String>,
}

/// The characters of an optional owned string.
pub open spec fn opt_string(o: Option<String>) -> Option<Seq<char>> {
    match o {
        Some(t) => Some(t@),
        None => None,
    }
}

fn as_opt_str(o: &Option<String>) -> (r: Option<&str>)
    ensures
        crate::text::opt_chars(r) == opt_string(*o),
{
    match o {
        Some(t) => Some(t.as_str()),
        None => None,
    }
}

/// All module findings, in the order of the checks: names, hidden
/// modules, modules missing from `/sys/module`, rootkit symbols, taint,
/// module files.
pub open spec fn module_findings(inp: ModuleInputs) -> Seq<FindingView> {
    let ms = proc_modules(inp.proc_modules@);
    let sys = sys_views(inp.sysfs@);
    all_name_findings(ms, ms.len() as int) + hidden_findings(
        ms,
        sys,
        opt_string(inp.kallsyms_lines),
        sys.len() as int,
    ) + unlisted_findings(ms, sys, ms.len() as int) + symbol_findings(
        "modules"@,
        "rootkit symbol in kallsyms: "@,
        "symbol commonly left by public teaching rootkits"@,
        opt_string(inp.kallsyms),
    ) + tainted_findings(opt_string(inp.tainted)) + missing_findings(
        ms,
        crate::text::string_views(inp.module_files@),
    )
}

/// The module checks on what was read.
pub fn run(inp: &ModuleInputs) -> (r: Vec<Finding>)
    ensures
        views(r@) == module_findings(*inp),
{
    let mods = parse_proc_modules(inp.proc_modules.as_str());
    let mut r = check_module_names(&mods);
    extend_findings(&mut r, check_hidden(&mods, &inp.sysfs, as_opt_str(&inp.kallsyms_lines)));
    extend_findings(&mut r, check_unlisted(&mods, &inp.sysfs));
    extend_findings(
        &mut r,
        check_symbols(
            "modules",
            "rootkit symbol in kallsyms: ",
            "symbol commonly left by public teaching rootkits",
            as_opt_str(&inp.kallsyms),
        ),
    );
    extend_findings(&mut r, check_tainted(as_opt_str(&inp.tainted)));
    extend_findings(&mut r, check_on_disk(&mods, &inp.module_files));
    r
}


// ---------------------------------------------------------------------------
// Laws of the module checks
// ---------------------------------------------------------------------------

/// When `/proc/modules` and `/sys/module` name the same modules, the two
/// views raise no disagreement: no hidden module, no module missing from
/// `/sys/module`.
pub proof fn law_agreeing_module_views_are_quiet(
    ms: Seq<ModView>,
    sys: Seq<SysView>,
    ks: Option<Seq<char>>,
)
    requires
        forall|i: int| 0 <= i < ms.len() ==> in_sysfs(sys, #[trigger] ms[i].0),
        forall|i: int| 0 <= i < sys.len() ==> has_name(ms, #[trigger] sys[i].0),
    ensures
        hidden_findings(ms, sys, ks, sys.len() as int) == Seq::<FindingView>::empty(),
        unlisted_findings(ms, sys, ms.len() as int) == Seq::<FindingView>::empty(),
{
    lemma_no_hidden(ms, sys, ks, sys.len() as int);
    lemma_no_unlisted(ms, sys, ms.len() as int);
}

proof fn lemma_no_hidden(ms: Seq<ModView>, sys: Seq<SysView>, ks: Option<Seq<char>>, n: int)
    requires
        0 <= n <= sys.len(),
        forall|i: int| 0 <= i < sys.len() ==> has_name(ms, #[trigger] sys[i].0),
    ensures
        hidden_findings(ms, sys, ks, n) == Seq::<FindingView>::empty(),
    decreases n,
{
    if n > 0 {
        lemma_no_hidden(ms, sys, ks, n - 1);
        assert(has_name(ms, sys[n - 1].0));
        assert(hidden_findings(ms, sys, ks, n) =~= Seq::<FindingView>::empty());
    }
}

proof fn lemma_no_unlisted(ms: Seq<ModView>, sys: Seq<SysView>, n: int)
    requires
        0 <= n <= ms.len(),
        forall|i: int| 0 <= i < ms.len() ==> in_sysfs(sys, #[trigger] ms[i].0),
    ensures
        unlisted_findings(ms, sys, n) == Seq::<FindingView>::empty(),
    decreases n,
{
    if n > 0 {
        lemma_no_unlisted(ms, sys, n - 1);
        assert(in_sysfs(sys, ms[n - 1].0));
        assert(unlisted_findings(ms, sys, n) =~= Seq::<FindingView>::empty());
    }
}

/// Module files are matched with `-` and `_` taken alike: a name and its
/// underscored form have a file on disk alike.
pub proof fn law_on_disk_dash_underscore(name: Seq<char>, files: Seq<Seq<char>>)
    ensures
        on_disk(name, files) == on_disk(underscored(name), files),
{
    lemma_underscored_idempotent(name);
}

} // verus!
