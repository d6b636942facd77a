//! Process checks: the process lists that `/proc` readdir, direct
//! `/proc/<pid>/stat` probes and `ps` give, compared; and what each
//! process's executable and environment reveal.
use vstd::prelude::*;
use std::collections::HashSet;
use crate::findings::{Finding, FindingView, mk, views, finding_if, lemma_views_push, extend_findings};
use crate::text::{
    chars_of, line_spans, lines, span_view, spans_ok, starts_with, starts_with_in, string_of,
    push_str, push_dec_i32, dec_int, contains, contains_in, trim, trim_bounds, parse_i32,
    parse_i32_in, owned, trimmed, push_char,
};

verus! {

// ---------------------------------------------------------------------------
// Reading per-process files
// ---------------------------------------------------------------------------

/// The process name from the text of `/proc/<pid>/comm`: the text trimmed.
pub fn read_comm(raw: &str) -> (r: String)
    ensures
        r@ == trim(raw@),
{
    trimmed(raw)
}

/// `s` with every NUL written as a space.
pub open spec fn nul_to_space(s: Seq<char>) -> Seq<char> {
    s.map_values(|c: char| if c == '\0' { ' ' } else { c })
}

/// The command line from the text of `/proc/<pid>/cmdline`: NULs become
/// spaces, then the text is trimmed.
pub fn read_cmdline(raw: &str) -> (r: String)
    ensures
        r@ == trim(nul_to_space(raw@)),
{
    let v = chars_of(raw);
    let mut w: Vec<char> = Vec::new();
    let mut i: usize = 0;
    while i < v.len()
        invariant
            i <= v@.len(),
            v@ == raw@,
            w@ == nul_to_space(v@.take(i as int)),
        decreases v@.len() - i,
    {
        let c = v[i];
        w.push(if c == '\0' { ' ' } else { c });
        assert(nul_to_space(v@.take(i + 1)) =~= nul_to_space(v@.take(i as int)).push(
            if c == '\0' { ' ' } else { c },
        ));
        i = i + 1;
    }
    assert(v@.take(v@.len() as int) == v@);
    let (a, b) = trim_bounds(&w, 0, w.len());
    assert(w@.subrange(0, w@.len() as int) == w@);
    string_of(&w, a, b)
}

/// The value of the first line of `ls` that starts with `field:`, trimmed;
/// empty when there is none.
pub open spec fn field_in_lines(ls: Seq<Seq<char>>, field: Seq<char>) -> Seq<char>
    decreases ls.len(),
{
    if ls.len() == 0 {
        seq![]
    } else if starts_with(ls[0], field + ":"@) {
        trim(ls[0].skip(field.len() + 1int))
    } else {
        field_in_lines(ls.drop_first(), field)
    }
}

/// The value of `field` in the text of `/proc/<pid>/status`: what follows
/// `field:` on the first line that starts so, trimmed; empty when no line
/// does.
pub fn status_field(data: &str, field: &str) -> (r: String)
    ensures
        r@ == field_in_lines(lines(data@), field@),
{
    let v = chars_of(data);
    let ls = line_spans(&v);
    let ghost lv = span_view(v@, ls@);
    let mut key = owned(field);
    push_char(&mut key, ':');
    let kv = chars_of(key.as_str());
    assert(kv@ == field@ + ":"@) by {
        reveal_strlit(":");
        assert(field@.push(':') =~= field@ + ":"@);
    }
    assert(kv@.len() == field@.len() + 1) by {
        reveal_strlit(":");
    }
    let mut i: usize = 0;
    assert(lv.skip(0) == lv);
    while i < ls.len()
        invariant
            spans_ok(v@, ls@),
            lv == span_view(v@, ls@),
            lv == lines(data@),
            kv@ == field@ + ":"@,
            kv@.len() == field@.len() + 1,
            i <= ls@.len(),
            field_in_lines(lv, field@) == field_in_lines(lv.skip(i as int), field@),
        decreases ls@.len() - i,
    {
        let (a, b) = ls[i];
        assert(lv.skip(i as int)[0] == v@.subrange(a as int, b as int));
        if starts_with_in(&v, a, b, &kv) {
            let (x, y) = trim_bounds(&v, a + kv.len(), b);
            assert(v@.subrange(a as int, b as int).skip(field@.len() + 1int) =~= v@.subrange(
                a + kv@.len(),
                b as int,
            ));
            return string_of(&v, x, y);
        }
        assert(lv.skip(i as int).drop_first() == lv.skip(i + 1));
        i = i + 1;
    }
    String::new()
}


// ---------------------------------------------------------------------------
// Process id lists
// ---------------------------------------------------------------------------

/// A list of ids without repeats, with `seen` holding the same ids.
pub open spec fn pid_list_ok(r: Seq<i32>, seen: Set<i32>) -> bool {
    &&& r.no_duplicates()
    &&& forall|x: i32| #[trigger] seen.contains(x) <==> r.contains(x)
}

/// Adds `p` to the list unless it is already there.
fn add_pid(r: &mut Vec<i32>, seen: &mut HashSet<i32>, p: i32)
    requires
        pid_list_ok(old(r)@, old(seen)@),
    ensures
        pid_list_ok(final(r)@, final(seen)@),
        forall|x: i32| #[trigger] final(r)@.contains(x) <==> old(r)@.contains(x) || x == p,
{
    broadcast use vstd::std_specs::hash::group_hash_axioms;

    if !seen.contains(&p) {
        let ghost before = r@;
        seen.insert(p);
        r.push(p);
        proof {
            assert forall|x: i32| #[trigger] r@.contains(x) <==> before.contains(x) || x == p by {
                if r@.contains(x) {
                    let k = choose|k: int| 0 <= k < r@.len() && r@[k] == x;
                    if k < before.len() {
                        assert(before[k] == x);
                    }
                }
                if before.contains(x) {
                    let k = choose|k: int| 0 <= k < before.len() && before[k] == x;
                    assert(r@[k] == x);
                }
                if x == p {
                    assert(r@[before.len() as int] == p);
                }
            }
            assert(r@.no_duplicates()) by {
                assert forall|i: int, j: int| 0 <= i < r@.len() && 0 <= j < r@.len() && i != j implies r@[i] != r@[j] by {
                    if i == before.len() {
                        assert(before[j] == r@[j]);
                        assert(before.contains(r@[j]));
                    } else if j == before.len() {
                        assert(before[i] == r@[i]);
                        assert(before.contains(r@[i]));
                    }
                }
            }
        }
    }
}

/// The ids that some of the names give when read as `i32`.
pub open spec fn parsed_pid(names: Seq<Seq<char>>, p: i32) -> bool {
    exists|i: int| 0 <= i < names.len() && parse_i32(#[trigger] names[i]) == Some(p)
}

/// The process ids that directory entry names give (as
/// `name.parse::<i32>()`), each once, in the order of the names.
pub fn pids_from_names(names: &Vec<String>) -> (r: Vec<i32>)
    ensures
        r@.no_duplicates(),
        forall|p: i32| #[trigger] r@.contains(p) <==> parsed_pid(crate::text::string_views(names@), p),
{
    let ghost nv = crate::text::string_views(names@);
    let mut r: Vec<i32> = Vec::new();
    let mut seen: HashSet<i32> = HashSet::new();
    let mut i: usize = 0;
    while i < names.len()
        invariant
            i <= names@.len(),
            nv == crate::text::string_views(names@),
            pid_list_ok(r@, seen@),
            forall|p: i32| #[trigger] r@.contains(p) <==> parsed_pid(nv.take(i as int), p),
        decreases names@.len() - i,
    {
        let v = chars_of(names[i].as_str());
        assert(v@.subrange(0, v@.len() as int) == v@);
        let parsed = parse_i32_in(&v, 0, v.len());
        let ghost before = r@;
        if let Some(p) = parsed {
            add_pid(&mut r, &mut seen, p);
        }
        proof {
            assert forall|x: i32| #[trigger] r@.contains(x) <==> parsed_pid(nv.take(i + 1), x) by {
                if parsed_pid(nv.take(i + 1), x) {
                    let k = choose|k: int| 0 <= k < nv.take(i + 1).len() && parse_i32(
                        #[trigger] nv.take(i + 1)[k],
                    ) == Some(x);
                    if k < i {
                        assert(nv.take(i as int)[k] == nv.take(i + 1)[k]);
                    } else {
                        assert(nv.take(i + 1)[k] == v@);
                    }
                }
                if before.contains(x) {
                    let k = choose|k: int| 0 <= k < nv.take(i as int).len() && parse_i32(
                        #[trigger] nv.take(i as int)[k],
                    ) == Some(x);
                    assert(nv.take(i as int)[k] == nv.take(i + 1)[k]);
                }
                if parsed == Some(x) {
                    assert(nv.take(i + 1)[i as int] == v@);
                }
            }
        }
        i = i + 1;
    }
    assert(nv.take(names@.len() as int) == nv);
    r
}

/// The process ids in the output of `ps -e -o pid=`: each line, trimmed,
/// read as `i32`; each id once, in order.
pub fn parse_ps_pids(out: &str) -> (r: Vec<i32>)
    ensures
        r@.no_duplicates(),
        forall|p: i32| #[trigger] r@.contains(p) <==> parsed_pid(lines(out@).map_values(|l: Seq<char>| trim(l)), p),
{
    let v = chars_of(out);
    let ls = line_spans(&v);
    let ghost nv = lines(out@).map_values(|l: Seq<char>| trim(l));
    let mut r: Vec<i32> = Vec::new();
    let mut seen: HashSet<i32> = HashSet::new();
    let mut i: usize = 0;
    while i < ls.len()
        invariant
            i <= ls@.len(),
            spans_ok(v@, ls@),
            span_view(v@, ls@) == lines(out@),
            nv == lines(out@).map_values(|l: Seq<char>| trim(l)),
            pid_list_ok(r@, seen@),
            forall|p: i32| #[trigger] r@.contains(p) <==> parsed_pid(nv.take(i as int), p),
        decreases ls@.len() - i,
    {
        let (lo, hi) = ls[i];
        let (a, b) = trim_bounds(&v, lo, hi);
        let parsed = parse_i32_in(&v, a, b);
        let ghost cur = v@.subrange(a as int, b as int);
        assert(nv[i as int] == cur);
        let ghost before = r@;
        if let Some(p) = parsed {
            add_pid(&mut r, &mut seen, p);
        }
        proof {
            assert forall|x: i32| #[trigger] r@.contains(x) <==> parsed_pid(nv.take(i + 1), x) by {
                if parsed_pid(nv.take(i + 1), x) {
                    let k = choose|k: int| 0 <= k < nv.take(i + 1).len() && parse_i32(
                        #[trigger] nv.take(i + 1)[k],
                    ) == Some(x);
                    if k < i {
                        assert(nv.take(i as int)[k] == nv.take(i + 1)[k]);
                    } else {
                        assert(nv.take(i + 1)[k] == cur);
                    }
                }
                if before.contains(x) {
                    let k = choose|k: int| 0 <= k < nv.take(i as int).len() && parse_i32(
                        #[trigger] nv.take(i as int)[k],
                    ) == Some(x);
                    assert(nv.take(i as int)[k] == nv.take(i + 1)[k]);
                }
                if parsed == Some(x) {
                    assert(nv.take(i + 1)[i as int] == cur);
                }
            }
        }
        i = i + 1;
    }
    assert(nv.take(ls@.len() as int) == nv);
    r
}

/// The highest process id, from the text of `/proc/sys/kernel/pid_max`:
/// the trimmed text read as `i32`, or 32768 when it cannot be read.
pub open spec fn pid_max_of(raw: Option<Seq<char>>) -> i32 {
    match raw {
        Some(t) => match parse_i32(trim(t)) {
            Some(n) => n,
            None => 32768,
        },
        None => 32768,
    }
}

/// The highest process id, from the text of `/proc/sys/kernel/pid_max`.
pub fn parse_pid_max(raw: Option<&str>) -> (n: i32)
    ensures
        n == pid_max_of(crate::text::opt_chars(raw)),
{
    match raw {
        Some(t) => {
            let v = chars_of(t);
            assert(v@.subrange(0, v@.len() as int) == v@);
            let (a, b) = trim_bounds(&v, 0, v.len());
            match parse_i32_in(&v, a, b) {
                Some(n) => n,
                None => 32768,
            }
        },
        None => 32768,
    }
}

/// The ids worth probing with `/proc/<pid>/stat`: each known id and its
/// neighbours from two below to three above, the known threads, and
/// 1 up to (not including) the smaller of 512 and `pid_max`; only ids in
/// `1..=pid_max`.
pub open spec fn is_candidate(known: Seq<i32>, threads: Seq<i32>, pid_max: i32, p: int) -> bool {
    &&& 0 < p <= pid_max
    &&& {
        ||| exists|i: int| 0 <= i < known.len() && -2 <= p - #[trigger] known[i] <= 3
        ||| exists|i: int| 0 <= i < threads.len() && p == #[trigger] threads[i]
        ||| 1 <= p < 512 && p < pid_max
    }
}

/// The ids worth probing with `/proc/<pid>/stat`, each once.
pub fn stat_probe_candidates(known: &Vec<i32>, threads: &Vec<i32>, pid_max: i32) -> (r: Vec<i32>)
    ensures
        r@.no_duplicates(),
        forall|p: i32| #[trigger] r@.contains(p) <==> is_candidate(known@, threads@, pid_max, p as int),
{
    let mut r: Vec<i32> = Vec::new();
    let mut seen: HashSet<i32> = HashSet::new();
    let mut i: usize = 0;
    while i < known.len()
        invariant
            i <= known@.len(),
            pid_list_ok(r@, seen@),
            forall|p: i32| #[trigger] r@.contains(p) <==> (0 < p <= pid_max && exists|k: int|
                0 <= k < i && -2 <= p - #[trigger] known@[k] <= 3),
        decreases known@.len() - i,
    {
        let q = known[i] as i64;
        let mut d: i64 = -2;
        while d <= 3
            invariant
                -2 <= d <= 4,
                i < known@.len(),
                q == known@[i as int],
                pid_list_ok(r@, seen@),
                forall|p: i32| #[trigger] r@.contains(p) <==> (0 < p <= pid_max && ((exists|k: int|
                    0 <= k < i && -2 <= p - #[trigger] known@[k] <= 3) || (-2 <= p - q < d))),
            decreases 4 - d,
        {
            let p = q + d;
            if 0 < p && p <= pid_max as i64 {
                add_pid(&mut r, &mut seen, p as i32);
            }
            d = d + 1;
        }
        proof {
            assert forall|p: i32| #[trigger] r@.contains(p) <==> (0 < p <= pid_max && exists|k: int|
                0 <= k < i + 1 && -2 <= p - #[trigger] known@[k] <= 3) by {
                if 0 < p <= pid_max && -2 <= p - q <= 3 {
                    assert(-2 <= p - known@[i as int] <= 3);
                }
            }
        }
        i = i + 1;
    }
    let mut j: usize = 0;
    while j < threads.len()
        invariant
            j <= threads@.len(),
            pid_list_ok(r@, seen@),
            forall|p: i32| #[trigger] r@.contains(p) <==> (0 < p <= pid_max && ((exists|k: int|
                0 <= k < known@.len() && -2 <= p - #[trigger] known@[k] <= 3) || exists|k: int|
                0 <= k < j && p == #[trigger] threads@[k])),
        decreases threads@.len() - j,
    {
        let t = threads[j];
        if 0 < t && t <= pid_max {
            add_pid(&mut r, &mut seen, t);
        }
        proof {
            assert forall|p: i32| #[trigger] r@.contains(p) <==> (0 < p <= pid_max && ((exists|k: int|
                0 <= k < known@.len() && -2 <= p - #[trigger] known@[k] <= 3) || exists|k: int|
                0 <= k < j + 1 && p == #[trigger] threads@[k])) by {
                if p == t {
                    assert(p == threads@[j as int]);
                }
                if exists|k: int| 0 <= k < j + 1 && p == #[trigger] threads@[k] {
                    let k = choose|k: int| 0 <= k < j + 1 && p == #[trigger] threads@[k];
                    if k == j {
                        assert(p == t);
                    }
                }
            }
        }
        j = j + 1;
    }
    let top: i32 = if pid_max < 512 {
        pid_max
    } else {
        512
    };
    let mut n: i32 = 1;
    while n < top
        invariant
            1 <= n,
            n <= top || top < 1,
            top == if pid_max < 512 { pid_max } else { 512 },
            pid_list_ok(r@, seen@),
            forall|p: i32| #[trigger] r@.contains(p) <==> (0 < p <= pid_max && ((exists|k: int|
                0 <= k < known@.len() && -2 <= p - #[trigger] known@[k] <= 3) || (exists|k: int|
                0 <= k < threads@.len() && p == #[trigger] threads@[k]) || (1 <= p < n))),
        decreases top - n,
    {
        add_pid(&mut r, &mut seen, n);
        n = n + 1;
    }
    r
}


// ---------------------------------------------------------------------------
// Environment blocks
// ---------------------------------------------------------------------------

/// The bytes of `LD_PRELOAD=`.
pub open spec fn ld_preload_bytes() -> Seq<u8> {
    seq![76u8, 68, 95, 80, 82, 69, 76, 79, 65, 68, 61]
}

/// The bytes `pat` occur in `b` (as a window of `b`).
pub open spec fn contains_bytes(b: Seq<u8>, pat: Seq<u8>) -> bool {
    exists|i: int| 0 <= i && i + pat.len() <= b.len() && #[trigger] b.subrange(i, i + pat.len()) == pat
}

fn contains_bytes_exec(b: &Vec<u8>, pat: &Vec<u8>) -> (r: bool)
    requires
        pat@.len() > 0,
    ensures
        r == contains_bytes(b@, pat@),
{
    if pat.len() > b.len() {
        return false;
    }
    let last = b.len() - pat.len();
    let mut i: usize = 0;
    while i <= last
        invariant
            last == b@.len() - pat@.len(),
            pat@.len() > 0,
            pat@.len() <= b@.len(),
            b@.len() <= usize::MAX,
            i <= last + 1,
            forall|j: int| 0 <= j < i ==> #[trigger] b@.subrange(j, j + pat@.len()) != pat@,
        decreases last + 1 - i,
    {
        let mut k: usize = 0;
        let mut same = true;
        while k < pat.len()
            invariant
                i <= last,
                last == b@.len() - pat@.len(),
                pat@.len() > 0,
                pat@.len() <= b@.len(),
                b@.len() <= usize::MAX,
                k <= pat@.len(),
                forall|j: int| 0 <= j < i ==> #[trigger] b@.subrange(j, j + pat@.len()) != pat@,
                same == forall|m: int| 0 <= m < k ==> b@[i + m] == pat@[m],
            decreases pat@.len() - k,
        {
            if b[i + k] != pat[k] {
                same = false;
            }
            k = k + 1;
        }
        if same {
            assert(b@.subrange(i as int, i + pat@.len()) =~= pat@);
            return true;
        }
        proof {
            let m = choose|m: int| 0 <= m < pat@.len() && b@[i + m] != pat@[m];
            assert(b@.subrange(i as int, i + pat@.len())[m] != pat@[m]);
        }
        i = i + 1;
    }
    false
}

/// Reading `b` from the left: the NUL-terminated pieces so far, and the
/// bytes after the last NUL.
pub open spec fn nul_fold(b: Seq<u8>) -> (Seq<Seq<u8>>, Seq<u8>)
    decreases b.len(),
{
    if b.len() == 0 {
        (seq![], seq![])
    } else {
        let p = nul_fold(b.drop_last());
        if b.last() == 0 {
            (p.0.push(p.1), seq![])
        } else {
            (p.0, p.1.push(b.last()))
        }
    }
}

/// The pieces between NUL bytes (as `split(|b| *b == 0)`, empty pieces
/// included).
pub open spec fn nul_segments(b: Seq<u8>) -> Seq<Seq<u8>> {
    nul_fold(b).0.push(nul_fold(b).1)
}

/// The first piece that is valid UTF-8 and starts with `LD_PRELOAD=`,
/// decoded.
pub open spec fn first_preload(segs: Seq<Seq<u8>>) -> Option<Seq<char>>
    decreases segs.len(),
{
    if segs.len() == 0 {
        None
    } else if vstd::utf8::valid_utf8(segs[0]) && starts_with(
        vstd::utf8::decode_utf8(segs[0]),
        "LD_PRELOAD="@,
    ) {
        Some(vstd::utf8::decode_utf8(segs[0]))
    } else {
        first_preload(segs.drop_first())
    }
}

/// The `LD_PRELOAD=...` entry of an environment block, or `LD_PRELOAD=?`
/// when no piece is one.
pub open spec fn preload_entry(env: Seq<u8>) -> Seq<char> {
    match first_preload(nul_segments(env)) {
        Some(e) => e,
        None => "LD_PRELOAD=?"@,
    }
}

/// The pieces of `b` that the spans delimit.
pub open spec fn byte_span_view(b: Seq<u8>, sp: Seq<(usize, usize)>) -> Seq<Seq<u8>> {
    Seq::new(sp.len(), |k: int| b.subrange(sp[k].0 as int, sp[k].1 as int))
}

fn nul_spans(b: &Vec<u8>) -> (sp: Vec<(usize, usize)>)
    ensures
        forall|k: int| 0 <= k < sp@.len() ==> (#[trigger] sp@[k]).0 <= sp@[k].1 <= b@.len(),
        byte_span_view(b@, sp@) == nul_segments(b@),
{
    let mut sp: Vec<(usize, usize)> = Vec::new();
    let mut start: usize = 0;
    let mut i: usize = 0;
    while i < b.len()
        invariant
            start <= i <= b@.len(),
            forall|k: int| 0 <= k < sp@.len() ==> (#[trigger] sp@[k]).0 <= sp@[k].1 <= b@.len(),
            byte_span_view(b@, sp@) == nul_fold(b@.take(i as int)).0,
            nul_fold(b@.take(i as int)).1 == b@.subrange(start as int, i as int),
        decreases b@.len() - i,
    {
        assert(b@.take(i + 1).drop_last() == b@.take(i as int));
        if b[i] == 0 {
            let ghost before = sp@;
            sp.push((start, i));
            assert(byte_span_view(b@, sp@) =~= byte_span_view(b@, before).push(
                b@.subrange(start as int, i as int),
            ));
            start = i + 1;
            assert(b@.subrange(start as int, i + 1) =~= Seq::<u8>::empty());
        } else {
            assert(b@.subrange(start as int, i + 1) == b@.subrange(start as int, i as int).push(
                b@[i as int],
            ));
        }
        i = i + 1;
    }
    assert(b@.take(b@.len() as int) == b@);
    let ghost before = sp@;
    sp.push((start, b.len()));
    assert(byte_span_view(b@, sp@) =~= byte_span_view(b@, before).push(
        b@.subrange(start as int, b@.len() as int),
    ));
    sp
}

/// The `LD_PRELOAD=...` entry of an environment block, or `LD_PRELOAD=?`.
pub fn preload_of(env: &Vec<u8>) -> (r: String)
    ensures
        r@ == preload_entry(env@),
{
    let sp = nul_spans(env);
    let ghost segs = byte_span_view(env@, sp@);
    let prefix = chars_of("LD_PRELOAD=");
    let mut k: usize = 0;
    assert(segs.skip(0) == segs);
    while k < sp.len()
        invariant
            forall|j: int| 0 <= j < sp@.len() ==> (#[trigger] sp@[j]).0 <= sp@[j].1 <= env@.len(),
            segs == byte_span_view(env@, sp@),
            segs == nul_segments(env@),
            prefix@ == "LD_PRELOAD="@,
            k <= sp@.len(),
            first_preload(segs) == first_preload(segs.skip(k as int)),
        decreases sp@.len() - k,
    {
        let (a, b) = sp[k];
        assert(segs.skip(k as int)[0] == env@.subrange(a as int, b as int));
        if let Some(t) = crate::outside::utf8_text(env, a, b) {
            let tv = chars_of(t.as_str());
            assert(tv@.subrange(0, tv@.len() as int) == tv@);
            if starts_with_in(&tv, 0, tv.len(), &prefix) {
                return t;
            }
        }
        assert(segs.skip(k as int).drop_first() == segs.skip(k + 1));
        k = k + 1;
    }
    owned("LD_PRELOAD=?")
}

// ---------------------------------------------------------------------------
// What the process checks report
// ---------------------------------------------------------------------------

/// What was read about one process. Text that could not be read is empty.
pub struct ProcSample {
    pub pid: i32,
    /// `/proc/<pid>/status`.
    pub status: String,
    /// `/proc/<pid>` exists.
    pub dir_exists: bool,
    /// `/proc/<pid>/comm`, as read.
    pub comm: String,
    /// `/proc/<pid>/cmdline`, as read.
    pub cmdline: String,
    /// The target of `/proc/<pid>/exe`.
    pub exe: String,
    /// `/proc/<pid>/environ`, if it could be read.
    pub environ: Option<Vec<u8>>,
}

/// The contents of a `ProcSample`.
pub struct SampleView {
    pub pid: i32,
    pub status: Seq<char>,
    pub dir_exists: bool,
    pub comm: Seq<char>,
    pub cmdline: Seq<char>,
    pub exe: Seq<char>,
    pub environ: Option<Seq<u8>>,
}

impl View for ProcSample {
    type V = SampleView;

    open spec fn view(&self) -> SampleView {
        SampleView {
            pid: self.pid,
            status: self.status@,
            dir_exists: self.dir_exists,
            comm: self.comm@,
            cmdline: self.cmdline@,
            exe: self.exe@,
            environ: match self.environ {
                Some(e) => Some(e@),
                None => None,
            },
        }
    }
}

/// The contents of a list of samples.
pub open spec fn sample_views(v: Seq<ProcSample>) -> Seq<SampleView> {
    v.map_values(|s: ProcSample| s@)
}

/// What is known of a process that was not sampled: nothing could be read.
pub open spec fn unsampled(pid: i32) -> SampleView {
    SampleView {
        pid,
        status: seq![],
        dir_exists: false,
        comm: seq![],
        cmdline: seq![],
        exe: seq![],
        environ: None,
    }
}

/// The first sample of the process, or `unsampled` when there is none.
pub open spec fn sample_for(ss: Seq<SampleView>, pid: i32) -> SampleView
    decreases ss.len(),
{
    if ss.len() == 0 {
        unsampled(pid)
    } else if ss[0].pid == pid {
        ss[0]
    } else {
        sample_for(ss.drop_first(), pid)
    }
}

fn sample_index(samples: &Vec<ProcSample>, pid: i32) -> (r: Option<usize>)
    ensures
        match r {
            Some(j) => j < samples@.len() && sample_for(sample_views(samples@), pid)
                == samples@[j as int]@,
            None => sample_for(sample_views(samples@), pid) == unsampled(pid),
        },
{
    let ghost ss = sample_views(samples@);
    let mut j: usize = 0;
    assert(ss.skip(0) == ss);
    while j < samples.len()
        invariant
            j <= samples@.len(),
            ss == sample_views(samples@),
            sample_for(ss, pid) == sample_for(ss.skip(j as int), pid),
        decreases samples@.len() - j,
    {
        assert(ss.skip(j as int)[0] == samples@[j as int]@);
        if samples[j].pid == pid {
            return Some(j);
        }
        assert(ss.skip(j as int).drop_first() == ss.skip(j + 1));
        j = j + 1;
    }
    None
}

/// The thread group id in a sample's status, read as `i32`.
pub open spec fn tgid_of(s: SampleView) -> Option<i32> {
    parse_i32(field_in_lines(lines(s.status), "Tgid"@))
}

/// The process is a thread of a process that the readdir of `/proc` shows.
pub open spec fn thread_of_listed(readdir: Seq<i32>, s: SampleView, pid: i32) -> bool {
    match tgid_of(s) {
        Some(t) => t != pid && readdir.contains(t),
        None => false,
    }
}

/// The finding for a process that the stat probe sees and the readdir of
/// `/proc` does not.
pub open spec fn hidden_process_finding(pid: i32, comm: Seq<char>) -> FindingView {
    mk(
        "processes"@,
        "critical"@,
        "possible hidden process pid="@ + dec_int(pid as int) + " ("@ + comm + ")"@,
        "seen via /proc/pid/stat probe but missing from /proc readdir"@,
        seq!["pid:"@ + dec_int(pid as int), "comm:"@ + comm],
        Some(350),
    )
}

/// Findings for the first `n` ids that the stat probe found.
pub open spec fn hidden_process_findings(
    readdir: Seq<i32>,
    stat: Seq<i32>,
    ss: Seq<SampleView>,
    n: int,
) -> Seq<FindingView>
    decreases n,
{
    if n <= 0 {
        seq![]
    } else {
        let p = stat[n - 1];
        let s = sample_for(ss, p);
        hidden_process_findings(readdir, stat, ss, n - 1) + finding_if(
            !readdir.contains(p) && !thread_of_listed(readdir, s, p) && s.dir_exists,
            hidden_process_finding(p, trim(s.comm)),
        )
    }
}

/// The finding for a process in `/proc` that `ps` does not show.
pub open spec fn invisible_finding(pid: i32, comm: Seq<char>) -> FindingView {
    mk(
        "processes"@,
        "high"@,
        "process invisible to ps: pid="@ + dec_int(pid as int) + " ("@ + comm + ")"@,
        "shows up in /proc but not in `ps -e`"@,
        seq!["pid:"@ + dec_int(pid as int)],
        Some(200),
    )
}

/// Findings for the first `n` ids of the readdir of `/proc`; kernel
/// threads (no command line and no executable) are left out.
pub open spec fn invisible_findings(readdir: Seq<i32>, ps: Seq<i32>, ss: Seq<SampleView>, n: int) -> Seq<
    FindingView,
>
    decreases n,
{
    if n <= 0 {
        seq![]
    } else {
        let p = readdir[n - 1];
        let s = sample_for(ss, p);
        invisible_findings(readdir, ps, ss, n - 1) + finding_if(
            !ps.contains(p) && !(trim(nul_to_space(s.cmdline)).len() == 0 && s.exe.len() == 0),
            invisible_finding(p, trim(s.comm)),
        )
    }
}

/// What the executable and the environment of one process give.
pub open spec fn exe_env_findings(pid: i32, s: SampleView) -> Seq<FindingView> {
    let id = "pid:"@ + dec_int(pid as int);
    finding_if(
        contains(s.exe, "(deleted)"@) && trim(nul_to_space(s.cmdline)).len() > 0,
        mk(
            "processes"@,
            "medium"@,
            "running from deleted binary: pid="@ + dec_int(pid as int),
            "exe="@ + s.exe,
            seq![id, "exe:"@ + s.exe],
            Some(80),
        ),
    ) + finding_if(
        contains(s.exe, "memfd:"@),
        mk(
            "processes"@,
            "high"@,
            "executed from memfd: pid="@ + dec_int(pid as int),
            "exe="@ + s.exe,
            seq![id, "technique:memfd_create"@],
            Some(150),
        ),
    ) + match s.environ {
        Some(env) => finding_if(
            contains_bytes(env, ld_preload_bytes()),
            mk(
                "processes"@,
                "medium"@,
                "LD_PRELOAD set for pid="@ + dec_int(pid as int),
                preload_entry(env),
                seq![id, preload_entry(env)],
                Some(80),
            ),
        ),
        None => seq![],
    }
}

/// What the executables and environments of the first `n` processes of the
/// readdir of `/proc` give.
pub open spec fn all_exe_env_findings(readdir: Seq<i32>, ss: Seq<SampleView>, n: int) -> Seq<
    FindingView,
>
    decreases n,
{
    if n <= 0 {
        seq![]
    } else {
        all_exe_env_findings(readdir, ss, n - 1) + exe_env_findings(
            readdir[n - 1],
            sample_for(ss, readdir[n - 1]),
        )
    }
}

/// Everything the process checks read.
pub struct ProcInputs {
    /// The ids that the readdir of `/proc` lists.
    pub readdir: Vec<i32>,
    /// The ids whose `/proc/<pid>/stat` exists, of those probed.
    pub stat: Vec<i32>,
    /// The ids that `ps -e` lists.
    pub ps: Vec<i32>,
    /// What was read about the processes.
    pub samples: Vec<ProcSample>,
}

/// All process findings: hidden processes, processes `ps` does not show,
/// then executables and environments.
pub open spec fn process_findings(inp: ProcInputs) -> Seq<FindingView> {
    let ss = sample_views(inp.samples@);
    hidden_process_findings(inp.readdir@, inp.stat@, ss, inp.stat@.len() as int)
        + invisible_findings(inp.readdir@, inp.ps@, ss, inp.readdir@.len() as int)
        + all_exe_env_findings(inp.readdir@, ss, inp.readdir@.len() as int)
}

fn has_pid(v: &Vec<i32>, p: i32) -> (b: bool)
    ensures
        b == v@.contains(p),
{
    let mut i: usize = 0;
    while i < v.len()
        invariant
            i <= v@.len(),
            forall|k: int| 0 <= k < i ==> v@[k] != p,
        decreases v@.len() - i,
    {
        if v[i] == p {
            assert(v@[i as int] == p);
            return true;
        }
        i = i + 1;
    }
    false
}

fn pid_text(prefix: &str, pid: i32) -> (r: String)
    ensures
        r@ == prefix@ + dec_int(pid as int),
{
    let mut r = owned(prefix);
    push_dec_i32(&mut r, pid);
    r
}

proof fn lemma_empty_literal()
    ensures
        ""@ == Seq::<char>::empty(),
{
    reveal_strlit("");
    assert(""@ =~= Seq::<char>::empty());
}

/// The fields of the sample of `pid`, defaulting as `unsampled` does.
fn sample_fields(samples: &Vec<ProcSample>, pid: i32) -> (r: (&str, bool, &str, &str, &str))
    ensures
        r.0@ == sample_for(sample_views(samples@), pid).status,
        r.1 == sample_for(sample_views(samples@), pid).dir_exists,
        r.2@ == sample_for(sample_views(samples@), pid).comm,
        r.3@ == sample_for(sample_views(samples@), pid).cmdline,
        r.4@ == sample_for(sample_views(samples@), pid).exe,
{
    match sample_index(samples, pid) {
        Some(j) => {
            let s = &samples[j];
            (s.status.as_str(), s.dir_exists, s.comm.as_str(), s.cmdline.as_str(), s.exe.as_str())
        },
        None => {
            proof {
                lemma_empty_literal();
            }
            ("", false, "", "", "")
        },
    }
}

/// One critical finding, in the order of `stat`, for each probed id that
/// the readdir of `/proc` misses, unless it is a thread of a listed process
/// or `/proc/<pid>` does not exist.
pub fn check_hidden_processes(inp: &ProcInputs) -> (r: Vec<Finding>)
    ensures
        views(r@) == hidden_process_findings(
            inp.readdir@,
            inp.stat@,
            sample_views(inp.samples@),
            inp.stat@.len() as int,
        ),
{
    let ghost ss = sample_views(inp.samples@);
    let mut r: Vec<Finding> = Vec::new();
    assert(views(r@) =~= Seq::<FindingView>::empty());
    let mut i: usize = 0;
    while i < inp.stat.len()
        invariant
            i <= inp.stat@.len(),
            ss == sample_views(inp.samples@),
            views(r@) == hidden_process_findings(inp.readdir@, inp.stat@, ss, i as int),
        decreases inp.stat@.len() - i,
    {
        let p = inp.stat[i];
        if !has_pid(&inp.readdir, p) {
            let (status, exists, comm_raw, _cmd, _exe) = sample_fields(&inp.samples, p);
            let tgid_text = status_field(status, "Tgid");
            let tv = chars_of(tgid_text.as_str());
            assert(tv@.subrange(0, tv@.len() as int) == tv@);
            let thread = match parse_i32_in(&tv, 0, tv.len()) {
                Some(t) => t != p && has_pid(&inp.readdir, t),
                None => false,
            };
            if !thread && exists {
                let comm = read_comm(comm_raw);
                let mut title = pid_text("possible hidden process pid=", p);
                push_str(&mut title, " (");
                push_str(&mut title, comm.as_str());
                push_str(&mut title, ")");
                let f = Finding::new(
                    "processes",
                    "critical",
                    title.as_str(),
                    "seen via /proc/pid/stat probe but missing from /proc readdir",
                ).ioc(pid_text("pid:", p).as_str()).ioc(
                    crate::text::cat("comm:", comm.as_str()).as_str(),
                ).with_score(350);
                proof {
                    assert(f@.iocs =~= seq!["pid:"@ + dec_int(p as int), "comm:"@ + comm@]);
                    lemma_views_push(r@, f);
                }
                r.push(f);
            }
        }
        i = i + 1;
    }
    r
}

/// One high finding, in the order of `readdir`, for each listed id that
/// `ps` misses, unless both its command line and its executable are empty.
pub fn check_invisible(inp: &ProcInputs) -> (r: Vec<Finding>)
    ensures
        views(r@) == invisible_findings(
            inp.readdir@,
            inp.ps@,
            sample_views(inp.samples@),
            inp.readdir@.len() as int,
        ),
{
    let ghost ss = sample_views(inp.samples@);
    let mut r: Vec<Finding> = Vec::new();
    assert(views(r@) =~= Seq::<FindingView>::empty());
    let mut i: usize = 0;
    while i < inp.readdir.len()
        invariant
            i <= inp.readdir@.len(),
            ss == sample_views(inp.samples@),
            views(r@) == invisible_findings(inp.readdir@, inp.ps@, ss, i as int),
        decreases inp.readdir@.len() - i,
    {
        let p = inp.readdir[i];
        if !has_pid(&inp.ps, p) {
            let (_status, _exists, comm_raw, cmd_raw, exe) = sample_fields(&inp.samples, p);
            let cmd = read_cmdline(cmd_raw);
            if !(cmd.as_str().is_empty() && exe.is_empty()) {
                let comm = read_comm(comm_raw);
                let mut title = pid_text("process invisible to ps: pid=", p);
                push_str(&mut title, " (");
                push_str(&mut title, comm.as_str());
                push_str(&mut title, ")");
                let f = Finding::new(
                    "processes",
                    "high",
                    title.as_str(),
                    "shows up in /proc but not in `ps -e`",
                ).ioc(pid_text("pid:", p).as_str()).with_score(200);
                proof {
                    assert(f@.iocs =~= seq!["pid:"@ + dec_int(p as int)]);
                    lemma_views_push(r@, f);
                }
                r.push(f);
            }
        }
        i = i + 1;
    }
    r
}

fn exe_env_for(p: i32, samples: &Vec<ProcSample>) -> (r: Vec<Finding>)
    ensures
        views(r@) == exe_env_findings(p, sample_for(sample_views(samples@), p)),
{
    let ghost s = sample_for(sample_views(samples@), p);
    let (_status, _exists, _comm, cmd_raw, exe) = sample_fields(samples, p);
    let ev = chars_of(exe);
    assert(ev@.subrange(0, ev@.len() as int) == ev@);
    let mut r: Vec<Finding> = Vec::new();
    assert(views(r@) =~= Seq::<FindingView>::empty());
    let cmd = read_cmdline(cmd_raw);
    if contains_in(&ev, 0, ev.len(), &chars_of("(deleted)")) && !cmd.as_str().is_empty() {
        let f = Finding::new(
            "processes",
            "medium",
            pid_text("running from deleted binary: pid=", p).as_str(),
            crate::text::cat("exe=", exe).as_str(),
        ).ioc(pid_text("pid:", p).as_str()).ioc(crate::text::cat("exe:", exe).as_str()).with_score(
            80,
        );
        proof {
            assert(f@.iocs =~= seq!["pid:"@ + dec_int(p as int), "exe:"@ + exe@]);
            lemma_views_push(r@, f);
        }
        r.push(f);
    }
    let ghost after_deleted = views(r@);
    if contains_in(&ev, 0, ev.len(), &chars_of("memfd:")) {
        let f = Finding::new(
            "processes",
            "high",
            pid_text("executed from memfd: pid=", p).as_str(),
            crate::text::cat("exe=", exe).as_str(),
        ).ioc(pid_text("pid:", p).as_str()).ioc("technique:memfd_create").with_score(150);
        proof {
            assert(f@.iocs =~= seq!["pid:"@ + dec_int(p as int), "technique:memfd_create"@]);
            lemma_views_push(r@, f);
        }
        r.push(f);
    }
    let ghost after_memfd = views(r@);
    let mut env_part: Vec<Finding> = Vec::new();
    assert(views(env_part@) =~= Seq::<FindingView>::empty());
    match sample_index(samples, p) {
        Some(j) => {
            match &samples[j].environ {
                Some(env) => {
                    let pat: Vec<u8> = vec![76u8, 68, 95, 80, 82, 69, 76, 79, 65, 68, 61];
                    assert(pat@ == ld_preload_bytes());
                    if contains_bytes_exec(env, &pat) {
                        let pre = preload_of(env);
                        let f = Finding::new(
                            "processes",
                            "medium",
                            pid_text("LD_PRELOAD set for pid=", p).as_str(),
                            pre.as_str(),
                        ).ioc(pid_text("pid:", p).as_str()).ioc(pre.as_str()).with_score(80);
                        proof {
                            assert(f@.iocs =~= seq!["pid:"@ + dec_int(p as int), pre@]);
                            lemma_views_push(env_part@, f);
                        }
                        env_part.push(f);
                    }
                },
                None => {},
            }
        },
        None => {},
    }
    extend_findings(&mut r, env_part);
    r
}

/// Findings on the executable and environment of each process of the
/// readdir of `/proc`, in order: a medium one when the executable is a
/// deleted file (and the command line is not empty), a high one when it is
/// a memfd, and a medium one when the environment sets `LD_PRELOAD`.
pub fn check_exe_env(inp: &ProcInputs) -> (r: Vec<Finding>)
    ensures
        views(r@) == all_exe_env_findings(
            inp.readdir@,
            sample_views(inp.samples@),
            inp.readdir@.len() as int,
        ),
{
    let mut r: Vec<Finding> = Vec::new();
    assert(views(r@) =~= Seq::<FindingView>::empty());
    let mut i: usize = 0;
    while i < inp.readdir.len()
        invariant
            i <= inp.readdir@.len(),
            views(r@) == all_exe_env_findings(inp.readdir@, sample_views(inp.samples@), i as int),
        decreases inp.readdir@.len() - i,
    {
        let more = exe_env_for(inp.readdir[i], &inp.samples);
        extend_findings(&mut r, more);
        i = i + 1;
    }
    r
}

/// The process checks on what was read.
pub fn run(inp: &ProcInputs) -> (r: Vec<Finding>)
    ensures
        views(r@) == process_findings(*inp),
{
    let mut r = check_hidden_processes(inp);
    extend_findings(&mut r, check_invisible(inp));
    extend_findings(&mut r, check_exe_env(inp));
    r
}


/// A directory entry name read as a process id (as `name.parse::<i32>()`).
pub fn parse_pid(name: &str) -> (r: Option<i32>)
    ensures
        r == parse_i32(name@),
{
    let v = chars_of(name);
    assert(v@.subrange(0, v@.len() as int) == v@);
    parse_i32_in(&v, 0, v.len())
}

// ---------------------------------------------------------------------------
// Laws of the process checks
// ---------------------------------------------------------------------------

/// When every probed id is listed by the readdir of `/proc`, no process is
/// reported hidden; when `ps` shows every listed id, none is reported
/// invisible to `ps`.
pub proof fn law_agreeing_process_views_are_quiet(
    readdir: Seq<i32>,
    stat: Seq<i32>,
    ps: Seq<i32>,
    ss: Seq<SampleView>,
)
    requires
        forall|i: int| 0 <= i < stat.len() ==> readdir.contains(#[trigger] stat[i]),
        forall|i: int| 0 <= i < readdir.len() ==> ps.contains(#[trigger] readdir[i]),
    ensures
        hidden_process_findings(readdir, stat, ss, stat.len() as int) == Seq::<FindingView>::empty(),
        invisible_findings(readdir, ps, ss, readdir.len() as int) == Seq::<FindingView>::empty(),
{
    lemma_no_hidden_process(readdir, stat, ss, stat.len() as int);
    lemma_no_invisible(readdir, ps, ss, readdir.len() as int);
}

proof fn lemma_no_hidden_process(readdir: Seq<i32>, stat: Seq<i32>, ss: Seq<SampleView>, n: int)
    requires
        0 <= n <= stat.len(),
        forall|i: int| 0 <= i < stat.len() ==> readdir.contains(#[trigger] stat[i]),
    ensures
        hidden_process_findings(readdir, stat, ss, n) == Seq::<FindingView>::empty(),
    decreases n,
{
    if n > 0 {
        lemma_no_hidden_process(readdir, stat, ss, n - 1);
        assert(readdir.contains(stat[n - 1]));
        assert(hidden_process_findings(readdir, stat, ss, n) =~= Seq::<FindingView>::empty());
    }
}

proof fn lemma_no_invisible(readdir: Seq<i32>, ps: Seq<i32>, ss: Seq<SampleView>, n: int)
    requires
        0 <= n <= readdir.len(),
        forall|i: int| 0 <= i < readdir.len() ==> ps.contains(#[trigger] readdir[i]),
    ensures
        invisible_findings(readdir, ps, ss, n) == Seq::<FindingView>::empty(),
    decreases n,
{
    if n > 0 {
        lemma_no_invisible(readdir, ps, ss, n - 1);
        assert(ps.contains(readdir[n - 1]));
        assert(invisible_findings(readdir, ps, ss, n) =~= Seq::<FindingView>::empty());
    }
}

/// The stat probe covers every listed process id within `1..=pid_max`.
pub proof fn law_probe_covers_listed(known: Seq<i32>, threads: Seq<i32>, pid_max: i32, i: int)
    requires
        0 <= i < known.len(),
        0 < known[i] <= pid_max,
    ensures
        is_candidate(known, threads, pid_max, known[i] as int),
{
}

/// A probed id that the readdir of `/proc` misses and whose `/proc/<pid>`
/// exists is reported hidden, unless the `Tgid` of its status names a
/// different id that the readdir lists. In particular a thread whose thread
/// group leader is itself missing from the readdir is reported.
pub proof fn law_hidden_unless_thread_of_listed(
    readdir: Seq<i32>,
    stat: Seq<i32>,
    ss: Seq<SampleView>,
    i: int,
)
    requires
        0 <= i < stat.len(),
        !readdir.contains(stat[i]),
        sample_for(ss, stat[i]).dir_exists,
        forall|t: i32|
            parse_i32(field_in_lines(lines(sample_for(ss, stat[i]).status), "Tgid"@)) == Some(t)
                ==> t == stat[i] || !readdir.contains(t),
    ensures
        hidden_process_findings(readdir, stat, ss, stat.len() as int).contains(
            hidden_process_finding(stat[i], trim(sample_for(ss, stat[i]).comm)),
        ),
{
    lemma_hidden_kept(readdir, stat, ss, i, stat.len() as int);
}

proof fn lemma_hidden_kept(readdir: Seq<i32>, stat: Seq<i32>, ss: Seq<SampleView>, i: int, n: int)
    requires
        0 <= i < n <= stat.len(),
        !readdir.contains(stat[i]),
        sample_for(ss, stat[i]).dir_exists,
        forall|t: i32|
            parse_i32(field_in_lines(lines(sample_for(ss, stat[i]).status), "Tgid"@)) == Some(t)
                ==> t == stat[i] || !readdir.contains(t),
    ensures
        hidden_process_findings(readdir, stat, ss, n).contains(
            hidden_process_finding(stat[i], trim(sample_for(ss, stat[i]).comm)),
        ),
    decreases n,
{
    let f = hidden_process_finding(stat[i], trim(sample_for(ss, stat[i]).comm));
    if i < n - 1 {
        lemma_hidden_kept(readdir, stat, ss, i, n - 1);
        let prev = hidden_process_findings(readdir, stat, ss, n - 1);
        let k = choose|k: int| 0 <= k < prev.len() && #[trigger] prev[k] == f;
        assert(hidden_process_findings(readdir, stat, ss, n)[k] == f);
    } else {
        let s = sample_for(ss, stat[i]);
        assert(!thread_of_listed(readdir, s, stat[i]));
        let l = hidden_process_findings(readdir, stat, ss, n);
        assert(l[l.len() - 1] == f);
    }
}

} // verus!
