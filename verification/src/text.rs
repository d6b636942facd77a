//! Character-level text handling: whitespace, trimming, line and token
//! splitting, substring search, and decimal/hexadecimal numbers.
use vstd::prelude::*;
use vstd::std_specs::iter::IteratorSpec;
pub(crate) use crate::outside::push_char;

verus! {

// ---------------------------------------------------------------------------
// Characters and whitespace
// ---------------------------------------------------------------------------

/// Unicode `White_Space`, the property that `char::is_whitespace` tests.
pub open spec fn is_ws(c: char) -> bool {
    let u = c as u32;
    ||| 0x09 <= u <= 0x0d
    ||| u == 0x20
    ||| u == 0x85
    ||| u == 0xa0
    ||| u == 0x1680
    ||| 0x2000 <= u <= 0x200a
    ||| u == 0x2028
    ||| u == 0x2029
    ||| u == 0x202f
    ||| u == 0x205f
    ||| u == 0x3000
}

/// Whether `c` is a Unicode whitespace character.
pub fn is_whitespace(c: char) -> (b: bool)
    ensures
        b == is_ws(c),
{
    let u = c as u32;
    (0x09 <= u && u <= 0x0d) || u == 0x20 || u == 0x85 || u == 0xa0 || u == 0x1680 || (0x2000
        <= u && u <= 0x200a) || u == 0x2028 || u == 0x2029 || u == 0x202f || u == 0x205f || u
        == 0x3000
}

/// `s` without its leading whitespace.
pub open spec fn trim_start(s: Seq<char>) -> Seq<char>
    decreases s.len(),
{
    if s.len() > 0 && is_ws(s[0]) {
        trim_start(s.drop_first())
    } else {
        s
    }
}

/// `s` without its trailing whitespace.
pub open spec fn trim_end(s: Seq<char>) -> Seq<char>
    decreases s.len(),
{
    if s.len() > 0 && is_ws(s.last()) {
        trim_end(s.drop_last())
    } else {
        s
    }
}

/// `s` without leading and trailing whitespace (what `str::trim` returns).
pub open spec fn trim(s: Seq<char>) -> Seq<char> {
    trim_end(trim_start(s))
}

// ---------------------------------------------------------------------------
// Conversions between `str`, `String` and `Vec<char>`
// ---------------------------------------------------------------------------

/// The characters of `s`, in order.
pub fn chars_of(s: &str) -> (v: Vec<char>)
    ensures
        v@ == s@,
{
    broadcast use vstd::string::group_string_axioms;

    let mut v: Vec<char> = Vec::new();
    let mut it = s.chars();
    loop
        invariant
            it.obeys_prophetic_iter_laws(),
            it.decrease() is Some,
            v@ + it.remaining() == s@,
        ensures
            v@ == s@,
        decreases it.decrease()->0,
    {
        match it.next() {
            Some(c) => {
                v.push(c);
            },
            None => {
                break ;
            },
        }
    }
    v
}

/// Appends `v[lo..hi]` to `out`.
pub fn push_range(out: &mut String, v: &Vec<char>, lo: usize, hi: usize)
    requires
        lo <= hi <= v@.len(),
    ensures
        final(out)@ == old(out)@ + v@.subrange(lo as int, hi as int),
{
    let mut i = lo;
    while i < hi
        invariant
            lo <= i <= hi <= v@.len(),
            out@ == old(out)@ + v@.subrange(lo as int, i as int),
        decreases hi - i,
    {
        push_char(out, v[i]);
        assert(v@.subrange(lo as int, i + 1) == v@.subrange(lo as int, i as int).push(v@[i as int]));
        i = i + 1;
    }
}

/// The string made of `v[lo..hi]`.
pub fn string_of(v: &Vec<char>, lo: usize, hi: usize) -> (s: String)
    requires
        lo <= hi <= v@.len(),
    ensures
        s@ == v@.subrange(lo as int, hi as int),
{
    let mut s = String::new();
    push_range(&mut s, v, lo, hi);
    s
}

/// Appends the string `t` to `out`.
pub fn push_str(out: &mut String, t: &str)
    ensures
        final(out)@ == old(out)@ + t@,
{
    let v = chars_of(t);
    push_range(out, &v, 0, v.len());
    assert(v@.subrange(0, v@.len() as int) == v@);
}

/// Whether two strings are equal.
pub fn str_eq(a: &str, b: &str) -> (r: bool)
    ensures
        r == (a@ == b@),
{
    let va = chars_of(a);
    let vb = chars_of(b);
    assert(va@.subrange(0, va@.len() as int) == va@);
    range_eq(&va, 0, va.len(), &vb)
}

/// A new string holding the characters of `t`.
pub fn owned(t: &str) -> (r: String)
    ensures
        r@ == t@,
{
    let mut r = String::new();
    push_str(&mut r, t);
    r
}

/// The concatenation of `a` and `b`.
pub fn cat(a: &str, b: &str) -> (r: String)
    ensures
        r@ == a@ + b@,
{
    let mut r = String::new();
    push_str(&mut r, a);
    push_str(&mut r, b);
    r
}

/// The parts joined with `sep` between each two (as `slice::join`).
pub open spec fn join(parts: Seq<Seq<char>>, sep: Seq<char>) -> Seq<char>
    decreases parts.len(),
{
    if parts.len() == 0 {
        seq![]
    } else if parts.len() == 1 {
        parts[0]
    } else {
        join(parts.drop_last(), sep) + sep + parts.last()
    }
}

/// The strings of `parts[..n]` joined with `sep`.
pub fn join_strings(parts: &Vec<String>, n: usize, sep: &str) -> (r: String)
    requires
        n <= parts@.len(),
    ensures
        r@ == join(parts@.take(n as int).map_values(|s: String| s@), sep@),
{
    let ghost all = parts@.map_values(|s: String| s@);
    let mut r = String::new();
    let mut i: usize = 0;
    while i < n
        invariant
            i <= n <= parts@.len(),
            all == parts@.map_values(|s: String| s@),
            r@ == join(all.take(i as int), sep@),
        decreases n - i,
    {
        assert(all.take(i + 1).drop_last() == all.take(i as int));
        if i > 0 {
            push_str(&mut r, sep);
        } else {
            assert(all.take(0) =~= Seq::<Seq<char>>::empty());
        }
        push_str(&mut r, parts[i].as_str());
        i = i + 1;
    }
    assert(parts@.take(n as int).map_values(|s: String| s@) =~= all.take(n as int));
    r
}

/// The characters of an optional string.
pub open spec fn opt_chars(o: Option<&str>) -> Option<Seq<char>> {
    match o {
        Some(t) => Some(t@),
        None => None,
    }
}

/// The characters of each string.
pub open spec fn string_views(v: Seq<String>) -> Seq<Seq<char>> {
    v.map_values(|s: String| s@)
}

/// The characters of each character vector.
pub open spec fn chars_views(v: Seq<Vec<char>>) -> Seq<Seq<char>> {
    v.map_values(|x: Vec<char>| x@)
}

// ---------------------------------------------------------------------------
// Trimming
// ---------------------------------------------------------------------------

/// The bounds of `trim(v[lo..hi])` inside `v`.
pub fn trim_bounds(v: &Vec<char>, lo: usize, hi: usize) -> (r: (usize, usize))
    requires
        lo <= hi <= v@.len(),
    ensures
        lo <= r.0 <= r.1 <= hi,
        v@.subrange(r.0 as int, r.1 as int) == trim(v@.subrange(lo as int, hi as int)),
{
    let ghost s = v@.subrange(lo as int, hi as int);
    let mut i = lo;
    while i < hi && is_whitespace(v[i])
        invariant
            lo <= i <= hi <= v@.len(),
            s == v@.subrange(lo as int, hi as int),
            trim_start(s) == trim_start(v@.subrange(i as int, hi as int)),
        decreases hi - i,
    {
        assert(v@.subrange(i as int, hi as int).drop_first() == v@.subrange(i + 1, hi as int));
        i = i + 1;
    }
    assert(trim_start(v@.subrange(i as int, hi as int)) == v@.subrange(i as int, hi as int));
    let mut j = hi;
    while j > i && is_whitespace(v[j - 1])
        invariant
            lo <= i <= j <= hi <= v@.len(),
            trim(s) == trim_end(v@.subrange(i as int, j as int)),
        decreases j - i,
    {
        assert(v@.subrange(i as int, j as int).drop_last() == v@.subrange(i as int, j - 1));
        j = j - 1;
    }
    (i, j)
}

/// `s` with leading and trailing whitespace removed (as `str::trim`).
pub fn trimmed(s: &str) -> (r: String)
    ensures
        r@ == trim(s@),
{
    let v = chars_of(s);
    let (a, b) = trim_bounds(&v, 0, v.len());
    assert(v@.subrange(0, v@.len() as int) == v@);
    string_of(&v, a, b)
}


// ---------------------------------------------------------------------------
// Spans: pieces of a character vector given by their bounds
// ---------------------------------------------------------------------------

/// Every span lies inside `v` and is well ordered.
pub open spec fn spans_ok(v: Seq<char>, sp: Seq<(usize, usize)>) -> bool {
    forall|k: int| 0 <= k < sp.len() ==> (#[trigger] sp[k]).0 <= sp[k].1 <= v.len()
}

/// The pieces of `v` that the spans delimit.
pub open spec fn span_view(v: Seq<char>, sp: Seq<(usize, usize)>) -> Seq<Seq<char>> {
    Seq::new(sp.len(), |k: int| v.subrange(sp[k].0 as int, sp[k].1 as int))
}

proof fn lemma_span_view_push(v: Seq<char>, sp: Seq<(usize, usize)>, p: (usize, usize))
    ensures
        span_view(v, sp.push(p)) == span_view(v, sp).push(v.subrange(p.0 as int, p.1 as int)),
{
    assert(span_view(v, sp.push(p)) =~= span_view(v, sp).push(v.subrange(p.0 as int, p.1 as int)));
}

// ---------------------------------------------------------------------------
// Lines (as `str::lines`)
// ---------------------------------------------------------------------------

/// A line read up to a `\n` loses one trailing `\r`.
pub open spec fn strip_cr(l: Seq<char>) -> Seq<char> {
    if l.len() > 0 && l.last() == '\r' {
        l.drop_last()
    } else {
        l
    }
}

/// Reading `s` from the left: the lines completed by a `\n`, and the text
/// after the last `\n`.
pub open spec fn line_fold(s: Seq<char>) -> (Seq<Seq<char>>, Seq<char>)
    decreases s.len(),
{
    if s.len() == 0 {
        (seq![], seq![])
    } else {
        let p = line_fold(s.drop_last());
        if s.last() == '\n' {
            (p.0.push(strip_cr(p.1)), seq![])
        } else {
            (p.0, p.1.push(s.last()))
        }
    }
}

/// The lines of `s`: split at `\n` (a `\r` before it is dropped); a final
/// empty line is not a line.
pub open spec fn lines(s: Seq<char>) -> Seq<Seq<char>> {
    let p = line_fold(s);
    if p.1.len() > 0 {
        p.0.push(p.1)
    } else {
        p.0
    }
}

/// The spans of the lines of `v`.
pub fn line_spans(v: &Vec<char>) -> (sp: Vec<(usize, usize)>)
    ensures
        spans_ok(v@, sp@),
        span_view(v@, sp@) == lines(v@),
{
    let mut sp: Vec<(usize, usize)> = Vec::new();
    let mut start: usize = 0;
    let mut i: usize = 0;
    while i < v.len()
        invariant
            start <= i <= v@.len(),
            spans_ok(v@, sp@),
            span_view(v@, sp@) == line_fold(v@.take(i as int)).0,
            line_fold(v@.take(i as int)).1 == v@.subrange(start as int, i as int),
        decreases v@.len() - i,
    {
        assert(v@.take(i + 1).drop_last() == v@.take(i as int));
        if v[i] == '\n' {
            let end = if i > start && v[i - 1] == '\r' {
                i - 1
            } else {
                i
            };
            proof {
                lemma_span_view_push(v@, sp@, (start, end));
                let cur = v@.subrange(start as int, i as int);
                if i > start && v@[i - 1] == '\r' {
                    assert(strip_cr(cur) == v@.subrange(start as int, end as int));
                } else {
                    assert(strip_cr(cur) == v@.subrange(start as int, end as int));
                }
            }
            sp.push((start, end));
            start = i + 1;
            assert(v@.subrange(start as int, i + 1) =~= Seq::<char>::empty());
        } else {
            assert(v@.subrange(start as int, i + 1) == v@.subrange(start as int, i as int).push(
                v@[i as int],
            ));
        }
        i = i + 1;
    }
    assert(v@.take(v@.len() as int) == v@);
    if start < v.len() {
        proof {
            lemma_span_view_push(v@, sp@, (start, v.len()));
        }
        sp.push((start, v.len()));
    }
    sp
}

// ---------------------------------------------------------------------------
// Tokens (as `str::split_whitespace`)
// ---------------------------------------------------------------------------

/// Reading `s` from the left: the whitespace-separated tokens completed so
/// far, and the token being read.
pub open spec fn token_fold(s: Seq<char>) -> (Seq<Seq<char>>, Seq<char>)
    decreases s.len(),
{
    if s.len() == 0 {
        (seq![], seq![])
    } else {
        let p = token_fold(s.drop_last());
        if is_ws(s.last()) {
            if p.1.len() > 0 {
                (p.0.push(p.1), seq![])
            } else {
                (p.0, seq![])
            }
        } else {
            (p.0, p.1.push(s.last()))
        }
    }
}

/// The maximal runs of non-whitespace characters of `s`, in order.
pub open spec fn tokens(s: Seq<char>) -> Seq<Seq<char>> {
    let p = token_fold(s);
    if p.1.len() > 0 {
        p.0.push(p.1)
    } else {
        p.0
    }
}

/// The spans of the tokens of `v[lo..hi]`.
pub fn token_spans(v: &Vec<char>, lo: usize, hi: usize) -> (sp: Vec<(usize, usize)>)
    requires
        lo <= hi <= v@.len(),
    ensures
        spans_ok(v@, sp@),
        span_view(v@, sp@) == tokens(v@.subrange(lo as int, hi as int)),
        forall|k: int| 0 <= k < sp@.len() ==> lo <= #[trigger] sp@[k].0 && sp@[k].1 <= hi,
{
    let mut sp: Vec<(usize, usize)> = Vec::new();
    let mut start: usize = lo;
    let mut i: usize = lo;
    while i < hi
        invariant
            lo <= start <= i <= hi <= v@.len(),
            spans_ok(v@, sp@),
            forall|k: int| 0 <= k < sp@.len() ==> lo <= #[trigger] sp@[k].0 && sp@[k].1 <= hi,
            span_view(v@, sp@) == token_fold(v@.subrange(lo as int, i as int)).0,
            token_fold(v@.subrange(lo as int, i as int)).1 == v@.subrange(start as int, i as int),
        decreases hi - i,
    {
        assert(v@.subrange(lo as int, i + 1).drop_last() == v@.subrange(lo as int, i as int));
        if is_whitespace(v[i]) {
            if start < i {
                proof {
                    lemma_span_view_push(v@, sp@, (start, i));
                }
                sp.push((start, i));
            }
            start = i + 1;
            assert(v@.subrange(start as int, i + 1) =~= Seq::<char>::empty());
        } else {
            assert(v@.subrange(start as int, i + 1) == v@.subrange(start as int, i as int).push(
                v@[i as int],
            ));
        }
        i = i + 1;
    }
    if start < hi {
        proof {
            lemma_span_view_push(v@, sp@, (start, hi));
        }
        sp.push((start, hi));
    }
    sp
}

// ---------------------------------------------------------------------------
// Comparing and searching
// ---------------------------------------------------------------------------

/// Whether `v[lo..hi]` equals `t`.
pub fn range_eq(v: &Vec<char>, lo: usize, hi: usize, t: &Vec<char>) -> (b: bool)
    requires
        lo <= hi <= v@.len(),
    ensures
        b == (v@.subrange(lo as int, hi as int) == t@),
{
    if hi - lo != t.len() {
        return false;
    }
    let mut k: usize = 0;
    while k < t.len()
        invariant
            lo <= hi <= v@.len(),
            hi - lo == t@.len(),
            k <= t@.len(),
            forall|j: int| 0 <= j < k ==> v@[lo + j] == t@[j],
        decreases t@.len() - k,
    {
        if v[lo + k] != t[k] {
            assert(v@.subrange(lo as int, hi as int)[k as int] != t@[k as int]);
            return false;
        }
        k = k + 1;
    }
    assert(v@.subrange(lo as int, hi as int) =~= t@);
    true
}

/// `n` occurs in `h` starting at index `i`.
pub open spec fn occurs_at(h: Seq<char>, n: Seq<char>, i: int) -> bool {
    0 <= i && i + n.len() <= h.len() && h.subrange(i, i + n.len()) == n
}

/// `n` is a substring of `h`.
pub open spec fn contains(h: Seq<char>, n: Seq<char>) -> bool {
    exists|i: int| occurs_at(h, n, i)
}

/// `p` is a prefix of `s`.
pub open spec fn starts_with(s: Seq<char>, p: Seq<char>) -> bool {
    p.len() <= s.len() && s.take(p.len() as int) == p
}

/// `p` is a suffix of `s`.
pub open spec fn ends_with(s: Seq<char>, p: Seq<char>) -> bool {
    p.len() <= s.len() && s.skip(s.len() - p.len()) == p
}

/// The first index at which `n` occurs in `h`, if any (as `str::find`).
#[verifier::opaque]
pub open spec fn find(h: Seq<char>, n: Seq<char>) -> Option<int> {
    if contains(h, n) {
        Some(choose|i: int| occurs_at(h, n, i) && forall|j: int| 0 <= j < i ==> !occurs_at(h, n, j))
    } else {
        None
    }
}

/// The first index at or after `from` at which `n` occurs in `v[lo..hi]`,
/// counted from `lo`.
fn first_occurrence(v: &Vec<char>, lo: usize, hi: usize, n: &Vec<char>) -> (r: Option<usize>)
    requires
        lo <= hi <= v@.len(),
    ensures
        match r {
            Some(i) => occurs_at(v@.subrange(lo as int, hi as int), n@, i as int) && forall|j: int|
                0 <= j < i ==> !occurs_at(v@.subrange(lo as int, hi as int), n@, j),
            None => !contains(v@.subrange(lo as int, hi as int), n@),
        },
{
    let ghost h = v@.subrange(lo as int, hi as int);
    if n.len() > hi - lo {
        assert forall|j: int| !occurs_at(h, n@, j) by {}
        return None;
    }
    if n.len() == 0 {
        assert(h.subrange(0, 0) =~= n@);
        return Some(0);
    }
    let last = hi - lo - n.len();
    let mut i: usize = 0;
    while i <= last
        invariant
            lo <= hi <= v@.len(),
            h == v@.subrange(lo as int, hi as int),
            last == hi - lo - n@.len(),
            n@.len() >= 1,
            i <= last + 1,
            forall|j: int| 0 <= j < i ==> !occurs_at(h, n@, j),
        decreases last + 1 - i,
    {
        if range_eq(v, lo + i, lo + i + n.len(), n) {
            assert(h.subrange(i as int, i + n@.len()) == v@.subrange(lo + i, lo + i + n@.len()));
            return Some(i);
        }
        assert(h.subrange(i as int, i + n@.len()) == v@.subrange(lo + i, lo + i + n@.len()));
        i = i + 1;
    }
    assert forall|j: int| !occurs_at(h, n@, j) by {
        if 0 <= j && j + n@.len() <= h.len() {
            assert(j < i);
        }
    }
    None
}

/// Whether `n` occurs in `v[lo..hi]`.
pub fn contains_in(v: &Vec<char>, lo: usize, hi: usize, n: &Vec<char>) -> (b: bool)
    requires
        lo <= hi <= v@.len(),
    ensures
        b == contains(v@.subrange(lo as int, hi as int), n@),
{
    match first_occurrence(v, lo, hi, n) {
        Some(_) => true,
        None => false,
    }
}

/// The first index of `n` in `v[lo..hi]`, counted from `lo` (as `str::find`).
pub fn find_in(v: &Vec<char>, lo: usize, hi: usize, n: &Vec<char>) -> (r: Option<usize>)
    requires
        lo <= hi <= v@.len(),
    ensures
        match r {
            Some(i) => find(v@.subrange(lo as int, hi as int), n@) == Some(i as int) && occurs_at(
                v@.subrange(lo as int, hi as int),
                n@,
                i as int,
            ),
            None => find(v@.subrange(lo as int, hi as int), n@) is None,
        },
{
    reveal(find);
    let ghost h = v@.subrange(lo as int, hi as int);
    let r = first_occurrence(v, lo, hi, n);
    proof {
        if let Some(i) = r {
            let c = choose|c: int| occurs_at(h, n@, c) && forall|j: int| 0 <= j < c ==> !occurs_at(h, n@, j);
            assert(occurs_at(h, n@, c));
            if c < i {
                assert(!occurs_at(h, n@, c));
            }
            if i < c {
                assert(!occurs_at(h, n@, i as int));
            }
        }
    }
    r
}

/// Whether `v[lo..hi]` starts with `p`.
pub fn starts_with_in(v: &Vec<char>, lo: usize, hi: usize, p: &Vec<char>) -> (b: bool)
    requires
        lo <= hi <= v@.len(),
    ensures
        b == starts_with(v@.subrange(lo as int, hi as int), p@),
{
    if p.len() > hi - lo {
        return false;
    }
    let b = range_eq(v, lo, lo + p.len(), p);
    assert(v@.subrange(lo as int, hi as int).take(p@.len() as int) == v@.subrange(
        lo as int,
        lo + p@.len(),
    ));
    b
}

/// Whether `v[lo..hi]` ends with `p`.
pub fn ends_with_in(v: &Vec<char>, lo: usize, hi: usize, p: &Vec<char>) -> (b: bool)
    requires
        lo <= hi <= v@.len(),
    ensures
        b == ends_with(v@.subrange(lo as int, hi as int), p@),
{
    if p.len() > hi - lo {
        return false;
    }
    let b = range_eq(v, hi - p.len(), hi, p);
    assert(v@.subrange(lo as int, hi as int).skip(hi - lo - p@.len()) == v@.subrange(
        hi - p@.len(),
        hi as int,
    ));
    b
}


// ---------------------------------------------------------------------------
// Numbers in text
// ---------------------------------------------------------------------------

/// A decimal digit `0`..`9`.
pub open spec fn is_digit(c: char) -> bool {
    '0' <= c <= '9'
}

/// The value of a decimal digit.
pub open spec fn digit_val(c: char) -> nat {
    (c as u32 - '0' as u32) as nat
}

/// A hexadecimal digit, in either case.
pub open spec fn is_hex_digit(c: char) -> bool {
    ('0' <= c <= '9') || ('a' <= c <= 'f') || ('A' <= c <= 'F')
}

/// The value of a hexadecimal digit.
pub open spec fn hex_digit_val(c: char) -> nat {
    if '0' <= c <= '9' {
        (c as u32 - '0' as u32) as nat
    } else if 'a' <= c <= 'f' {
        (c as u32 - 'a' as u32 + 10) as nat
    } else {
        (c as u32 - 'A' as u32 + 10) as nat
    }
}

/// The number that a string of digits in base `radix` (10 or 16) writes.
pub open spec fn digits_value(s: Seq<char>, radix: nat) -> nat
    decreases s.len(),
{
    if s.len() == 0 {
        0
    } else {
        radix * digits_value(s.drop_last(), radix) + (if radix == 16 {
            hex_digit_val(s.last())
        } else {
            digit_val(s.last())
        })
    }
}

/// Every character of `s` is a digit of base `radix` (10 or 16).
pub open spec fn all_digits(s: Seq<char>, radix: nat) -> bool {
    forall|i: int|
        0 <= i < s.len() ==> if radix == 16 {
            is_hex_digit(#[trigger] s[i])
        } else {
            is_digit(s[i])
        }
}

/// The digits of an unsigned number written with an optional leading `+`.
pub open spec fn unsigned_body(s: Seq<char>) -> Seq<char> {
    if s.len() > 0 && s[0] == '+' {
        s.drop_first()
    } else {
        s
    }
}

/// The value of `s` read as an unsigned integer in base `radix` the way
/// `str::parse` and `from_str_radix` read it: an optional `+`, then at least
/// one digit. The bound of the integer type is checked separately.
#[verifier::opaque]
pub open spec fn parse_unsigned(s: Seq<char>, radix: nat) -> Option<nat> {
    let d = unsigned_body(s);
    if d.len() > 0 && all_digits(d, radix) {
        Some(digits_value(d, radix))
    } else {
        None
    }
}

/// `parse_unsigned` within an upper bound, as an integer type of that range reads it.
pub open spec fn parse_bounded(s: Seq<char>, radix: nat, max: nat) -> Option<nat> {
    match parse_unsigned(s, radix) {
        Some(n) => if n <= max {
            Some(n)
        } else {
            None
        },
        None => None,
    }
}

/// `str::parse::<u64>`.
pub open spec fn parse_u64(s: Seq<char>) -> Option<u64> {
    match parse_bounded(s, 10, u64::MAX as nat) {
        Some(n) => Some(n as u64),
        None => None,
    }
}

/// `str::parse::<u16>`.
pub open spec fn parse_u16(s: Seq<char>) -> Option<u16> {
    match parse_bounded(s, 10, u16::MAX as nat) {
        Some(n) => Some(n as u16),
        None => None,
    }
}

/// `u16::from_str_radix(s, 16)`.
pub open spec fn parse_hex_u16(s: Seq<char>) -> Option<u16> {
    match parse_bounded(s, 16, u16::MAX as nat) {
        Some(n) => Some(n as u16),
        None => None,
    }
}

/// `u32::from_str_radix(s, 16)`.
pub open spec fn parse_hex_u32(s: Seq<char>) -> Option<u32> {
    match parse_bounded(s, 16, u32::MAX as nat) {
        Some(n) => Some(n as u32),
        None => None,
    }
}

/// `str::parse::<i32>`: an optional sign, then at least one digit, within
/// the range of `i32`.
pub open spec fn parse_i32(s: Seq<char>) -> Option<i32> {
    if s.len() > 0 && s[0] == '-' {
        let d = s.drop_first();
        if d.len() > 0 && all_digits(d, 10) && digits_value(d, 10) <= 0x8000_0000 {
            Some((-digits_value(d, 10)) as i32)
        } else {
            None
        }
    } else {
        match parse_bounded(s, 10, i32::MAX as nat) {
            Some(n) => Some(n as i32),
            None => None,
        }
    }
}

proof fn lemma_digits_value_step(s: Seq<char>, i: int, radix: nat)
    requires
        0 <= i < s.len(),
    ensures
        digits_value(s.take(i + 1), radix) == radix * digits_value(s.take(i), radix) + (if radix
            == 16 {
            hex_digit_val(s[i])
        } else {
            digit_val(s[i])
        }),
{
    assert(s.take(i + 1).drop_last() == s.take(i));
}

/// The digits of `v[lo..hi]` in base `radix` (10 or 16), as a number no
/// greater than `max`; `None` when a character is not a digit, when there
/// is no digit, or when the number exceeds `max`.
fn digits_in(v: &Vec<char>, lo: usize, hi: usize, radix: u32, max: u64) -> (r: Option<u64>)
    requires
        lo <= hi <= v@.len(),
        radix == 10 || radix == 16,
    ensures
        ({
            let d = v@.subrange(lo as int, hi as int);
            r == if d.len() > 0 && all_digits(d, radix as nat) && digits_value(d, radix as nat)
                <= max {
                Some(digits_value(d, radix as nat) as u64)
            } else {
                None
            }
        }),
{
    let ghost d = v@.subrange(lo as int, hi as int);
    if lo == hi {
        return None;
    }
    let cap: u128 = max as u128 + 1;
    let mut acc: u128 = 0;
    let mut i: usize = lo;
    while i < hi
        invariant
            lo <= i <= hi <= v@.len(),
            d == v@.subrange(lo as int, hi as int),
            radix == 10 || radix == 16,
            cap == max + 1,
            forall|j: int| lo <= j < i ==> if radix == 16 {
                is_hex_digit(#[trigger] v@[j])
            } else {
                is_digit(v@[j])
            },
            acc == if digits_value(d.take(i - lo), radix as nat) < cap {
                digits_value(d.take(i - lo), radix as nat)
            } else {
                cap as nat
            },
        decreases hi - i,
    {
        let c = v[i];
        let dv: u32;
        if radix == 16 {
            if '0' <= c && c <= '9' {
                dv = (c as u32) - ('0' as u32);
            } else if 'a' <= c && c <= 'f' {
                dv = (c as u32) - ('a' as u32) + 10;
            } else if 'A' <= c && c <= 'F' {
                dv = (c as u32) - ('A' as u32) + 10;
            } else {
                assert(!is_hex_digit(d[i - lo]));
                return None;
            }
        } else {
            if '0' <= c && c <= '9' {
                dv = (c as u32) - ('0' as u32);
            } else {
                assert(!is_digit(d[i - lo]));
                return None;
            }
        }
        proof {
            lemma_digits_value_step(d, i - lo, radix as nat);
            assert(d[i - lo] == c);
        }
        let next = (radix as u128) * acc + (dv as u128);
        acc = if next < cap {
            next
        } else {
            cap
        };
        i = i + 1;
    }
    assert(d.take(hi - lo) == d);
    assert(all_digits(d, radix as nat)) by {
        assert forall|j: int| 0 <= j < d.len() implies if radix == 16 {
            is_hex_digit(#[trigger] d[j])
        } else {
            is_digit(d[j])
        } by {
            assert(d[j] == v@[lo + j]);
        }
    }
    if acc <= max as u128 {
        Some(acc as u64)
    } else {
        None
    }
}

/// `str::parse::<u64>` on `v[lo..hi]`.
pub fn parse_u64_in(v: &Vec<char>, lo: usize, hi: usize) -> (r: Option<u64>)
    requires
        lo <= hi <= v@.len(),
    ensures
        r == parse_u64(v@.subrange(lo as int, hi as int)),
{
    reveal(parse_unsigned);
    let ghost s = v@.subrange(lo as int, hi as int);
    let start = if lo < hi && v[lo] == '+' {
        lo + 1
    } else {
        lo
    };
    assert(unsigned_body(s) == v@.subrange(start as int, hi as int));
    digits_in(v, start, hi, 10, u64::MAX)
}

/// `str::parse::<u16>` on `v[lo..hi]`.
pub fn parse_u16_in(v: &Vec<char>, lo: usize, hi: usize) -> (r: Option<u16>)
    requires
        lo <= hi <= v@.len(),
    ensures
        r == parse_u16(v@.subrange(lo as int, hi as int)),
{
    reveal(parse_unsigned);
    let ghost s = v@.subrange(lo as int, hi as int);
    let start = if lo < hi && v[lo] == '+' {
        lo + 1
    } else {
        lo
    };
    assert(unsigned_body(s) == v@.subrange(start as int, hi as int));
    match digits_in(v, start, hi, 10, 0xffff) {
        Some(n) => Some(n as u16),
        None => None,
    }
}

/// `u16::from_str_radix(.., 16)` on `v[lo..hi]`.
pub fn parse_hex_u16_in(v: &Vec<char>, lo: usize, hi: usize) -> (r: Option<u16>)
    requires
        lo <= hi <= v@.len(),
    ensures
        r == parse_hex_u16(v@.subrange(lo as int, hi as int)),
{
    reveal(parse_unsigned);
    let ghost s = v@.subrange(lo as int, hi as int);
    let start = if lo < hi && v[lo] == '+' {
        lo + 1
    } else {
        lo
    };
    assert(unsigned_body(s) == v@.subrange(start as int, hi as int));
    match digits_in(v, start, hi, 16, 0xffff) {
        Some(n) => Some(n as u16),
        None => None,
    }
}

/// `u32::from_str_radix(.., 16)` on `v[lo..hi]`.
pub fn parse_hex_u32_in(v: &Vec<char>, lo: usize, hi: usize) -> (r: Option<u32>)
    requires
        lo <= hi <= v@.len(),
    ensures
        r == parse_hex_u32(v@.subrange(lo as int, hi as int)),
{
    reveal(parse_unsigned);
    let ghost s = v@.subrange(lo as int, hi as int);
    let start = if lo < hi && v[lo] == '+' {
        lo + 1
    } else {
        lo
    };
    assert(unsigned_body(s) == v@.subrange(start as int, hi as int));
    match digits_in(v, start, hi, 16, 0xffff_ffff) {
        Some(n) => Some(n as u32),
        None => None,
    }
}

/// `str::parse::<i32>` on `v[lo..hi]`.
pub fn parse_i32_in(v: &Vec<char>, lo: usize, hi: usize) -> (r: Option<i32>)
    requires
        lo <= hi <= v@.len(),
    ensures
        r == parse_i32(v@.subrange(lo as int, hi as int)),
{
    reveal(parse_unsigned);
    let ghost s = v@.subrange(lo as int, hi as int);
    if lo < hi && v[lo] == '-' {
        assert(s.drop_first() == v@.subrange(lo + 1, hi as int));
        match digits_in(v, lo + 1, hi, 10, 0x8000_0000) {
            Some(n) => Some((0i64 - n as i64) as i32),
            None => None,
        }
    } else {
        let start = if lo < hi && v[lo] == '+' {
            lo + 1
        } else {
            lo
        };
        assert(unsigned_body(s) == v@.subrange(start as int, hi as int));
        match digits_in(v, start, hi, 10, 0x7fff_ffff) {
            Some(n) => Some(n as i32),
            None => None,
        }
    }
}

/// The character of a decimal digit.
pub open spec fn digit_char(d: nat) -> char {
    if d == 0 {
        '0'
    } else if d == 1 {
        '1'
    } else if d == 2 {
        '2'
    } else if d == 3 {
        '3'
    } else if d == 4 {
        '4'
    } else if d == 5 {
        '5'
    } else if d == 6 {
        '6'
    } else if d == 7 {
        '7'
    } else if d == 8 {
        '8'
    } else {
        '9'
    }
}

fn digit_to_char(d: u64) -> (c: char)
    requires
        d < 10,
    ensures
        c == digit_char(d as nat),
{
    if d == 0 {
        '0'
    } else if d == 1 {
        '1'
    } else if d == 2 {
        '2'
    } else if d == 3 {
        '3'
    } else if d == 4 {
        '4'
    } else if d == 5 {
        '5'
    } else if d == 6 {
        '6'
    } else if d == 7 {
        '7'
    } else if d == 8 {
        '8'
    } else {
        '9'
    }
}

/// The decimal writing of `n`, without leading zeros (as `Display`).
pub open spec fn dec(n: nat) -> Seq<char>
    decreases n,
{
    if n < 10 {
        seq![digit_char(n)]
    } else {
        dec(n / 10).push(digit_char(n % 10))
    }
}

/// The decimal writing of a signed integer (as `Display`).
pub open spec fn dec_int(n: int) -> Seq<char> {
    if n < 0 {
        seq!['-'] + dec((-n) as nat)
    } else {
        dec(n as nat)
    }
}

/// Appends the decimal writing of `n` to `out`.
pub fn push_dec(out: &mut String, n: u64)
    ensures
        final(out)@ == old(out)@ + dec(n as nat),
    decreases n,
{
    if n >= 10 {
        push_dec(out, n / 10);
    }
    push_char(out, digit_to_char(n % 10));
    proof {
        if n >= 10 {
            assert(dec(n as nat) == dec((n / 10) as nat).push(digit_char((n % 10) as nat)));
        } else {
            assert(dec(n as nat) == seq![digit_char(n as nat)]);
        }
    }
}

/// Appends the decimal writing of `n` to `out`.
pub fn push_dec_i32(out: &mut String, n: i32)
    ensures
        final(out)@ == old(out)@ + dec_int(n as int),
{
    if n < 0 {
        push_char(out, '-');
        let m: i64 = 0i64 - (n as i64);
        push_dec(out, m as u64);
        assert(seq!['-'] + dec((-n) as nat) == seq!['-'].add(dec((-n) as nat)));
    } else {
        push_dec(out, n as u64);
    }
}

/// The decimal writing of `n`.
pub fn dec_string(n: u64) -> (s: String)
    ensures
        s@ == dec(n as nat),
{
    let mut s = String::new();
    push_dec(&mut s, n);
    s
}

// ---------------------------------------------------------------------------
// Laws of numbers in text
// ---------------------------------------------------------------------------

proof fn lemma_digit_char(d: nat)
    requires
        d < 10,
    ensures
        is_digit(digit_char(d)),
        digit_val(digit_char(d)) == d,
{
}

proof fn lemma_dec_digits(n: nat)
    ensures
        dec(n).len() > 0,
        dec(n)[0] != '+',
        all_digits(dec(n), 10),
        digits_value(dec(n), 10) == n,
    decreases n,
{
    lemma_digit_char(n % 10);
    if n >= 10 {
        lemma_dec_digits(n / 10);
        let s = dec(n);
        assert(s.drop_last() == dec(n / 10));
        assert(forall|i: int| 0 <= i < s.len() - 1 ==> s[i] == dec(n / 10)[i]);
        assert(s.last() == digit_char(n % 10));
        assert(digits_value(s, 10) == 10 * digits_value(dec(n / 10), 10) + digit_val(s.last()));
        assert(10 * (n / 10) + n % 10 == n);
    } else {
        assert(digits_value(dec(n), 10) == 10 * digits_value(dec(n).drop_last(), 10) + digit_val(
            dec(n).last(),
        ));
        assert(dec(n).drop_last().len() == 0);
    }
}

/// Reading back the decimal writing of a number gives the number: what a
/// finding prints can be parsed again.
pub proof fn law_dec_parse_roundtrip(n: nat)
    ensures
        parse_unsigned(dec(n), 10) == Some(n),
{
    reveal(parse_unsigned);
    lemma_dec_digits(n);
}

} // verus!
