//! The text report of a scan, with findings from most to least severe.
use vstd::prelude::*;
use crate::findings::{Finding, FindingView, views, strings_view};
use crate::text::{
    chars_of, push_str, push_dec, dec, digit_char, join, join_strings, owned, str_eq, push_char,
};

verus! {

// ---------------------------------------------------------------------------
// Severity order
// ---------------------------------------------------------------------------

/// The rank of a severity: critical 4, high 3, medium 2, low 1, others 0.
pub open spec fn severity_rank(s: Seq<char>) -> nat {
    if s == "critical"@ {
        4
    } else if s == "high"@ {
        3
    } else if s == "medium"@ {
        2
    } else if s == "low"@ {
        1
    } else {
        0
    }
}

/// The rank of a severity (see `severity_rank`).
pub fn sev_rank(s: &str) -> (r: u8)
    ensures
        r as nat == severity_rank(s@),
{
    if str_eq(s, "critical") {
        4
    } else if str_eq(s, "high") {
        3
    } else if str_eq(s, "medium") {
        2
    } else if str_eq(s, "low") {
        1
    } else {
        0
    }
}

/// The indices below `n` of the findings of rank `r`, in increasing order.
pub open spec fn rank_indices(fs: Seq<FindingView>, r: nat, n: int) -> Seq<int>
    decreases n,
{
    if n <= 0 {
        seq![]
    } else {
        rank_indices(fs, r, n - 1) + if severity_rank(fs[n - 1].severity) == r {
            seq![n - 1]
        } else {
            seq![]
        }
    }
}

/// The order in which the report lists the findings: by rank from 4 down
/// to 0, keeping the order of the list within a rank (a stable sort from most
/// to least severe).
pub open spec fn severity_order(fs: Seq<FindingView>) -> Seq<int> {
    let n = fs.len() as int;
    rank_indices(fs, 4, n) + rank_indices(fs, 3, n) + rank_indices(fs, 2, n) + rank_indices(
        fs,
        1,
        n,
    ) + rank_indices(fs, 0, n)
}

/// The order in which the report lists the findings (see `severity_order`).
pub fn sorted_order(findings: &Vec<Finding>) -> (r: Vec<usize>)
    ensures
        r@.map_values(|i: usize| i as int) == severity_order(views(findings@)),
{
    let ghost fs = views(findings@);
    let n = findings.len();
    let mut ranks: Vec<u8> = Vec::new();
    let mut i: usize = 0;
    while i < n
        invariant
            i <= n == findings@.len(),
            fs == views(findings@),
            ranks@.len() == i,
            forall|k: int| 0 <= k < i ==> #[trigger] ranks@[k] as nat == severity_rank(fs[k].severity),
        decreases n - i,
    {
        ranks.push(sev_rank(findings[i].severity.as_str()));
        i = i + 1;
    }
    let mut r: Vec<usize> = Vec::new();
    let mut rank: u8 = 5;
    let ghost mut done: Seq<int> = seq![];
    assert(r@.map_values(|i: usize| i as int) =~= done);
    while rank > 0
        invariant
            rank <= 5,
            n == findings@.len(),
            fs == views(findings@),
            ranks@.len() == n,
            forall|k: int| 0 <= k < n ==> #[trigger] ranks@[k] as nat == severity_rank(fs[k].severity),
            r@.map_values(|i: usize| i as int) == done,
            done == blocks_from(fs, rank as nat),
        decreases rank,
    {
        rank = rank - 1;
        let mut i: usize = 0;
        let ghost start = done;
        while i < n
            invariant
                i <= n,
                n == findings@.len(),
                ranks@.len() == n,
                forall|k: int| 0 <= k < n ==> #[trigger] ranks@[k] as nat == severity_rank(fs[k].severity),
                r@.map_values(|i: usize| i as int) == start + rank_indices(fs, rank as nat, i as int),
            decreases n - i,
        {
            let ghost before = r@;
            if ranks[i] == rank {
                r.push(i);
                assert(r@.map_values(|i: usize| i as int) =~= before.map_values(|i: usize| i as int).push(i as int));
            }
            i = i + 1;
        }
        proof {
            done = start + rank_indices(fs, rank as nat, n as int);
        }
    }
    assert(blocks_from(fs, 5) =~= Seq::<int>::empty());
    assert(blocks_from(fs, 4) == blocks_from(fs, 5) + rank_indices(fs, 4, n as int));
    assert(blocks_from(fs, 3) == blocks_from(fs, 4) + rank_indices(fs, 3, n as int));
    assert(blocks_from(fs, 2) == blocks_from(fs, 3) + rank_indices(fs, 2, n as int));
    assert(blocks_from(fs, 1) == blocks_from(fs, 2) + rank_indices(fs, 1, n as int));
    assert(blocks_from(fs, 0) == blocks_from(fs, 1) + rank_indices(fs, 0, n as int));
    assert(done =~= severity_order(fs));
    r
}

/// The blocks of ranks 4 down to `from` (exclusive of `from` itself and
/// above 4 nothing): `blocks_from(fs, 5)` is empty, `blocks_from(fs, 0)`
/// is the whole order.
pub open spec fn blocks_from(fs: Seq<FindingView>, from: nat) -> Seq<int>
    decreases 5 - from,
{
    if from >= 5 {
        seq![]
    } else {
        blocks_from(fs, from + 1) + rank_indices(fs, from, fs.len() as int)
    }
}

// ---------------------------------------------------------------------------
// Laws of the severity order
// ---------------------------------------------------------------------------

proof fn lemma_rank_indices(fs: Seq<FindingView>, r: nat, n: int)
    requires
        0 <= n <= fs.len(),
    ensures
        forall|k: int|
            0 <= k < rank_indices(fs, r, n).len() ==> 0 <= #[trigger] rank_indices(fs, r, n)[k] < n
                && severity_rank(fs[rank_indices(fs, r, n)[k]].severity) == r,
        forall|a: int, b: int|
            0 <= a < b < rank_indices(fs, r, n).len() ==> #[trigger] rank_indices(fs, r, n)[a]
                < #[trigger] rank_indices(fs, r, n)[b],
        forall|i: int|
            0 <= i < n && severity_rank(fs[i].severity) == r ==> #[trigger] rank_indices(
                fs,
                r,
                n,
            ).contains(i),
    decreases n,
{
    if n > 0 {
        lemma_rank_indices(fs, r, n - 1);
        let prev = rank_indices(fs, r, n - 1);
        let cur = rank_indices(fs, r, n);
        assert forall|i: int| 0 <= i < n && severity_rank(fs[i].severity) == r implies #[trigger] cur.contains(i) by {
            if i < n - 1 {
                assert(prev.contains(i));
                let k = choose|k: int| 0 <= k < prev.len() && prev[k] == i;
                assert(cur[k] == i);
            } else {
                assert(cur[prev.len() as int] == i);
            }
        }
        assert forall|k: int| 0 <= k < cur.len() implies 0 <= #[trigger] cur[k] < n && severity_rank(
            fs[cur[k]].severity,
        ) == r by {
            if k < prev.len() {
                assert(cur[k] == prev[k]);
            }
        }
        assert forall|a: int, b: int| 0 <= a < b < cur.len() implies #[trigger] cur[a] < #[trigger] cur[b] by {
            if b < prev.len() {
                assert(cur[a] == prev[a] && cur[b] == prev[b]);
            } else {
                assert(cur[a] == prev[a]);
            }
        }
    }
}

proof fn lemma_rank_bounded(s: Seq<char>)
    ensures
        severity_rank(s) <= 4,
{
}

/// The report lists every finding exactly once.
pub proof fn law_order_is_permutation(fs: Seq<FindingView>)
    ensures
        severity_order(fs).len() == fs.len(),
        severity_order(fs).no_duplicates(),
        forall|i: int| 0 <= i < fs.len() ==> #[trigger] severity_order(fs).contains(i),
        forall|k: int|
            0 <= k < severity_order(fs).len() ==> 0 <= #[trigger] severity_order(fs)[k] < fs.len(),
{
    let n = fs.len() as int;
    lemma_rank_indices(fs, 4, n);
    lemma_rank_indices(fs, 3, n);
    lemma_rank_indices(fs, 2, n);
    lemma_rank_indices(fs, 1, n);
    lemma_rank_indices(fs, 0, n);
    let o = severity_order(fs);
    let b4 = rank_indices(fs, 4, n);
    let b3 = rank_indices(fs, 3, n);
    let b2 = rank_indices(fs, 2, n);
    let b1 = rank_indices(fs, 1, n);
    let b0 = rank_indices(fs, 0, n);
    assert(o == b4 + b3 + b2 + b1 + b0);
    // Each index lies in the block of its rank.
    assert forall|k: int| 0 <= k < o.len() implies 0 <= #[trigger] o[k] < n && severity_rank(
        fs[o[k]].severity,
    ) == rank_at(o.len(), b4.len(), b3.len(), b2.len(), b1.len(), k) by {
        if k < b4.len() {
            assert(o[k] == b4[k]);
        } else if k < b4.len() + b3.len() {
            assert(o[k] == b3[k - b4.len()]);
        } else if k < b4.len() + b3.len() + b2.len() {
            assert(o[k] == b2[k - b4.len() - b3.len()]);
        } else if k < b4.len() + b3.len() + b2.len() + b1.len() {
            assert(o[k] == b1[k - b4.len() - b3.len() - b2.len()]);
        } else {
            assert(o[k] == b0[k - b4.len() - b3.len() - b2.len() - b1.len()]);
        }
    }
    assert forall|i: int| 0 <= i < n implies #[trigger] o.contains(i) by {
        lemma_rank_bounded(fs[i].severity);
        let r = severity_rank(fs[i].severity);
        if r == 4 {
            assert(b4.contains(i));
            let k = choose|k: int| 0 <= k < b4.len() && b4[k] == i;
            assert(o[k] == i);
        } else if r == 3 {
            assert(b3.contains(i));
            let k = choose|k: int| 0 <= k < b3.len() && b3[k] == i;
            assert(o[b4.len() + k] == i);
        } else if r == 2 {
            assert(b2.contains(i));
            let k = choose|k: int| 0 <= k < b2.len() && b2[k] == i;
            assert(o[b4.len() + b3.len() + k] == i);
        } else if r == 1 {
            assert(b1.contains(i));
            let k = choose|k: int| 0 <= k < b1.len() && b1[k] == i;
            assert(o[b4.len() + b3.len() + b2.len() + k] == i);
        } else {
            assert(b0.contains(i));
            let k = choose|k: int| 0 <= k < b0.len() && b0[k] == i;
            assert(o[b4.len() + b3.len() + b2.len() + b1.len() + k] == i);
        }
    }
    assert forall|a: int, b: int| 0 <= a < b < o.len() implies o[a] != o[b] by {
        lemma_order_pair(fs, a, b);
    }
    lemma_distinct_in_range_len(o, n);
}

/// Which block position `k` of the order falls in, as the rank of that block.
pub open spec fn rank_at(total: nat, l4: nat, l3: nat, l2: nat, l1: nat, k: int) -> nat {
    if k < l4 {
        4
    } else if k < l4 + l3 {
        3
    } else if k < l4 + l3 + l2 {
        2
    } else if k < l4 + l3 + l2 + l1 {
        1
    } else {
        0
    }
}

proof fn lemma_order_pair(fs: Seq<FindingView>, a: int, b: int)
    requires
        0 <= a < b < severity_order(fs).len(),
    ensures
        severity_rank(fs[severity_order(fs)[a]].severity) >= severity_rank(
            fs[severity_order(fs)[b]].severity,
        ),
        severity_rank(fs[severity_order(fs)[a]].severity) == severity_rank(
            fs[severity_order(fs)[b]].severity,
        ) ==> severity_order(fs)[a] < severity_order(fs)[b],
{
    let n = fs.len() as int;
    lemma_rank_indices(fs, 4, n);
    lemma_rank_indices(fs, 3, n);
    lemma_rank_indices(fs, 2, n);
    lemma_rank_indices(fs, 1, n);
    lemma_rank_indices(fs, 0, n);
    let o = severity_order(fs);
    let b4 = rank_indices(fs, 4, n);
    let b3 = rank_indices(fs, 3, n);
    let b2 = rank_indices(fs, 2, n);
    let b1 = rank_indices(fs, 1, n);
    let b0 = rank_indices(fs, 0, n);
    assert(o == b4 + b3 + b2 + b1 + b0);
    let c3 = b4.len() as int;
    let c2 = c3 + b3.len();
    let c1 = c2 + b2.len();
    let c0 = c1 + b1.len();
    if b < c3 {
        assert(o[a] == b4[a] && o[b] == b4[b]);
    } else if b < c2 {
        assert(o[b] == b3[b - c3]);
        if a >= c3 {
            assert(o[a] == b3[a - c3]);
        } else {
            assert(o[a] == b4[a]);
        }
    } else if b < c1 {
        assert(o[b] == b2[b - c2]);
        if a >= c2 {
            assert(o[a] == b2[a - c2]);
        } else if a >= c3 {
            assert(o[a] == b3[a - c3]);
        } else {
            assert(o[a] == b4[a]);
        }
    } else if b < c0 {
        assert(o[b] == b1[b - c1]);
        if a >= c1 {
            assert(o[a] == b1[a - c1]);
        } else if a >= c2 {
            assert(o[a] == b2[a - c2]);
        } else if a >= c3 {
            assert(o[a] == b3[a - c3]);
        } else {
            assert(o[a] == b4[a]);
        }
    } else {
        assert(o[b] == b0[b - c0]);
        if a >= c0 {
            assert(o[a] == b0[a - c0]);
        } else if a >= c1 {
            assert(o[a] == b1[a - c1]);
        } else if a >= c2 {
            assert(o[a] == b2[a - c2]);
        } else if a >= c3 {
            assert(o[a] == b3[a - c3]);
        } else {
            assert(o[a] == b4[a]);
        }
    }
}

proof fn lemma_distinct_in_range_len(o: Seq<int>, n: int)
    requires
        0 <= n,
        forall|a: int, b: int| 0 <= a < b < o.len() ==> o[a] != o[b],
        forall|k: int| 0 <= k < o.len() ==> 0 <= #[trigger] o[k] < n,
        forall|i: int| 0 <= i < n ==> #[trigger] o.contains(i),
    ensures
        o.len() == n,
        o.no_duplicates(),
{
    let s = o.to_set();
    assert(o.no_duplicates());
    o.unique_seq_to_set();
    assert(s =~= vstd::set_lib::set_int_range(0, n));
    vstd::set_lib::lemma_int_range(0, n);
}

/// The report lists findings from most to least severe, and findings of
/// equal severity in the order the checks produced them.
pub proof fn law_order_sorted_and_stable(fs: Seq<FindingView>, a: int, b: int)
    requires
        0 <= a < b < severity_order(fs).len(),
    ensures
        severity_rank(fs[severity_order(fs)[a]].severity) >= severity_rank(
            fs[severity_order(fs)[b]].severity,
        ),
        severity_rank(fs[severity_order(fs)[a]].severity) == severity_rank(
            fs[severity_order(fs)[b]].severity,
        ) ==> severity_order(fs)[a] < severity_order(fs)[b],
{
    lemma_order_pair(fs, a, b);
}


// ---------------------------------------------------------------------------
// The text report
// ---------------------------------------------------------------------------

/// A risk in hundredths written with one decimal (rounded half up), as
/// `{:.1}` writes the risk.
pub open spec fn fixed1(h: nat) -> Seq<char> {
    let t = (h + 5) / 10;
    dec(t / 10) + "."@ + seq![digit_char(t % 10)]
}

/// Appends a risk in hundredths, written with one decimal.
pub fn push_fixed1(out: &mut String, h: u64)
    requires
        h < u64::MAX - 5,
    ensures
        final(out)@ == old(out)@ + fixed1(h as nat),
{
    let t = (h + 5) / 10;
    push_dec(out, t / 10);
    push_str(out, ".");
    let d = t % 10;
    let c = crate::text::dec_string(d);
    assert(c@ == seq![digit_char(d as nat)]);
    push_str(out, c.as_str());
}

/// A risk in hundredths, written with one decimal (see `fixed1`).
pub fn format_risk(h: u64) -> (s: String)
    requires
        h < u64::MAX - 5,
    ensures
        s@ == fixed1(h as nat),
{
    let mut s = String::new();
    push_fixed1(&mut s, h);
    s
}

/// The report entry of the finding listed at position `pos` (from 1).
pub open spec fn entry_text(pos: nat, f: FindingView) -> Seq<char> {
    "["@ + dec(pos) + "] ["@ + f.severity + "] ("@ + f.kind + ") "@ + f.title + "\n    "@ + f.detail
        + "\n"@ + (if f.iocs.len() > 0 {
        "    iocs: "@ + join(f.iocs, ", "@) + "\n"@
    } else {
        seq![]
    }) + "\n"@
}

/// The entries of the first `n` findings in the order `order`.
pub open spec fn entries_text(fs: Seq<FindingView>, order: Seq<int>, n: int) -> Seq<char>
    decreases n,
{
    if n <= 0 {
        seq![]
    } else {
        entries_text(fs, order, n - 1) + entry_text(n as nat, fs[order[n - 1]])
    }
}

/// The head of the report.
pub open spec fn report_head(
    host: Seq<char>,
    kernel: Seq<char>,
    when: Seq<char>,
    risk: nat,
    level: Seq<char>,
    count: nat,
) -> Seq<char> {
    "krds scan report\n"@ + "host:   "@ + host + "\n"@ + "kernel: "@ + kernel + "\n"@ + "when:   "@
        + when + "\n"@ + "risk:   "@ + fixed1(risk) + "/100 ("@ + level + ")\n"@ + "count:  "@ + dec(
        count,
    ) + "\n\n"@
}

/// The text report: the head, the findings from most to least severe, and
/// a closing note.
pub open spec fn report_text(
    host: Seq<char>,
    kernel: Seq<char>,
    when: Seq<char>,
    risk: nat,
    level: Seq<char>,
    fs: Seq<FindingView>,
) -> Seq<char> {
    report_head(host, kernel, when, risk, level, fs.len()) + entries_text(
        fs,
        severity_order(fs),
        fs.len() as int,
    ) + "note: if the kernel is already owned, this tool can be lied to.\n"@
}

fn entry(pos: u64, f: &Finding) -> (s: String)
    ensures
        s@ == entry_text(pos as nat, f@),
{
    let mut s = owned("[");
    push_dec(&mut s, pos);
    push_str(&mut s, "] [");
    push_str(&mut s, f.severity.as_str());
    push_str(&mut s, "] (");
    push_str(&mut s, f.kind.as_str());
    push_str(&mut s, ") ");
    push_str(&mut s, f.title.as_str());
    push_str(&mut s, "\n    ");
    push_str(&mut s, f.detail.as_str());
    push_str(&mut s, "\n");
    let ghost mid = s@;
    let mut tail = String::new();
    if f.iocs.len() > 0 {
        push_str(&mut tail, "    iocs: ");
        let j = join_strings(&f.iocs, f.iocs.len(), ", ");
        assert(f.iocs@.take(f.iocs@.len() as int) == f.iocs@);
        assert(f.iocs@.map_values(|s: String| s@) == strings_view(f.iocs@));
        push_str(&mut tail, j.as_str());
        push_str(&mut tail, "\n");
    } else {
        assert(tail@ =~= Seq::<char>::empty());
    }
    push_str(&mut s, tail.as_str());
    push_str(&mut s, "\n");
    s
}

/// The text report of a scan (see `report_text`); `risk` is in hundredths.
pub fn render_text(
    host: &str,
    kernel: &str,
    when: &str,
    risk: u64,
    level: &str,
    findings: &Vec<Finding>,
) -> (s: String)
    requires
        risk < u64::MAX - 5,
    ensures
        s@ == report_text(host@, kernel@, when@, risk as nat, level@, views(findings@)),
{
    let ghost fs = views(findings@);
    let mut s = owned("krds scan report\n");
    push_str(&mut s, "host:   ");
    push_str(&mut s, host);
    push_str(&mut s, "\n");
    push_str(&mut s, "kernel: ");
    push_str(&mut s, kernel);
    push_str(&mut s, "\n");
    push_str(&mut s, "when:   ");
    push_str(&mut s, when);
    push_str(&mut s, "\n");
    push_str(&mut s, "risk:   ");
    push_fixed1(&mut s, risk);
    push_str(&mut s, "/100 (");
    push_str(&mut s, level);
    push_str(&mut s, ")\n");
    push_str(&mut s, "count:  ");
    push_dec(&mut s, findings.len() as u64);
    push_str(&mut s, "\n\n");
    let ghost head = s@;
    assert(head == report_head(host@, kernel@, when@, risk as nat, level@, fs.len()));
    let order = sorted_order(findings);
    let ghost ov = order@.map_values(|i: usize| i as int);
    proof {
        law_order_is_permutation(fs);
    }
    let mut k: usize = 0;
    while k < order.len()
        invariant
            k <= order@.len(),
            fs == views(findings@),
            ov == order@.map_values(|i: usize| i as int),
            ov == severity_order(fs),
            ov.len() == fs.len(),
            forall|j: int| 0 <= j < ov.len() ==> 0 <= #[trigger] ov[j] < fs.len(),
            s@ == head + entries_text(fs, ov, k as int),
        decreases order@.len() - k,
    {
        let idx = order[k];
        assert(ov[k as int] == idx as int);
        assert(idx < findings@.len());
        let e = entry((k + 1) as u64, &findings[idx]);
        assert(fs[idx as int] == findings@[idx as int]@);
        push_str(&mut s, e.as_str());
        assert(head + entries_text(fs, ov, k + 1) =~= head + entries_text(fs, ov, k as int) + e@);
        k = k + 1;
    }
    push_str(&mut s, "note: if the kernel is already owned, this tool can be lied to.\n");
    s
}

/// `when` with `:` dropped and `+` written as `_`, for file names.
pub open spec fn stamp_of(t: Seq<char>) -> Seq<char>
    decreases t.len(),
{
    if t.len() == 0 {
        seq![]
    } else {
        let c = t.last();
        stamp_of(t.drop_last()) + if c == ':' {
            seq![]
        } else if c == '+' {
            seq!['_']
        } else {
            seq![c]
        }
    }
}

/// The stamp of a scan's time for its file name (see `stamp_of`).
pub fn scan_stamp(when: &str) -> (r: String)
    ensures
        r@ == stamp_of(when@),
{
    let v = chars_of(when);
    let mut r = String::new();
    let mut i: usize = 0;
    while i < v.len()
        invariant
            i <= v@.len(),
            v@ == when@,
            r@ == stamp_of(v@.take(i as int)),
        decreases v@.len() - i,
    {
        let c = v[i];
        assert(v@.take(i + 1).drop_last() == v@.take(i as int));
        if c == ':' {
        } else if c == '+' {
            push_char(&mut r, '_');
        } else {
            push_char(&mut r, c);
        }
        i = i + 1;
    }
    assert(v@.take(v@.len() as int) == v@);
    r
}

} // verus!
