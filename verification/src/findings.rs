//! Findings and the overall risk score.
use vstd::prelude::*;
use crate::text::{owned, str_eq};

verus! {

/// One thing a check noticed.
pub struct Finding {
    pub kind: String,
    pub severity: String,
    pub title: String,
    pub detail: String,
    pub iocs: Vec<String>,
    /// Points this finding adds to the raw score, in tenths of a point;
    /// `None` means the default for its severity.
    pub score: Option<u64>,
}

/// The contents of a finding.
pub struct FindingView {
    pub kind: Seq<char>,
    pub severity: Seq<char>,
    pub title: Seq<char>,
    pub detail: Seq<char>,
    pub iocs: Seq<Seq<char>>,
    pub score: Option<u64>,
}

/// The contents of a list of strings.
pub open spec fn strings_view(v: Seq<String>) -> Seq<Seq<char>> {
    v.map_values(|s: String| s@)
}

impl View for Finding {
    type V = FindingView;

    open spec fn view(&self) -> FindingView {
        FindingView {
            kind: self.kind@,
            severity: self.severity@,
            title: self.title@,
            detail: self.detail@,
            iocs: strings_view(self.iocs@),
            score: self.score,
        }
    }
}

/// The contents of a list of findings.
pub open spec fn views(v: Seq<Finding>) -> Seq<FindingView> {
    v.map_values(|f: Finding| f@)
}

/// One finding when `cond` holds, none otherwise.
pub open spec fn finding_if(cond: bool, f: FindingView) -> Seq<FindingView> {
    if cond {
        seq![f]
    } else {
        seq![]
    }
}

/// A finding with the given contents.
pub open spec fn mk(
    kind: Seq<char>,
    severity: Seq<char>,
    title: Seq<char>,
    detail: Seq<char>,
    iocs: Seq<Seq<char>>,
    score: Option<u64>,
) -> FindingView {
    FindingView { kind, severity, title, detail, iocs, score }
}

/// `f` with `s` added as its last IOC.
pub open spec fn added_ioc(f: FindingView, s: Seq<char>) -> FindingView {
    FindingView { iocs: f.iocs.push(s), ..f }
}

/// `f` with an explicit score.
pub open spec fn scored(f: FindingView, tenths: u64) -> FindingView {
    FindingView { score: Some(tenths), ..f }
}

/// `views` of a list grows by one with `push`.
pub proof fn lemma_views_push(v: Seq<Finding>, f: Finding)
    ensures
        views(v.push(f)) == views(v).push(f@),
{
    assert(views(v.push(f)) =~= views(v).push(f@));
}

/// `views` of a concatenation.
pub proof fn lemma_views_add(a: Seq<Finding>, b: Seq<Finding>)
    ensures
        views(a + b) == views(a) + views(b),
{
    assert(views(a + b) =~= views(a) + views(b));
}

/// Appends `more` to `out`, keeping their order.
pub fn extend_findings(out: &mut Vec<Finding>, more: Vec<Finding>)
    ensures
        views(final(out)@) == views(old(out)@) + views(more@),
{
    let mut more = more;
    let ghost m = more@;
    let ghost start = out@;
    out.append(&mut more);
    proof {
        lemma_views_add(start, m);
    }
}

impl Finding {
    /// A finding with no IOCs and the default score of its severity.
    pub fn new(kind: &str, severity: &str, title: &str, detail: &str) -> (f: Finding)
        ensures
            f@ == mk(kind@, severity@, title@, detail@, seq![], None),
    {
        let f = Finding {
            kind: owned(kind),
            severity: owned(severity),
            title: owned(title),
            detail: owned(detail),
            iocs: Vec::new(),
            score: None,
        };
        assert(strings_view(f.iocs@) =~= Seq::<Seq<char>>::empty());
        f
    }

    /// The same finding with `s` added as its last IOC.
    pub fn ioc(self, s: &str) -> (f: Finding)
        ensures
            f@ == added_ioc(self@, s@),
    {
        let mut f = self;
        let ghost before = f.iocs@;
        f.iocs.push(owned(s));
        assert(strings_view(f.iocs@) =~= strings_view(before).push(s@));
        f
    }

    /// The same finding with an explicit score, in tenths of a point.
    pub fn with_score(self, tenths: u64) -> (f: Finding)
        ensures
            f@ == scored(self@, tenths),
    {
        let mut f = self;
        f.score = Some(tenths);
        f
    }
}

/// Default points of a severity, in tenths of a point.
pub open spec fn severity_points(sev: Seq<char>) -> nat {
    if sev == "critical"@ {
        350
    } else if sev == "high"@ {
        180
    } else if sev == "medium"@ {
        80
    } else if sev == "low"@ {
        30
    } else {
        5
    }
}

/// Default points of a severity, in tenths of a point.
pub fn sev_points(sev: &str) -> (p: u64)
    ensures
        p == severity_points(sev@),
{
    if str_eq(sev, "critical") {
        350
    } else if str_eq(sev, "high") {
        180
    } else if str_eq(sev, "medium") {
        80
    } else if str_eq(sev, "low") {
        30
    } else {
        5
    }
}

/// Points that a finding adds to the raw score, in tenths.
pub open spec fn points(f: FindingView) -> nat {
    match f.score {
        Some(t) => t as nat,
        None => severity_points(f.severity),
    }
}

/// Sum of the points of all findings, in tenths.
pub open spec fn raw_points(fs: Seq<FindingView>) -> nat
    decreases fs.len(),
{
    if fs.len() == 0 {
        0
    } else {
        raw_points(fs.drop_last()) + points(fs.last())
    }
}

/// Some finding is of severity `critical`.
pub open spec fn has_critical(fs: Seq<FindingView>) -> bool {
    exists|i: int| 0 <= i < fs.len() && #[trigger] fs[i].severity == "critical"@
}

/// The risk, in hundredths of a point out of 100: six tenths of the raw
/// points, capped at 100, and at least 60 when something is critical.
pub open spec fn risk(fs: Seq<FindingView>) -> nat {
    let r = if 6 * raw_points(fs) < 10000 {
        6 * raw_points(fs)
    } else {
        10000
    };
    if has_critical(fs) && r < 6000 {
        6000
    } else {
        r
    }
}

/// The level that names a risk given in hundredths.
pub open spec fn level_of(risk: nat) -> Seq<char> {
    if risk >= 8000 {
        "critical"@
    } else if risk >= 6000 {
        "high"@
    } else if risk >= 3500 {
        "medium"@
    } else if risk >= 1500 {
        "low"@
    } else {
        "info"@
    }
}

/// The risk of a list of findings, in hundredths of a point out of 100, and
/// its level.
pub fn score(findings: &Vec<Finding>) -> (r: (u64, String))
    ensures
        r.0 == risk(views(findings@)),
        r.1@ == level_of(r.0 as nat),
{
    let ghost fs = views(findings@);
    let cap: u128 = 2000;
    let mut raw: u128 = 0;
    let mut has_crit = false;
    let mut i: usize = 0;
    while i < findings.len()
        invariant
            i <= findings@.len(),
            fs == views(findings@),
            cap == 2000,
            raw == if raw_points(fs.take(i as int)) < cap {
                raw_points(fs.take(i as int))
            } else {
                cap as nat
            },
            has_crit == has_critical(fs.take(i as int)),
        decreases findings@.len() - i,
    {
        let f = &findings[i];
        let is_crit = str_eq(f.severity.as_str(), "critical");
        let p: u64 = match f.score {
            Some(t) => t,
            None => sev_points(f.severity.as_str()),
        };
        proof {
            assert(fs.take(i + 1).drop_last() == fs.take(i as int));
            assert(fs.take(i + 1).last() == f@);
            if is_crit {
                assert(fs.take(i + 1)[i as int].severity == "critical"@);
            }
            if has_critical(fs.take(i + 1)) && !is_crit {
                let k = choose|k: int|
                    0 <= k < fs.take(i + 1).len() && #[trigger] fs.take(i + 1)[k].severity
                        == "critical"@;
                assert(k < i);
                assert(fs.take(i as int)[k] == fs.take(i + 1)[k]);
            }
            if has_critical(fs.take(i as int)) {
                let k = choose|k: int|
                    0 <= k < fs.take(i as int).len() && #[trigger] fs.take(i as int)[k].severity
                        == "critical"@;
                assert(fs.take(i + 1)[k] == fs.take(i as int)[k]);
            }
        }
        if is_crit {
            has_crit = true;
        }
        let next = raw + (p as u128);
        raw = if next < cap {
            next
        } else {
            cap
        };
        i = i + 1;
    }
    assert(fs.take(findings@.len() as int) == fs);
    let six: u128 = 6 * raw;
    let mut risk_h: u64 = if six < 10000 {
        six as u64
    } else {
        10000
    };
    if has_crit && risk_h < 6000 {
        risk_h = 6000;
    }
    let level = if risk_h >= 8000 {
        owned("critical")
    } else if risk_h >= 6000 {
        owned("high")
    } else if risk_h >= 3500 {
        owned("medium")
    } else if risk_h >= 1500 {
        owned("low")
    } else {
        owned("info")
    };
    (risk_h, level)
}

/// Levels at which a scan ends with a non-zero status: `medium`, `high`
/// and `critical`.
pub open spec fn is_alert(level: Seq<char>) -> bool {
    level == "medium"@ || level == "high"@ || level == "critical"@
}

/// Whether a scan at this level should end with a non-zero status.
pub fn is_alert_level(level: &str) -> (b: bool)
    ensures
        b == is_alert(level@),
{
    str_eq(level, "medium") || str_eq(level, "high") || str_eq(level, "critical")
}

// ---------------------------------------------------------------------------
// Laws of the score
// ---------------------------------------------------------------------------

/// The risk never exceeds 100 (10000 hundredths).
pub proof fn law_risk_at_most_100(fs: Seq<FindingView>)
    ensures
        risk(fs) <= 10000,
{
}

/// A critical finding puts the risk at 60 or more, so the level is `high`
/// or `critical`.
pub proof fn law_critical_floor(fs: Seq<FindingView>)
    requires
        has_critical(fs),
    ensures
        risk(fs) >= 6000,
        level_of(risk(fs)) == "high"@ || level_of(risk(fs)) == "critical"@,
{
}

/// Adding a finding never lowers the risk.
pub proof fn law_risk_monotone(fs: Seq<FindingView>, f: FindingView)
    ensures
        risk(fs) <= risk(fs.push(f)),
{
    assert(fs.push(f).drop_last() == fs);
    if has_critical(fs) {
        let k = choose|k: int| 0 <= k < fs.len() && #[trigger] fs[k].severity == "critical"@;
        assert(fs.push(f)[k] == fs[k]);
    }
}

/// A scan alerts exactly when its risk is 35 or more.
pub proof fn law_alert_threshold(r: nat)
    ensures
        is_alert(level_of(r)) <==> r >= 3500,
{
    reveal_strlit("critical");
    reveal_strlit("high");
    reveal_strlit("medium");
    reveal_strlit("low");
    reveal_strlit("info");
    assert("low"@.len() == 3);
    assert("medium"@.len() == 6);
    assert("critical"@.len() == 8);
    assert("info"@[0] != "high"@[0]);
}

/// A finding without an explicit score adds the default points of its
/// severity, whatever its kind: 35 for `critical`, 18 for `high`, 8 for
/// `medium`, 3 for `low` and 0.5 otherwise (in tenths).
pub proof fn law_default_points_follow_severity(f: FindingView)
    requires
        f.score is None,
    ensures
        f.severity == "critical"@ ==> points(f) == 350,
        f.severity == "high"@ ==> points(f) == 180,
        f.severity == "medium"@ ==> points(f) == 80,
        f.severity == "low"@ ==> points(f) == 30,
        f.severity != "critical"@ && f.severity != "high"@ && f.severity != "medium"@
            && f.severity != "low"@ ==> points(f) == 5,
{
    reveal_strlit("critical");
    reveal_strlit("high");
    reveal_strlit("medium");
    reveal_strlit("low");
    assert("critical"@.len() == 8 && "high"@.len() == 4 && "medium"@.len() == 6 && "low"@.len() == 3);
}

/// `f` with another kind.
pub open spec fn with_kind(f: FindingView, kind: Seq<char>) -> FindingView {
    FindingView { kind, ..f }
}

proof fn lemma_raw_ignores_kind(fs: Seq<FindingView>, i: int, kind: Seq<char>)
    requires
        0 <= i < fs.len(),
    ensures
        raw_points(fs.update(i, with_kind(fs[i], kind))) == raw_points(fs),
    decreases fs.len(),
{
    let g = fs.update(i, with_kind(fs[i], kind));
    if i < fs.len() - 1 {
        lemma_raw_ignores_kind(fs.drop_last(), i, kind);
        assert(g.drop_last() =~= fs.drop_last().update(i, with_kind(fs[i], kind)));
        assert(g.last() == fs.last());
    } else {
        assert(g.drop_last() =~= fs.drop_last());
        assert(points(g.last()) == points(fs.last()));
    }
}

/// The kind of a finding does not change the risk: the risk depends on the
/// severities and scores only.
pub proof fn law_kind_does_not_change_risk(fs: Seq<FindingView>, i: int, kind: Seq<char>)
    requires
        0 <= i < fs.len(),
    ensures
        risk(fs.update(i, with_kind(fs[i], kind))) == risk(fs),
{
    let g = fs.update(i, with_kind(fs[i], kind));
    lemma_raw_ignores_kind(fs, i, kind);
    if has_critical(fs) {
        let k = choose|k: int| 0 <= k < fs.len() && #[trigger] fs[k].severity == "critical"@;
        assert(g[k].severity == "critical"@);
    }
    if has_critical(g) {
        let k = choose|k: int| 0 <= k < g.len() && #[trigger] g[k].severity == "critical"@;
        assert(fs[k].severity == "critical"@);
    }
}

proof fn lemma_raw_all_high(fs: Seq<FindingView>)
    requires
        forall|i: int| 0 <= i < fs.len() ==> (#[trigger] fs[i]).score is None && fs[i].severity == "high"@,
    ensures
        raw_points(fs) == 180 * fs.len(),
    decreases fs.len(),
{
    if fs.len() > 0 {
        lemma_raw_all_high(fs.drop_last());
        assert(fs.last() == fs[fs.len() - 1]);
        reveal_strlit("high");
        reveal_strlit("critical");
        assert("high"@.len() != "critical"@.len());
    }
}

/// `n` unscored high findings give a risk of 10.8 per finding, capped at
/// 100: four of them give 43.2, level `medium`.
pub proof fn law_unscored_high_findings(fs: Seq<FindingView>)
    requires
        forall|i: int| 0 <= i < fs.len() ==> (#[trigger] fs[i]).score is None && fs[i].severity == "high"@,
    ensures
        risk(fs) == if 1080 * fs.len() < 10000 {
            1080 * fs.len()
        } else {
            10000
        },
{
    lemma_raw_all_high(fs);
    reveal_strlit("high");
    reveal_strlit("critical");
    if has_critical(fs) {
        let k = choose|k: int| 0 <= k < fs.len() && #[trigger] fs[k].severity == "critical"@;
        assert(fs[k].severity == "high"@);
        assert("high"@.len() != "critical"@.len());
    }
}

} // verus!
