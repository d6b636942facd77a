use krds::findings::{is_alert_level, score, sev_points, Finding};

fn crit() -> Finding {
    Finding::new("modules", "critical", "t", "d")
}

#[test]
fn new_finding_has_no_iocs_and_no_score() {
    let f = Finding::new("network", "high", "title", "detail");
    assert_eq!(f.kind, "network");
    assert_eq!(f.severity, "high");
    assert_eq!(f.title, "title");
    assert_eq!(f.detail, "detail");
    assert!(f.iocs.is_empty());
    assert_eq!(f.score, None);
}

#[test]
fn ioc_and_score_builders_append_in_order() {
    let f = Finding::new("k", "low", "t", "d").ioc("a").ioc("b").with_score(25);
    assert_eq!(f.iocs, vec!["a".to_string(), "b".to_string()]);
    assert_eq!(f.score, Some(25));
}

#[test]
fn severity_points_in_tenths() {
    assert_eq!(sev_points("critical"), 350);
    assert_eq!(sev_points("high"), 180);
    assert_eq!(sev_points("medium"), 80);
    assert_eq!(sev_points("low"), 30);
    assert_eq!(sev_points("info"), 5);
    assert_eq!(sev_points("whatever"), 5);
}

#[test]
fn empty_scan_scores_zero_info() {
    let (risk, level) = score(&Vec::new());
    assert_eq!(risk, 0);
    assert_eq!(level, "info");
}

#[test]
fn single_critical_is_lifted_to_sixty() {
    // raw 35 points * 0.6 = 21, lifted to 60 because it is critical
    let (risk, level) = score(&vec![crit()]);
    assert_eq!(risk, 6000);
    assert_eq!(level, "high");
}

#[test]
fn explicit_scores_replace_severity_points() {
    // 8 + 7 points = 15 points, risk 9.0
    let fs = vec![
        Finding::new("a", "medium", "t", "d").with_score(80),
        Finding::new("a", "medium", "t", "d").with_score(70),
    ];
    let (risk, level) = score(&fs);
    assert_eq!(risk, 900);
    assert_eq!(level, "info");
}

#[test]
fn level_thresholds() {
    // 25 points -> 15.0 -> low
    let (r, l) = score(&vec![Finding::new("a", "x", "t", "d").with_score(250)]);
    assert_eq!((r, l.as_str()), (1500, "low"));
    // 24.9 points -> 14.94 -> info
    let (r, l) = score(&vec![Finding::new("a", "x", "t", "d").with_score(249)]);
    assert_eq!((r, l.as_str()), (1494, "info"));
    // 60 points -> 36.0 -> medium
    let (r, l) = score(&vec![Finding::new("a", "x", "t", "d").with_score(600)]);
    assert_eq!((r, l.as_str()), (3600, "medium"));
    // 100 points -> 60.0 -> high
    let (r, l) = score(&vec![Finding::new("a", "x", "t", "d").with_score(1000)]);
    assert_eq!((r, l.as_str()), (6000, "high"));
    // 140 points -> 84.0 -> critical
    let (r, l) = score(&vec![Finding::new("a", "x", "t", "d").with_score(1400)]);
    assert_eq!((r, l.as_str()), (8400, "critical"));
}

#[test]
fn risk_is_capped_at_one_hundred() {
    let fs: Vec<Finding> = (0..20).map(|_| crit().with_score(400)).collect();
    let (risk, level) = score(&fs);
    assert_eq!(risk, 10000);
    assert_eq!(level, "critical");
}

#[test]
fn risk_cap_holds_for_huge_scores() {
    let fs = vec![
        Finding::new("a", "x", "t", "d").with_score(u64::MAX),
        Finding::new("a", "x", "t", "d").with_score(u64::MAX),
    ];
    assert_eq!(score(&fs).0, 10000);
}

#[test]
fn adding_a_finding_never_lowers_risk() {
    let mut fs = vec![Finding::new("a", "low", "t", "d")];
    let mut last = score(&fs).0;
    for sev in ["info", "medium", "critical", "high", "low"] {
        fs.push(Finding::new("a", sev, "t", "d"));
        let now = score(&fs).0;
        assert!(now >= last);
        last = now;
    }
}

#[test]
fn critical_floor_even_with_zero_score() {
    let (risk, level) = score(&vec![crit().with_score(0)]);
    assert_eq!(risk, 6000);
    assert_eq!(level, "high");
}

#[test]
fn alert_levels() {
    assert!(is_alert_level("medium"));
    assert!(is_alert_level("high"));
    assert!(is_alert_level("critical"));
    assert!(!is_alert_level("low"));
    assert!(!is_alert_level("info"));
    assert!(!is_alert_level(""));
}

#[test]
fn alert_threshold_matches_risk_35() {
    let (r, l) = score(&vec![Finding::new("a", "x", "t", "d").with_score(583)]);
    assert_eq!(r, 3498);
    assert!(!is_alert_level(&l));
    let (r, l) = score(&vec![Finding::new("a", "x", "t", "d").with_score(584)]);
    assert_eq!(r, 3504);
    assert!(is_alert_level(&l));
}
