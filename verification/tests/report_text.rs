use krds::findings::Finding;
use krds::forensics::{process_table, sys_state_text, ProcessRow};
use krds::report::{format_risk, render_text, scan_stamp, sev_rank, sorted_order};
use krds::util::{hostname, uname_r};

fn f(sev: &str, title: &str) -> Finding {
    Finding::new("k", sev, title, "d")
}

#[test]
fn severity_ranks() {
    assert_eq!(sev_rank("critical"), 4);
    assert_eq!(sev_rank("high"), 3);
    assert_eq!(sev_rank("medium"), 2);
    assert_eq!(sev_rank("low"), 1);
    assert_eq!(sev_rank("info"), 0);
    assert_eq!(sev_rank("CRITICAL"), 0);
}

#[test]
fn order_is_by_severity_then_position() {
    let fs = vec![f("low", "a"), f("critical", "b"), f("info", "c"), f("low", "d"), f("critical", "e"), f("high", "g")];
    assert_eq!(sorted_order(&fs), vec![1, 4, 5, 0, 3, 2]);
    assert!(sorted_order(&vec![]).is_empty());
}

#[test]
fn order_is_a_permutation() {
    let sevs = ["info", "low", "medium", "high", "critical", "x"];
    let fs: Vec<Finding> = (0..30).map(|i| f(sevs[(i * 7) % 6], "t")).collect();
    let mut order = sorted_order(&fs);
    for w in order.windows(2) {
        let (a, b) = (sev_rank(&fs[w[0]].severity), sev_rank(&fs[w[1]].severity));
        assert!(a > b || (a == b && w[0] < w[1]));
    }
    order.sort();
    assert_eq!(order, (0..30).collect::<Vec<usize>>());
}

#[test]
fn risk_with_one_decimal() {
    assert_eq!(format_risk(0), "0.0");
    assert_eq!(format_risk(2100), "21.0");
    assert_eq!(format_risk(6000), "60.0");
    assert_eq!(format_risk(10000), "100.0");
    assert_eq!(format_risk(3333), "33.3");
    assert_eq!(format_risk(3336), "33.4");
    assert_eq!(format_risk(1494), "14.9");
    assert_eq!(format_risk(3504), "35.0");
}

#[test]
fn text_report_layout() {
    let fs = vec![
        Finding::new("network", "low", "port 1", "d1"),
        Finding::new("modules", "critical", "bad", "d2").ioc("module:x").ioc("rootkit:y"),
    ];
    let txt = render_text("box", "6.1.0", "2024-01-02T03:04:05+00:00", 6000, "high", &fs);
    let want = "krds scan report\n\
                host:   box\n\
                kernel: 6.1.0\n\
                when:   2024-01-02T03:04:05+00:00\n\
                risk:   60.0/100 (high)\n\
                count:  2\n\n\
                [1] [critical] (modules) bad\n    d2\n    iocs: module:x, rootkit:y\n\n\
                [2] [low] (network) port 1\n    d1\n\n\
                note: if the kernel is already owned, this tool can be lied to.\n";
    assert_eq!(txt, want);
}

#[test]
fn empty_text_report() {
    let txt = render_text("h", "k", "w", 0, "info", &vec![]);
    assert_eq!(
        txt,
        "krds scan report\nhost:   h\nkernel: k\nwhen:   w\nrisk:   0.0/100 (info)\ncount:  0\n\nnote: if the kernel is already owned, this tool can be lied to.\n"
    );
}

#[test]
fn file_stamp_of_scan_time() {
    assert_eq!(scan_stamp("2024-01-02T03:04:05.123456789+00:00"), "2024-01-02T030405.123456789_0000");
    assert_eq!(scan_stamp(""), "");
}

#[test]
fn process_table_rows() {
    let rows = vec![
        ProcessRow { pid: 1, comm: "systemd\n".to_string(), exe: "/usr/lib/systemd/systemd".to_string(), cmdline: "/sbin/init\0splash\0".to_string() },
        ProcessRow { pid: 2, comm: "kthreadd\n".to_string(), exe: String::new(), cmdline: String::new() },
    ];
    assert_eq!(
        process_table(&rows),
        "pid\tcomm\texe\tcmdline\n1\tsystemd\t/usr/lib/systemd/systemd\t/sbin/init splash\n2\tkthreadd\t\t\n"
    );
    assert_eq!(process_table(&vec![]), "pid\tcomm\texe\tcmdline\n");
}

#[test]
fn kernel_settings_dump() {
    assert_eq!(
        sys_state_text(Some("0\n"), None, Some(" 1 "), Some("2\n")),
        "tainted=0\nmodules_disabled=\nkptr_restrict=1\nptrace_scope=2\n"
    );
}

#[test]
fn host_identity() {
    assert_eq!(hostname(Some("box\n")), "box");
    assert_eq!(hostname(None), "unknown");
    assert_eq!(uname_r(Some("6.1.0-13-amd64\n")), "6.1.0-13-amd64");
    assert_eq!(uname_r(None), "?");
}
