use krds::findings::Finding;
use krds::misc::{
    artifact_path, audit_bits, dmesg_bits, dmesg_line, grab_field, memory_ish, preload_and_paths, run,
    sysctl_bits, AuditLog, MiscInputs,
};

fn titles(v: &[Finding]) -> Vec<String> {
    v.iter().map(|f| f.title.clone()).collect()
}

fn syscall_line(nr: &str, tail: &str) -> String {
    format!("type=SYSCALL msg=audit(1700000000.1:2): arch=c000003e syscall={nr} success=yes {tail}")
}

#[test]
fn sysctl_settings() {
    let r = sysctl_bits(Some("0\n"), Some(" 0 "));
    assert_eq!(titles(&r), vec!["ptrace_scope is 0".to_string(), "kptr_restrict is 0".to_string()]);
    assert_eq!(r[0].severity, "low");
    assert_eq!(r[0].score, Some(20));
    assert_eq!(r[1].severity, "info");
    assert_eq!(r[1].score, Some(5));
    assert!(sysctl_bits(Some("1"), None).is_empty());
    assert!(sysctl_bits(None, Some("2\n")).is_empty());
}

#[test]
fn audit_field_extraction() {
    assert_eq!(grab_field("a exe=\"/usr/bin/x y\" b", "exe="), Some("/usr/bin/x y".to_string()));
    assert_eq!(grab_field("comm=foo bar", "comm="), Some("foo".to_string()));
    assert_eq!(grab_field("nothing here", "exe="), None);
    assert_eq!(grab_field("x exe=", "exe="), None);
    assert_eq!(grab_field("x exe=\"", "exe="), Some(String::new()));
    assert_eq!(grab_field("x exe=   ", "exe="), None);
}

#[test]
fn missing_and_unreadable_audit_log() {
    let r = audit_bits(&AuditLog::Missing);
    assert_eq!(titles(&r), vec!["no audit.log".to_string()]);
    assert_eq!(r[0].severity, "info");
    assert_eq!(r[0].score, Some(0));
    assert!(audit_bits(&AuditLog::Unreadable).is_empty());
    assert!(audit_bits(&AuditLog::Text(String::new())).is_empty());
}

#[test]
fn audit_syscalls_newest_first() {
    let log = format!(
        "{}\n{}\ntype=PATH syscall=175\n{}\n",
        syscall_line("175", "comm=\"insmod\" exe=\"/usr/bin/kmod\""),
        syscall_line("246", "comm=\"kexec\""),
        syscall_line("2", "exe=\"/bin/cat\""),
    );
    let r = audit_bits(&AuditLog::Text(log));
    assert_eq!(titles(&r), vec!["audit: kexec_load by kexec".to_string(), "audit: init_module by /usr/bin/kmod".to_string()]);
    assert_eq!(r[0].severity, "high");
    assert_eq!(r[0].score, Some(200));
    assert_eq!(r[0].iocs, vec!["syscall:kexec_load".to_string()]);
    assert_eq!(r[1].severity, "medium");
    assert_eq!(r[1].score, Some(60));
}

#[test]
fn audit_line_with_unknown_executable() {
    let r = audit_bits(&AuditLog::Text(syscall_line("311", "key=x")));
    assert_eq!(titles(&r), vec!["audit: process_vm_writev by ?".to_string()]);
    assert_eq!(r[0].score, Some(70));
}

#[test]
fn audit_reports_at_most_twelve() {
    let lines: Vec<String> = (0..20).map(|_| syscall_line("176", "exe=\"/sbin/rmmod\"")).collect();
    let r = audit_bits(&AuditLog::Text(lines.join("\n")));
    assert_eq!(r.len(), 12);
    assert!(r.iter().all(|f| f.title == "audit: delete_module by /sbin/rmmod"));
}

#[test]
fn preload_file_and_artifacts() {
    let r = preload_and_paths(Some(10), "/tmp/evil.so\n", &vec![true, true]);
    assert_eq!(
        titles(&r),
        vec![
            "/etc/ld.so.preload is non-empty".to_string(),
            "suspicious path exists: /lib/libprocesshider.so".to_string(),
            "suspicious path exists: /dev/shm/.rk".to_string(),
        ]
    );
    assert_eq!(r[0].detail, "/tmp/evil.so\n");
    assert_eq!(r[0].iocs, vec!["file:/etc/ld.so.preload".to_string()]);
    assert_eq!(r[0].score, Some(250));
    assert_eq!(r[2].iocs, vec!["file:/dev/shm/.rk".to_string()]);
    assert_eq!(r[2].score, Some(100));
    assert!(preload_and_paths(Some(0), "", &vec![false, false]).is_empty());
    assert!(preload_and_paths(None, "x", &vec![]).is_empty());
    assert_eq!(artifact_path(0), "/lib/libprocesshider.so");
    assert_eq!(artifact_path(1), "/dev/shm/.rk");
}

#[test]
fn preload_detail_keeps_300_chars() {
    let long: String = std::iter::repeat('é').take(400).collect();
    let r = preload_and_paths(Some(800), &long, &vec![false, false]);
    assert_eq!(r[0].detail.chars().count(), 300);
}

#[test]
fn dmesg_lines_of_interest() {
    let text = "[Mon] ROOTKIT detected\n[Mon] nothing\n[Tue] loading out-of-tree module taints kernel.\n[Tue] x: module verification failed: signature\n";
    let r = dmesg_bits(Some(text));
    assert_eq!(r.len(), 3);
    assert_eq!(r[0].severity, "high");
    assert_eq!(r[0].title, "interesting dmesg line");
    assert_eq!(r[0].detail, "[Mon] ROOTKIT detected");
    assert_eq!(r[0].score, Some(50));
    assert_eq!(r[1].severity, "low");
    assert_eq!(r[1].score, Some(10));
    assert_eq!(r[2].detail, "[Tue] x: module verification failed: signature");
    assert!(dmesg_bits(None).is_empty());
}

#[test]
fn dmesg_stops_after_fifteen() {
    let text = "rootkit\n".repeat(40);
    assert_eq!(dmesg_bits(Some(&text)).len(), 15);
}

#[test]
fn hidden_kernel_pointers() {
    let r = memory_ish(Some("0000000000000000 T a\n\n0000000000000000 t b\n"));
    assert_eq!(titles(&r), vec!["kernel pointers hidden in kallsyms".to_string()]);
    assert_eq!(r[0].severity, "info");
    assert_eq!(r[0].score, Some(0));
    assert!(memory_ish(Some("ffffffff81000000 T a\n0000000000000000 T b\n")).is_empty());
    assert!(memory_ish(Some("")).is_empty());
    assert!(memory_ish(None).is_empty());
    assert_eq!(memory_ish(Some("\n")).len(), 1);
    let mut ks = "0000000000000000 T a\n".repeat(20);
    ks.push_str("ffffffff81000000 T late\n");
    assert_eq!(memory_ish(Some(&ks)).len(), 1);
}

#[test]
fn misc_run_orders_checks() {
    let inp = MiscInputs {
        ptrace_scope: Some("0".to_string()),
        kptr_restrict: None,
        audit: AuditLog::Missing,
        preload_size: Some(3),
        preload_text: "x\n".to_string(),
        artifacts: vec![false, true],
        dmesg: Some("rootkit here".to_string()),
        kallsyms: Some("0000000000000000 T a".to_string()),
    };
    assert_eq!(
        titles(&run(&inp)),
        vec![
            "ptrace_scope is 0".to_string(),
            "no audit.log".to_string(),
            "/etc/ld.so.preload is non-empty".to_string(),
            "suspicious path exists: /dev/shm/.rk".to_string(),
            "interesting dmesg line".to_string(),
            "kernel pointers hidden in kallsyms".to_string(),
        ]
    );
}

#[test]
fn dmesg_line_from_given_lowercase() {
    let f = dmesg_line("Some Line", "a rootkit line").expect("interesting");
    assert_eq!(f.severity, "high");
    assert_eq!(f.detail, "Some Line");
    assert_eq!(f.score, Some(50));
    let f = dmesg_line("X", "disagrees about version of symbol foo").expect("interesting");
    assert_eq!(f.severity, "low");
    assert!(dmesg_line("ROOTKIT", "ROOTKIT").is_none());
}
