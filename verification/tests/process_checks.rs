use krds::findings::Finding;
use krds::procs::{
    check_exe_env, check_hidden_processes, check_invisible, parse_pid, parse_pid_max, parse_ps_pids,
    pids_from_names, preload_of, read_cmdline, read_comm, run, stat_probe_candidates, status_field,
    ProcInputs, ProcSample,
};

fn titles(v: &[Finding]) -> Vec<String> {
    v.iter().map(|f| f.title.clone()).collect()
}

fn sample(pid: i32) -> ProcSample {
    ProcSample {
        pid,
        status: format!("Name:\tx\nTgid:\t{pid}\n"),
        dir_exists: true,
        comm: "x\n".to_string(),
        cmdline: "x\0".to_string(),
        exe: "/usr/bin/x".to_string(),
        environ: None,
    }
}

fn inputs(readdir: Vec<i32>, stat: Vec<i32>, ps: Vec<i32>, samples: Vec<ProcSample>) -> ProcInputs {
    ProcInputs { readdir, stat, ps, samples }
}

#[test]
fn comm_and_cmdline_reading() {
    assert_eq!(read_comm("bash\n"), "bash");
    assert_eq!(read_comm(""), "");
    assert_eq!(read_cmdline("/bin/sh\0-c\0echo hi\0"), "/bin/sh -c echo hi");
    assert_eq!(read_cmdline("\0\0"), "");
}

#[test]
fn status_field_lookup() {
    let st = "Name:\tbash\nTgidX:\t9\nTgid:\t42 \nTgid:\t43\n";
    assert_eq!(status_field(st, "Tgid"), "42");
    assert_eq!(status_field(st, "Name"), "bash");
    assert_eq!(status_field(st, "PPid"), "");
    assert_eq!(status_field("", "Tgid"), "");
}

#[test]
fn pid_lists_from_text() {
    let names = vec!["1".to_string(), "self".to_string(), "42".to_string(), "1".to_string(), "-3".to_string()];
    assert_eq!(pids_from_names(&names), vec![1, 42, -3]);
    assert_eq!(parse_ps_pids("    1\n  200\n\n  x\n  200\n"), vec![1, 200]);
    assert_eq!(parse_pid("123"), Some(123));
    assert_eq!(parse_pid("+7"), Some(7));
    assert_eq!(parse_pid("acpi"), None);
    assert_eq!(parse_pid("99999999999"), None);
}

#[test]
fn pid_max_reading() {
    assert_eq!(parse_pid_max(None), 32768);
    assert_eq!(parse_pid_max(Some("4194304\n")), 4194304);
    assert_eq!(parse_pid_max(Some("abc")), 32768);
}

#[test]
fn probe_candidates() {
    let c = stat_probe_candidates(&vec![1000], &vec![], 600);
    assert_eq!(c.len(), 511);
    assert!(c.contains(&1) && c.contains(&511) && !c.contains(&512) && !c.contains(&998));
    let c = stat_probe_candidates(&vec![1000], &vec![7000], 10000);
    assert_eq!(c.len(), 511 + 6 + 1);
    for p in 998..=1003 {
        assert!(c.contains(&p));
    }
    assert!(c.contains(&7000) && !c.contains(&997) && !c.contains(&1004));
    let c = stat_probe_candidates(&vec![], &vec![], 10);
    assert_eq!(c, (1..10).collect::<Vec<i32>>());
}

#[test]
fn probe_covers_listed_pids() {
    let known = vec![5, 300, 9000];
    let c = stat_probe_candidates(&known, &vec![], 32768);
    for p in &known {
        assert!(c.contains(p));
    }
}

#[test]
fn hidden_process_is_critical() {
    let mut s = sample(77);
    s.comm = "evil\n".to_string();
    let r = check_hidden_processes(&inputs(vec![1], vec![1, 77], vec![], vec![s]));
    assert_eq!(titles(&r), vec!["possible hidden process pid=77 (evil)".to_string()]);
    assert_eq!(r[0].severity, "critical");
    assert_eq!(r[0].iocs, vec!["pid:77".to_string(), "comm:evil".to_string()]);
    assert_eq!(r[0].score, Some(350));
}

#[test]
fn threads_and_vanished_pids_are_not_hidden() {
    let mut thread = sample(78);
    thread.status = "Tgid:\t1\n".to_string();
    let mut gone = sample(79);
    gone.dir_exists = false;
    let r = check_hidden_processes(&inputs(vec![1], vec![78, 79, 80], vec![], vec![thread, gone]));
    assert!(r.is_empty());
}

#[test]
fn process_invisible_to_ps() {
    let mut kthread = sample(2);
    kthread.cmdline = String::new();
    kthread.exe = String::new();
    let r = check_invisible(&inputs(vec![2, 5, 6, 9], vec![], vec![9], vec![kthread, sample(5)]));
    assert_eq!(titles(&r), vec!["process invisible to ps: pid=5 (x)".to_string()]);
    assert_eq!(r[0].severity, "high");
    assert_eq!(r[0].iocs, vec!["pid:5".to_string()]);
    assert_eq!(r[0].score, Some(200));
}

#[test]
fn agreeing_process_views_are_quiet() {
    let inp = inputs(vec![1, 5], vec![5, 1], vec![5, 1, 8], vec![sample(1), sample(5)]);
    assert!(check_hidden_processes(&inp).is_empty());
    assert!(check_invisible(&inp).is_empty());
}

#[test]
fn deleted_and_memfd_executables() {
    let mut a = sample(5);
    a.exe = "/tmp/a (deleted)".to_string();
    let mut b = sample(6);
    b.exe = "/memfd:x (deleted)".to_string();
    let mut c = sample(7);
    c.exe = "/tmp/c (deleted)".to_string();
    c.cmdline = String::new();
    let r = check_exe_env(&inputs(vec![5, 6, 7], vec![], vec![], vec![a, b, c]));
    assert_eq!(
        titles(&r),
        vec![
            "running from deleted binary: pid=5".to_string(),
            "running from deleted binary: pid=6".to_string(),
            "executed from memfd: pid=6".to_string(),
        ]
    );
    assert_eq!(r[0].detail, "exe=/tmp/a (deleted)");
    assert_eq!(r[0].iocs, vec!["pid:5".to_string(), "exe:/tmp/a (deleted)".to_string()]);
    assert_eq!(r[2].iocs, vec!["pid:6".to_string(), "technique:memfd_create".to_string()]);
    assert_eq!(r[2].score, Some(150));
}

#[test]
fn ld_preload_in_environment() {
    let mut a = sample(5);
    a.environ = Some(b"PATH=/bin\0LD_PRELOAD=/tmp/evil.so\0".to_vec());
    let r = check_exe_env(&inputs(vec![5], vec![], vec![], vec![a]));
    assert_eq!(titles(&r), vec!["LD_PRELOAD set for pid=5".to_string()]);
    assert_eq!(r[0].detail, "LD_PRELOAD=/tmp/evil.so");
    assert_eq!(r[0].iocs, vec!["pid:5".to_string(), "LD_PRELOAD=/tmp/evil.so".to_string()]);
    assert_eq!(r[0].score, Some(80));
}

#[test]
fn preload_entry_extraction() {
    assert_eq!(preload_of(&b"A=1\0LD_PRELOAD=x.so".to_vec()), "LD_PRELOAD=x.so");
    assert_eq!(preload_of(&b"XLD_PRELOAD=1\0".to_vec()), "LD_PRELOAD=?");
    assert_eq!(preload_of(&b"LD_PRELOAD=\xff\0LD_PRELOAD=ok".to_vec()), "LD_PRELOAD=ok");
    let mut s = sample(3);
    s.environ = Some(b"XLD_PRELOAD=1\0".to_vec());
    let r = check_exe_env(&inputs(vec![3], vec![], vec![], vec![s]));
    assert_eq!(r[0].detail, "LD_PRELOAD=?");
}

#[test]
fn process_run_orders_checks() {
    let mut hidden = sample(40);
    hidden.comm = "h".to_string();
    let mut deleted = sample(5);
    deleted.exe = "/x (deleted)".to_string();
    let r = run(&inputs(vec![5], vec![5, 40], vec![], vec![hidden, deleted]));
    assert_eq!(
        titles(&r),
        vec![
            "possible hidden process pid=40 (h)".to_string(),
            "process invisible to ps: pid=5 (x)".to_string(),
            "running from deleted binary: pid=5".to_string(),
        ]
    );
}
