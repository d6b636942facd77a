use krds::findings::Finding;
use krds::integrity::{
    compare, hex_sha256, is_boot_artifact, kallsyms_sample, run, snapshot, Baseline, BaselineState,
};

fn titles(v: &[Finding]) -> Vec<String> {
    v.iter().map(|f| f.title.clone()).collect()
}

fn files(v: &[(&str, &str)]) -> Vec<(String, String)> {
    v.iter().map(|(a, b)| (a.to_string(), b.to_string())).collect()
}

fn base(fs: &[(&str, &str)], sample: &str, lines: usize, modules: &str) -> Baseline {
    Baseline {
        kernel: "6.1.0".to_string(),
        files: files(fs),
        kallsyms_sample: sample.to_string(),
        kallsyms_lines: lines,
        modules_hash: modules.to_string(),
    }
}

#[test]
fn sha256_hex_digests() {
    assert_eq!(hex_sha256(b""), "e3b0c44298fc1c149afbf4c8996fb92427ae41e4649b934ca495991b7852b855");
    assert_eq!(hex_sha256(b"abc"), "ba7816bf8f01cfea414140de5dae2223b00361a396177a9cb410ff61f20015ad");
}

#[test]
fn boot_files_worth_watching() {
    assert!(is_boot_artifact("vmlinuz-6.1.0-13-amd64"));
    assert!(is_boot_artifact("System.map-6.1.0"));
    assert!(is_boot_artifact("initrd.img-6.1.0"));
    assert!(is_boot_artifact("initramfs-linux.img"));
    assert!(is_boot_artifact("shimx64.efi"));
    assert!(!is_boot_artifact("config-6.1.0"));
    assert!(!is_boot_artifact("grub"));
    assert!(!is_boot_artifact("my.efi.bak"));
}

#[test]
fn kallsyms_sample_and_count() {
    assert_eq!(kallsyms_sample(Some("a\nb\n")), ("a\nb\n".to_string(), 2));
    assert_eq!(kallsyms_sample(Some("a\r\nb")), ("a\nb\n".to_string(), 2));
    assert_eq!(kallsyms_sample(None), (String::new(), 0));
    let big = "x\n".repeat(2500);
    let (s, n) = kallsyms_sample(Some(&big));
    assert_eq!(n, 2500);
    assert_eq!(s, "x\n".repeat(2000));
}

#[test]
fn snapshot_hashes_what_was_read() {
    let snap = snapshot("6.1.0", files(&[("/boot/vmlinuz", "aa")]), Some("abc"), "mods");
    assert_eq!(snap.kernel, "6.1.0");
    assert_eq!(snap.files, files(&[("/boot/vmlinuz", "aa")]));
    assert_eq!(snap.kallsyms_sample, hex_sha256(b"abc\n"));
    assert_eq!(snap.kallsyms_lines, 1);
    assert_eq!(snap.modules_hash, hex_sha256(b"mods"));
    let empty = snapshot("?", vec![], None, "");
    assert_eq!(empty.kallsyms_sample, hex_sha256(b""));
    assert_eq!(empty.kallsyms_lines, 0);
}

#[test]
fn comparison_reports_each_change() {
    let old = base(&[("/boot/vmlinuz", "aa"), ("/boot/gone", "dd")], "s1", 1000, "m1");
    let new = base(&[("/boot/vmlinuz", "bb"), ("/boot/initrd", "cc")], "s2", 1600, "m2");
    let r = compare(&old, &new);
    assert_eq!(
        titles(&r),
        vec![
            "hash mismatch: /boot/vmlinuz".to_string(),
            "new critical file: /boot/initrd".to_string(),
            "monitored file missing: /boot/gone".to_string(),
            "kallsyms sample hash changed".to_string(),
            "large kallsyms line-count delta (600)".to_string(),
            "/proc/modules changed since baseline".to_string(),
        ]
    );
    assert_eq!(r[0].severity, "high");
    assert_eq!(r[0].detail, "was aa, now bb");
    assert_eq!(r[0].iocs, vec!["file:/boot/vmlinuz".to_string(), "sha256:bb".to_string()]);
    assert_eq!(r[0].score, Some(200));
    assert_eq!(r[1].severity, "medium");
    assert_eq!(r[1].score, Some(80));
    assert_eq!(r[2].score, Some(150));
    assert_eq!(r[3].score, Some(80));
    assert_eq!(r[4].severity, "low");
    assert_eq!(r[4].score, Some(30));
    assert_eq!(r[5].score, Some(20));
}

#[test]
fn small_drift_and_empty_old_sample_are_quiet() {
    let old = base(&[], "", 1000, "m");
    let new = base(&[], "s2", 500, "m");
    assert!(compare(&old, &new).is_empty());
    let shrink = base(&[], "", 1501, "m");
    assert_eq!(titles(&compare(&shrink, &new)), vec!["large kallsyms line-count delta (1001)".to_string()]);
}

#[test]
fn unchanged_snapshot_is_quiet() {
    let b = base(&[("/boot/a", "1"), ("/boot/b", "2")], "s", 10, "m");
    assert!(compare(&b, &b).is_empty());
    let snap = snapshot("6.1.0", files(&[("/boot/a", "1")]), Some("k"), "m");
    let again = snapshot("6.1.0", files(&[("/boot/a", "1")]), Some("k"), "m");
    assert!(compare(&snap, &again).is_empty());
}

#[test]
fn integrity_run_with_new_baseline() {
    let snap = base(&[], "s", 0, "m");
    let r = run(&BaselineState::Created("output/integrity_baseline.json".to_string()), &snap, Some("0 T hide_module\n"));
    assert_eq!(
        titles(&r),
        vec!["integrity baseline created".to_string(), "suspicious kernel symbol: hide_module".to_string()]
    );
    assert_eq!(r[0].detail, "wrote output/integrity_baseline.json");
    assert_eq!(r[0].score, Some(0));
    assert_eq!(r[1].severity, "critical");
    assert_eq!(r[1].detail, "matches known teaching-rootkit symbols");
    assert_eq!(r[1].iocs, vec!["symbol:hide_module".to_string()]);
    assert_eq!(r[1].score, Some(400));
}

#[test]
fn integrity_run_with_loaded_or_unusable_baseline() {
    let snap = base(&[("/boot/a", "2")], "s", 0, "m");
    let old = base(&[("/boot/a", "1")], "s", 0, "m");
    let r = run(&BaselineState::Loaded(old), &snap, None);
    assert_eq!(titles(&r), vec!["hash mismatch: /boot/a".to_string()]);
    assert!(run(&BaselineState::Unusable, &snap, None).is_empty());
}
