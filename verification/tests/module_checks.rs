use krds::findings::Finding;
use krds::modules::{
    check_hidden, check_module_names, check_on_disk, check_symbols, check_tainted, check_unlisted,
    kallsyms_has_symbol, kallsyms_mentions_module, module_on_disk, name_checks, parse_proc_modules, run,
    ModInfo, ModuleInputs, SysfsModule,
};

fn titles(v: &[Finding]) -> Vec<String> {
    v.iter().map(|f| f.title.clone()).collect()
}

fn m(name: &str) -> ModInfo {
    ModInfo { name: name.to_string(), size: 100, addr: "0xffff".to_string() }
}

fn sys(name: &str) -> SysfsModule {
    SysfsModule { name: name.to_string(), has_coresize: true, has_sections: true }
}

#[test]
fn parse_modules_reads_name_size_addr() {
    let data = "diamorphine 16384 0 - Live 0xffffffffc0a00000 (OE)\nshort 1\next4 abc 2 - Live 0x00\n";
    let mods = parse_proc_modules(data);
    assert_eq!(mods.len(), 2);
    assert_eq!(mods[0].name, "diamorphine");
    assert_eq!(mods[0].size, 16384);
    assert_eq!(mods[0].addr, "0xffffffffc0a00000");
    assert_eq!(mods[1].name, "ext4");
    assert_eq!(mods[1].size, 0);
    assert_eq!(mods[1].addr, "0x00");
}

#[test]
fn parse_modules_without_address_and_repeated_name() {
    let data = "a 1 0 - Live\nb 2 0\na 3 0 - Live 0x10\n";
    let mods = parse_proc_modules(data);
    assert_eq!(mods.len(), 2);
    assert_eq!(mods[0].name, "a");
    assert_eq!(mods[0].size, 3);
    assert_eq!(mods[0].addr, "0x10");
    assert_eq!(mods[1].name, "b");
    assert_eq!(mods[1].addr, "");
}

#[test]
fn known_rootkit_name_is_critical_and_suspicious() {
    let r = check_module_names(&vec![ModInfo {
        name: "Diamorphine".to_string(),
        size: 4096,
        addr: "0xabc".to_string(),
    }]);
    assert_eq!(r.len(), 2);
    assert_eq!(r[0].severity, "critical");
    assert_eq!(r[0].title, "known rootkit module: Diamorphine (Diamorphine)");
    assert_eq!(r[0].iocs, vec!["module:Diamorphine".to_string(), "rootkit:Diamorphine".to_string()]);
    assert_eq!(r[0].score, Some(400));
    assert_eq!(r[1].severity, "high");
    assert_eq!(r[1].title, "suspicious module name: Diamorphine");
    assert_eq!(r[1].detail, "addr=0xabc size=4096");
    assert_eq!(r[1].score, Some(200));
}

#[test]
fn adore_ng_matches_two_signatures() {
    let r = check_module_names(&vec![m("adore-ng")]);
    assert_eq!(
        titles(&r),
        vec![
            "known rootkit module: Adore-ng (adore-ng)".to_string(),
            "known rootkit module: Adore-ng (adore-ng)".to_string(),
            "suspicious module name: adore-ng".to_string(),
        ]
    );
}

#[test]
fn suspicious_regex_cases() {
    assert_eq!(titles(&check_module_names(&vec![m("my_HIDE_mod")])), vec!["suspicious module name: my_HIDE_mod".to_string()]);
    assert_eq!(check_module_names(&vec![m("rkit")]).len(), 1);
    assert_eq!(check_module_names(&vec![m("xrk")]).len(), 0);
    assert_eq!(check_module_names(&vec![m("ext4")]).len(), 0);
    assert_eq!(check_module_names(&vec![m("backdoor_x"), m("snd")]).len(), 1);
}

#[test]
fn kallsyms_symbol_is_a_whole_token() {
    let ks = "ffffffff81000000 T hide_module\t[evil]\nffffffff81000010 t other\n";
    assert!(kallsyms_has_symbol(ks, "hide_module"));
    assert!(!kallsyms_has_symbol(ks, "hide"));
    assert!(!kallsyms_has_symbol("x T hide_module_2\n", "hide_module"));
}

#[test]
fn rootkit_symbols_reported_in_list_order() {
    let ks = "0 T give_root\n0 T hacked_kill\n";
    let r = check_symbols("modules", "rootkit symbol in kallsyms: ", "why", Some(ks));
    assert_eq!(
        titles(&r),
        vec!["rootkit symbol in kallsyms: hacked_kill".to_string(), "rootkit symbol in kallsyms: give_root".to_string()]
    );
    assert_eq!(r[0].severity, "critical");
    assert_eq!(r[0].iocs, vec!["symbol:hacked_kill".to_string()]);
    assert_eq!(r[0].score, Some(400));
    assert!(check_symbols("modules", "x", "y", None).is_empty());
}

#[test]
fn hidden_module_needs_sysfs_marks_and_kallsyms() {
    let ks = "ffff t f\t[ghost]\n";
    assert!(kallsyms_mentions_module(ks, "ghost"));
    assert!(!kallsyms_mentions_module(ks, "ghos"));
    let r = check_hidden(&vec![m("ext4")], &vec![sys("ext4"), sys("ghost")], Some(ks));
    assert_eq!(titles(&r), vec!["possible hidden module: ghost".to_string()]);
    assert_eq!(r[0].severity, "high");
    assert_eq!(r[0].score, Some(250));
    let no_marks = SysfsModule { name: "ghost".to_string(), has_coresize: true, has_sections: false };
    assert!(check_hidden(&vec![], &vec![no_marks], Some(ks)).is_empty());
    assert!(check_hidden(&vec![], &vec![sys("ghost")], None).is_empty());
}

#[test]
fn module_missing_from_sysfs() {
    let r = check_unlisted(&vec![m("a"), m("b")], &vec![sys("a")]);
    assert_eq!(titles(&r), vec!["in /proc/modules but not sysfs: b".to_string()]);
    assert_eq!(r[0].severity, "medium");
    assert_eq!(r[0].iocs, vec!["module:b".to_string()]);
    assert_eq!(r[0].score, Some(100));
}

#[test]
fn agreeing_module_views_are_quiet() {
    let mods = vec![m("a"), m("b")];
    let s = vec![sys("b"), sys("a")];
    assert!(check_hidden(&mods, &s, Some("x t y\t[a]\n")).is_empty());
    assert!(check_unlisted(&mods, &s).is_empty());
}

#[test]
fn taint_reporting() {
    let r = check_tainted(Some("4096\n"));
    assert_eq!(titles(&r), vec!["kernel tainted (4096)".to_string()]);
    assert_eq!(r[0].severity, "info");
    assert_eq!(r[0].score, Some(10));
    assert!(check_tainted(Some("0\n")).is_empty());
    assert!(check_tainted(Some("  \n")).is_empty());
    assert!(check_tainted(None).is_empty());
}

#[test]
fn module_files_match_dash_and_underscore() {
    let files = vec!["snd_hda_intel.ko.zst".to_string(), "ext4.ko".to_string(), "modules.dep".to_string()];
    assert!(module_on_disk("snd_hda_intel", &files));
    assert!(module_on_disk("snd-hda-intel", &files));
    assert!(module_on_disk("ext4", &files));
    assert!(!module_on_disk("modules", &files));
    assert!(!module_on_disk("xfs", &files));
    assert!(module_on_disk("a-b", &vec!["a_b.ko.xz".to_string()]));
    assert!(module_on_disk("a_b", &vec!["a-b.ko".to_string()]));
}

#[test]
fn modules_without_files_are_counted() {
    let r = check_on_disk(&vec![m("ext4"), m("ghost"), m("other")], &vec!["ext4.ko".to_string()]);
    assert_eq!(titles(&r), vec!["2 modules have no matching .ko under /lib/modules".to_string()]);
    assert_eq!(r[0].severity, "low");
    assert_eq!(r[0].detail, "sample: ghost, other");
    assert_eq!(r[0].score, Some(24));
    assert!(check_on_disk(&vec![m("ext4")], &vec!["ext4.ko".to_string()]).is_empty());
}

#[test]
fn many_missing_modules_are_medium_and_capped() {
    let mods: Vec<ModInfo> = (0..70).map(|i| m(&format!("m{i}"))).collect();
    let r = check_on_disk(&mods, &vec![]);
    assert_eq!(r.len(), 1);
    assert_eq!(r[0].severity, "medium");
    assert_eq!(r[0].title, "70 modules have no matching .ko under /lib/modules");
    assert_eq!(r[0].score, Some(150));
    let forty: Vec<ModInfo> = (0..40).map(|i| m(&format!("m{i}"))).collect();
    assert_eq!(check_on_disk(&forty, &vec![])[0].score, Some(100));
    let sample: Vec<String> = (0..15).map(|i| format!("m{i}")).collect();
    assert_eq!(r[0].detail, format!("sample: {}", sample.join(", ")));
}

#[test]
fn module_run_orders_checks() {
    let inp = ModuleInputs {
        proc_modules: "reptile 10 0 - Live 0x1\next4 20 0 - Live 0x2\n".to_string(),
        sysfs: vec![sys("ext4"), sys("ghost")],
        kallsyms: Some("0 T give_root\n".to_string()),
        kallsyms_lines: Some("0 t f\t[ghost]".to_string()),
        tainted: Some("1".to_string()),
        module_files: vec!["ext4.ko".to_string()],
    };
    let r = run(&inp);
    assert_eq!(
        titles(&r),
        vec![
            "known rootkit module: Reptile (reptile)".to_string(),
            "suspicious module name: reptile".to_string(),
            "possible hidden module: ghost".to_string(),
            "in /proc/modules but not sysfs: reptile".to_string(),
            "rootkit symbol in kallsyms: give_root".to_string(),
            "kernel tainted (1)".to_string(),
            "1 modules have no matching .ko under /lib/modules".to_string(),
        ]
    );
}

#[test]
fn name_checks_from_given_lowercase_and_match() {
    let mods = m("SuTeRuSu");
    let r = name_checks(&mods, "suterusu", Some(false));
    assert_eq!(titles(&r), vec!["known rootkit module: Suterusu (SuTeRuSu)".to_string()]);
    let r = name_checks(&mods, "xyz", Some(true));
    assert_eq!(titles(&r), vec!["suspicious module name: SuTeRuSu".to_string()]);
    assert_eq!(r[0].detail, "addr=0xffff size=100");
    assert!(name_checks(&mods, "xyz", None).is_empty());
}
