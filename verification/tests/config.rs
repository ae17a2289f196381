use diskzap::config::{deletable, home_is_overridden, parse_args, ArgsOutcome, Config};
use diskzap::targets::Tier;

fn args(a: &[&str]) -> Vec<String> {
    a.iter().map(|s| s.to_string()).collect()
}

fn config(a: &[&str]) -> Config {
    match parse_args(&args(a)) {
        ArgsOutcome::Run(c) => c,
        _ => panic!("expected a configuration for {a:?}"),
    }
}

fn error(a: &[&str]) -> String {
    match parse_args(&args(a)) {
        ArgsOutcome::Error(e) => e,
        _ => panic!("expected an error for {a:?}"),
    }
}

#[test]
fn no_arguments_is_a_dry_run_with_defaults() {
    let c = config(&[]);
    assert!(!c.apply);
    assert!(!c.include_os_caches);
    assert!(!c.include_vm_disks);
    assert_eq!(c.min_age_days, 0);
    assert!(c.scan_roots.is_empty());
    assert!(!c.only_roots);
    assert!(!c.json);
    assert_eq!(c.top, 12);
    assert!(!c.no_external);
}

#[test]
fn flags_set_their_fields() {
    let c = config(&[
        "--apply",
        "--include-os-caches",
        "--include-vm-disks",
        "--no-external",
        "--only-roots",
        "--json",
        "--min-age-days",
        "14",
        "--top",
        "3",
        "--root",
        "/a",
        "--root",
        "/b",
    ]);
    assert!(c.apply && c.include_os_caches && c.include_vm_disks);
    assert!(c.no_external && c.only_roots && c.json);
    assert_eq!(c.min_age_days, 14);
    assert_eq!(c.top, 3);
    assert_eq!(c.scan_roots, vec!["/a".to_string(), "/b".to_string()]);
}

#[test]
fn version_and_help_stop_reading() {
    assert!(matches!(parse_args(&args(&["--version"])), ArgsOutcome::Version));
    assert!(matches!(parse_args(&args(&["-V", "--bogus"])), ArgsOutcome::Version));
    assert!(matches!(parse_args(&args(&["-h"])), ArgsOutcome::Help));
    assert!(matches!(parse_args(&args(&["--apply", "--help"])), ArgsOutcome::Help));
    // An earlier bad argument wins.
    assert_eq!(error(&["--bogus", "--help"]), "unknown argument: --bogus");
}

#[test]
fn each_error_has_its_message() {
    assert_eq!(error(&["--min-age-days"]), "--min-age-days needs a value");
    assert_eq!(error(&["--min-age-days", "x"]), "invalid --min-age-days");
    assert_eq!(error(&["--min-age-days", "-1"]), "invalid --min-age-days");
    assert_eq!(error(&["--min-age-days", "18446744073709551616"]), "invalid --min-age-days");
    assert_eq!(error(&["--top"]), "--top needs a value");
    assert_eq!(error(&["--top", ""]), "invalid --top");
    assert_eq!(error(&["--root"]), "--root needs a path");
    assert_eq!(error(&["--frobnicate"]), "unknown argument: --frobnicate");
}

#[test]
fn numbers_read_as_str_parse_does() {
    assert_eq!(config(&["--min-age-days", "+7"]).min_age_days, 7);
    assert_eq!(config(&["--min-age-days", "007"]).min_age_days, 7);
    assert_eq!(
        config(&["--min-age-days", "18446744073709551615"]).min_age_days,
        u64::MAX
    );
    assert_eq!(error(&["--top", "+"]), "invalid --top");
    for s in ["0", "12", "+5", "99999999999999999999", "1a", " 1", "-0", ""] {
        let ok = s.parse::<u64>().is_ok();
        let ours = matches!(parse_args(&args(&["--min-age-days", s])), ArgsOutcome::Run(_));
        assert_eq!(ok, ours, "{s:?}");
    }
}

#[test]
fn a_root_path_may_look_like_a_flag() {
    let c = config(&["--root", "--apply"]);
    assert!(!c.apply);
    assert_eq!(c.scan_roots, vec!["--apply".to_string()]);
}

#[test]
fn deletable_follows_the_opt_in_flags() {
    let plain = config(&[]);
    assert!(deletable(Tier::PackageCache, &plain));
    assert!(deletable(Tier::BuildArtifact, &plain));
    assert!(deletable(Tier::Docker, &plain));
    assert!(!deletable(Tier::OsCache, &plain));
    assert!(!deletable(Tier::VmDisk, &plain));
    let opted = config(&["--include-os-caches", "--include-vm-disks"]);
    assert!(deletable(Tier::OsCache, &opted));
    assert!(deletable(Tier::VmDisk, &opted));
}

#[test]
fn redirected_home_is_noticed() {
    assert!(!home_is_overridden("/home/alice", Some("alice")));
    assert!(!home_is_overridden("/Users/alice", Some("alice")));
    assert!(!home_is_overridden("/root", Some("alice")));
    assert!(!home_is_overridden("/var/root", Some("alice")));
    assert!(home_is_overridden("/tmp/scratch", Some("alice")));
    assert!(!home_is_overridden("/tmp/scratch", Some("")));
    assert!(!home_is_overridden("/tmp/scratch", None));
}
