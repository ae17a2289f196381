use diskzap::config::{parse_args, ArgsOutcome, Config};
use diskzap::report::{
    build_report, considered, drop_absent_noise, external_item, judge, min_age_secs, push_item,
    removal_due, removal_outcome, totals, wants_external, ExternalOutcome, Item, Judgement,
    Observation, Reason, Verdict, delegated_item, external_step, finish_run, ExternalStep,
};
use diskzap::dedupe::Candidate;
use diskzap::safety::Guard;
use diskzap::targets::{catalog, Kind, Target, Tier};

fn config(a: &[&str]) -> Config {
    let v: Vec<String> = a.iter().map(|s| s.to_string()).collect();
    match parse_args(&v) {
        ArgsOutcome::Run(c) => c,
        _ => panic!("bad test arguments"),
    }
}

fn target(id: &str) -> Target {
    catalog().into_iter().find(|t| t.id == id).unwrap()
}

fn done(j: Judgement) -> (Verdict, String) {
    match j {
        Judgement::Done(v, r) => (v, r.text()),
        Judgement::Delete => panic!("expected a verdict"),
    }
}

#[test]
fn dry_run_reports_and_apply_deletes() {
    let dry = config(&[]);
    assert_eq!(
        done(judge(&dry, Tier::PackageCache, Guard::Clear, 0, 1000, 0)),
        (Verdict::Reclaimable, "dry-run".to_string())
    );
    let apply = config(&["--apply"]);
    assert!(matches!(
        judge(&apply, Tier::PackageCache, Guard::Clear, 0, 1000, 0),
        Judgement::Delete
    ));
}

#[test]
fn guards_win_over_everything() {
    let apply = config(&["--apply", "--include-vm-disks"]);
    for (g, text) in [
        (Guard::Missing, "not present"),
        (Guard::Protected, "protected path — refused"),
        (Guard::OutsideRoot, "outside allowed root — refused"),
        (Guard::InUse, "in use (active lock) — refused"),
    ] {
        assert_eq!(
            done(judge(&apply, Tier::VmDisk, g, 0, 0, 0)),
            (Verdict::Skipped, text.to_string())
        );
    }
}

#[test]
fn opt_in_tiers_are_held_back_with_their_flag_named() {
    let apply = config(&["--apply"]);
    assert_eq!(
        done(judge(&apply, Tier::VmDisk, Guard::Clear, 0, 0, 0)),
        (Verdict::Skipped, "needs --include-vm-disks".to_string())
    );
    assert_eq!(
        done(judge(&apply, Tier::OsCache, Guard::Clear, 0, 0, 0)),
        (Verdict::Skipped, "needs --include-os-caches".to_string())
    );
    let os = config(&["--include-os-caches"]);
    assert_eq!(
        done(judge(&os, Tier::OsCache, Guard::Clear, 0, 0, 0)),
        (Verdict::Reclaimable, "dry-run".to_string())
    );
}

#[test]
fn the_age_gate_spares_recent_work() {
    let c = config(&["--apply", "--min-age-days", "14"]);
    let gate = min_age_secs(&c);
    assert_eq!(gate, 14 * 86_400);
    let now = 100 * 86_400;
    assert_eq!(
        done(judge(&c, Tier::BuildArtifact, Guard::Clear, now - 86_400, now, gate)),
        (Verdict::Skipped, "newer than 14 days".to_string())
    );
    assert!(matches!(
        judge(&c, Tier::BuildArtifact, Guard::Clear, now - 20 * 86_400, now, gate),
        Judgement::Delete
    ));
    // Nothing dated (newest 0) is never "too new"; a clock behind counts as age 0.
    assert!(matches!(judge(&c, Tier::BuildArtifact, Guard::Clear, 0, now, gate), Judgement::Delete));
    assert_eq!(
        done(judge(&c, Tier::BuildArtifact, Guard::Clear, now + 5, now, gate)),
        (Verdict::Skipped, "newer than 14 days".to_string())
    );
    assert_eq!(min_age_secs(&config(&["--min-age-days", "18446744073709551615"])), u64::MAX);
}

#[test]
fn removal_outcomes() {
    let (v, r) = removal_outcome(Ok(()));
    assert_eq!((v, r.text()), (Verdict::Reclaimable, "deleted".to_string()));
    let (v, r) = removal_outcome(Err("permission denied".to_string()));
    assert_eq!((v, r.text()), (Verdict::Skipped, "delete failed: permission denied".to_string()));
}

fn item(items: &mut Vec<Item>, id: &str, path: &str, bytes: u64, v: Verdict, r: Reason) {
    let t = target(id);
    items.push(Item {
        id: t.id.to_string(),
        tier: t.tier,
        path: path.to_string(),
        bytes,
        files: 1,
        regenerates: t.regenerates.to_string(),
        verdict: v,
        reason: r,
    });
}

fn seen(guard: Guard, bytes: u64, newest: u64) -> Observation {
    Observation { guard, bytes, files: 3, newest }
}

/// One candidate carried through as a run does it: removed when due (with
/// the given result), then reported.
fn settle(cfg: &Config, id: &str, o: Observation, now: u64, gate: u64, result: Result<(), String>) -> Item {
    let t = target(id);
    let removal = if removal_due(cfg, &t, o, now, gate) { Some(result) } else { None };
    let mut items = Vec::new();
    assert!(push_item(&mut items, cfg, &t, "/h/x/cache", o, now, gate, removal));
    items.pop().unwrap()
}

#[test]
fn push_item_copies_the_target() {
    let it = settle(&config(&[]), "uv", seen(Guard::Clear, 10, 0), 1000, 0, Ok(()));
    assert_eq!(it.id, "uv");
    assert_eq!(it.tier, Tier::PackageCache);
    assert_eq!(it.path, "/h/x/cache");
    assert_eq!(it.bytes, 10);
    assert_eq!(it.files, 3);
    assert_eq!(it.regenerates, target("uv").regenerates);
    assert_eq!((it.verdict, it.reason.text()), (Verdict::Reclaimable, "dry-run".to_string()));
}

#[test]
fn push_item_reports_every_outcome() {
    let apply = config(&["--apply"]);
    // Refused by a guard: nothing removed; a missing path has no size.
    let missing = settle(&apply, "uv", seen(Guard::Missing, 99, 0), 1000, 0, Ok(()));
    assert_eq!((missing.verdict, missing.reason.text()), (Verdict::Skipped, "not present".to_string()));
    assert_eq!((missing.bytes, missing.files), (0, 0));
    let locked = settle(&apply, "uv", seen(Guard::InUse, 4096, 0), 1000, 0, Ok(()));
    assert_eq!(locked.reason.text(), "in use (active lock) — refused");
    assert_eq!(locked.bytes, 4096);
    // Held back by a flag, still sized.
    let disk = settle(&apply, "docker-desktop-disk", seen(Guard::Clear, 200_000, 0), 1000, 0, Ok(()));
    assert_eq!((disk.verdict, disk.reason.text()), (Verdict::Skipped, "needs --include-vm-disks".to_string()));
    assert_eq!(disk.bytes, 200_000);
    // Spared by the age gate.
    let aged = config(&["--apply", "--min-age-days", "14"]);
    let gate = min_age_secs(&aged);
    let recent = settle(&aged, "uv", seen(Guard::Clear, 1, 86_400 * 99), 86_400 * 100, gate, Ok(()));
    assert_eq!(recent.reason.text(), "newer than 14 days");
    // Removed, or not.
    let gone = settle(&apply, "uv", seen(Guard::Clear, 4096, 0), 1000, 0, Ok(()));
    assert_eq!((gone.verdict, gone.reason.text(), gone.bytes), (Verdict::Reclaimable, "deleted".to_string(), 4096));
    let failed = settle(&apply, "uv", seen(Guard::Clear, 4096, 0), 1000, 0, Err("busy".to_string()));
    assert_eq!((failed.verdict, failed.reason.text()), (Verdict::Skipped, "delete failed: busy".to_string()));
}

#[test]
fn push_item_refuses_a_removal_that_was_not_due() {
    let t = target("uv");
    let o = seen(Guard::Clear, 1, 0);
    let mut items = Vec::new();
    // A dry run judges nothing for removal, so a removal result does not fit it.
    assert!(!removal_due(&config(&[]), &t, o, 1000, 0));
    assert!(!push_item(&mut items, &config(&[]), &t, "/h/a/b", o, 1000, 0, Some(Ok(()))));
    // Under --apply the removal is due, so leaving it out does not fit either.
    assert!(removal_due(&config(&["--apply"]), &t, o, 1000, 0));
    assert!(!push_item(&mut items, &config(&["--apply"]), &t, "/h/a/b", o, 1000, 0, None));
    assert!(items.is_empty());
}

#[test]
fn apply_deletes_what_the_dry_run_reported() {
    let dry = config(&[]);
    let apply = config(&["--apply"]);
    let cases = [
        ("uv", seen(Guard::Clear, 10, 0)),
        ("uv", seen(Guard::Missing, 0, 0)),
        ("pip", seen(Guard::InUse, 5, 0)),
        ("docker-desktop-disk", seen(Guard::Clear, 700, 0)),
        ("npm", seen(Guard::Clear, 30, 0)),
    ];
    let mut reported = 0;
    let mut deleted = 0;
    for (id, o) in cases {
        let d = settle(&dry, id, o, 1000, 0, Ok(()));
        let a = settle(&apply, id, o, 1000, 0, Ok(()));
        assert_eq!((d.path.clone(), d.bytes), (a.path.clone(), a.bytes));
        assert_eq!(d.reason.text() == "dry-run", a.reason.text() == "deleted");
        if d.reason.text() == "dry-run" {
            reported += d.bytes;
        }
        if a.reason.text() == "deleted" {
            deleted += a.bytes;
        }
    }
    assert_eq!((reported, deleted), (40, 40));
}

#[test]
fn a_found_location_silences_the_absent_one() {
    let mut items = Vec::new();
    item(&mut items, "uv", "/h/.cache/uv", 0, Verdict::Skipped, Reason::NotPresent);
    item(&mut items, "uv", "/h/Library/Caches/uv", 5, Verdict::Reclaimable, Reason::DryRun);
    item(&mut items, "pip", "/h/.cache/pip", 0, Verdict::Skipped, Reason::NotPresent);
    item(&mut items, "pip", "/h/Library/Caches/pip", 0, Verdict::Skipped, Reason::NotPresent);
    let kept = drop_absent_noise(items);
    let paths: Vec<&str> = kept.iter().map(|i| i.path.as_str()).collect();
    assert_eq!(
        paths,
        vec!["/h/Library/Caches/uv", "/h/.cache/pip", "/h/Library/Caches/pip"]
    );
}

#[test]
fn totals_keep_held_back_bytes_apart() {
    let mut items = Vec::new();
    item(&mut items, "uv", "/a", 100, Verdict::Reclaimable, Reason::DryRun);
    item(&mut items, "docker-desktop-disk", "/b", 7000, Verdict::Skipped, Reason::NeedsVmDisks);
    item(&mut items, "pip", "/c", 20, Verdict::Reclaimable, Reason::Deleted);
    item(&mut items, "npm", "/d", 3, Verdict::Skipped, Reason::InUse);
    assert_eq!(totals(&items), (120, 7000, 20));
    let report = build_report(&config(&[]), items, Some(5), Some(9));
    assert!(report.dry_run);
    assert_eq!(report.total_reclaimable_bytes, 120);
    assert_eq!(report.total_opt_in_bytes, 7000);
    assert_eq!(report.total_deleted_bytes, 20);
    assert_eq!(report.free_bytes_before, Some(5));
    assert_eq!(report.free_bytes_after, None);
    let applied = build_report(&config(&["--apply"]), Vec::new(), Some(5), Some(9));
    assert!(!applied.dry_run);
    assert_eq!(applied.free_bytes_after, Some(9));
}

#[test]
fn totals_saturate() {
    let mut items = Vec::new();
    item(&mut items, "uv", "/a", u64::MAX, Verdict::Reclaimable, Reason::DryRun);
    item(&mut items, "pip", "/b", 1, Verdict::Reclaimable, Reason::DryRun);
    assert_eq!(totals(&items).0, u64::MAX);
}

#[test]
fn what_a_run_looks_at() {
    let plain = config(&[]);
    assert!(considered(&plain, &target("uv")));
    assert!(considered(&plain, &target("docker-desktop-disk")));
    assert!(!considered(&plain, &target("spotify-cache")));
    assert!(considered(&config(&["--include-os-caches"]), &target("spotify-cache")));
    let only = config(&["--only-roots"]);
    assert!(!considered(&only, &target("uv")));
    assert!(!considered(&only, &target("docker-desktop-disk")));
    assert!(considered(&only, &target("node_modules")));
}

#[test]
fn no_external_suppresses_delegated_cleanups() {
    assert!(wants_external(&config(&[]), &target("docker")));
    assert!(wants_external(&config(&[]), &target("homebrew")));
    assert!(!wants_external(&config(&["--no-external"]), &target("docker")));
    assert!(!wants_external(&config(&["--no-external"]), &target("homebrew")));
}

#[test]
fn only_roots_runs_no_delegated_cleanup() {
    let only = config(&["--only-roots", "--apply"]);
    assert!(!wants_external(&only, &target("docker")));
    assert!(!wants_external(&only, &target("homebrew")));
    assert!(!considered(&only, &target("xcode-derived-data")));
    assert!(!considered(&only, &target("maven")));
    assert!(considered(&only, &target("cargo-target")));
}

#[test]
fn external_items_say_what_ran() {
    let t = target("docker");
    let (probe, args, note) = match t.kind {
        Kind::External { probe, apply_args, note } => (probe, apply_args, note),
        _ => panic!("docker is delegated"),
    };
    let missing = external_item(&t, probe, args, note, ExternalOutcome::NotInstalled);
    assert_eq!(missing.path, "docker (not installed)");
    assert_eq!(missing.verdict, Verdict::Skipped);
    assert_eq!(missing.reason.text(), "docker not installed");
    let dry = external_item(&t, probe, args, note, ExternalOutcome::NotRun);
    assert_eq!(dry.path, format!("docker: {note}"));
    assert_eq!(dry.verdict, Verdict::Reclaimable);
    assert_eq!(dry.reason.text(), "dry-run — would run `docker system prune -f`");
    assert_eq!(dry.bytes, 0);
    let ran = external_item(&t, probe, args, note, ExternalOutcome::Succeeded);
    assert_eq!(ran.reason.text(), "ran `docker system prune -f`");
    let failed = external_item(&t, probe, args, note, ExternalOutcome::Failed("boom".to_string()));
    assert_eq!(failed.reason.text(), "`docker system prune -f` failed: boom");
    let err = external_item(&t, probe, args, note, ExternalOutcome::Error("no such file".to_string()));
    assert_eq!(err.reason.text(), "`docker` error: no such file");
}

#[test]
fn only_apply_runs_a_cleanup_command() {
    let dry = config(&[]);
    let apply = config(&["--apply"]);
    assert_eq!(external_step(&dry, true), ExternalStep::Report);
    assert_eq!(external_step(&dry, false), ExternalStep::NotInstalled);
    assert_eq!(external_step(&apply, false), ExternalStep::NotInstalled);
    assert_eq!(external_step(&apply, true), ExternalStep::RunApply);
}

#[test]
fn delegated_lines_follow_the_step() {
    let t = target("homebrew");
    let (probe, args, note) = match t.kind {
        Kind::External { probe, apply_args, note } => (probe, apply_args, note),
        _ => panic!("homebrew is delegated"),
    };
    let dry = config(&[]);
    let apply = config(&["--apply"]);
    let missing = delegated_item(&apply, &t, probe, args, note, false, None).unwrap();
    assert_eq!(missing.reason.text(), "brew not installed");
    let would = delegated_item(&dry, &t, probe, args, note, true, None).unwrap();
    assert_eq!(would.reason.text(), "dry-run — would run `brew cleanup --prune=all`");
    let ran = delegated_item(&apply, &t, probe, args, note, true, Some(ExternalOutcome::Succeeded)).unwrap();
    assert_eq!(ran.reason.text(), "ran `brew cleanup --prune=all`");
    assert_eq!(ran.path, format!("brew: {note}"));
    // A command result that the step did not call for has no line.
    assert!(delegated_item(&dry, &t, probe, args, note, true, Some(ExternalOutcome::Succeeded)).is_none());
    assert!(delegated_item(&apply, &t, probe, args, note, false, Some(ExternalOutcome::Succeeded)).is_none());
    assert!(delegated_item(&apply, &t, probe, args, note, true, None).is_none());
    assert!(delegated_item(&apply, &t, probe, args, note, true, Some(ExternalOutcome::NotRun)).is_none());
}

fn run_of(cfg: &Config, seen: &Vec<Observation>, removals: Vec<Option<Result<(), String>>>) -> Option<diskzap::report::Report> {
    let cat = catalog();
    let idx = |id: &str| cat.iter().position(|t| t.id == id).unwrap();
    let kept = vec![
        Candidate::new(idx("uv"), "/h/.cache/uv", "/h/.cache/uv"),
        Candidate::new(idx("uv"), "/h/Library/Caches/uv", "/h/Library/Caches/uv"),
        Candidate::new(idx("docker-desktop-disk"), "/h/Docker.raw", "/h/Docker.raw"),
        Candidate::new(idx("npm"), "/h/.npm/_cacache", "/h/.npm/_cacache"),
    ];
    let t = target("docker");
    let (probe, args, note) = match t.kind {
        Kind::External { probe, apply_args, note } => (probe, apply_args, note),
        _ => panic!("docker is delegated"),
    };
    let ext = vec![external_item(&t, probe, args, note, ExternalOutcome::NotInstalled)];
    finish_run(cfg, &cat, &kept, seen, removals, ext, 1000, 0, Some(1), Some(2))
}

#[test]
fn a_run_deletes_what_its_dry_run_reported() {
    let seen = vec![
        seen(Guard::Clear, 4096, 0),
        seen(Guard::Missing, 0, 0),
        seen(Guard::Clear, 200_000, 0),
        seen(Guard::Clear, 64, 0),
    ];
    let dry = run_of(&config(&[]), &seen, vec![None, None, None, None]).unwrap();
    assert!(dry.dry_run);
    assert_eq!(dry.free_bytes_after, None);
    assert_eq!(dry.total_reclaimable_bytes, 4160);
    assert_eq!(dry.total_deleted_bytes, 0);
    assert_eq!(dry.total_opt_in_bytes, 200_000);
    // The absent uv location is noise beside the found one.
    let reasons: Vec<String> = dry.items.iter().map(|i| i.reason.text()).collect();
    assert_eq!(reasons, vec!["dry-run", "needs --include-vm-disks", "dry-run", "docker not installed"]);
    let apply = config(&["--apply"]);
    let applied = run_of(&apply, &seen, vec![Some(Ok(())), None, None, Some(Ok(()))]).unwrap();
    assert!(!applied.dry_run);
    assert_eq!(applied.free_bytes_after, Some(2));
    assert_eq!(applied.total_deleted_bytes, dry.total_reclaimable_bytes);
    for (d, a) in dry.items.iter().zip(applied.items.iter()) {
        assert_eq!((d.path.clone(), d.bytes), (a.path.clone(), a.bytes));
        assert_eq!(d.reason.text() == "dry-run", a.reason.text() == "deleted");
    }
    // Findings that do not fit the candidates give no report.
    assert!(run_of(&apply, &seen, vec![None, None, None, Some(Ok(()))]).is_none());
    assert!(run_of(&apply, &seen, vec![Some(Ok(()))]).is_none());
}
