use std::collections::BTreeMap;

use diskzap::config::{parse_args, ArgsOutcome, Config};
use diskzap::render::render_human;
use diskzap::report::{build_report, Item, Reason, Report, Verdict};
use diskzap::targets::catalog;
use diskzap::units::human;

fn config(a: &[&str]) -> Config {
    let v: Vec<String> = a.iter().map(|s| s.to_string()).collect();
    match parse_args(&v) {
        ArgsOutcome::Run(c) => c,
        _ => panic!("bad test arguments"),
    }
}

fn item(items: &mut Vec<Item>, id: &str, path: &str, bytes: u64, v: Verdict, r: Reason) {
    let t = catalog().into_iter().find(|t| t.id == id).unwrap();
    items.push(Item {
        id: t.id.to_string(),
        tier: t.tier,
        path: path.to_string(),
        bytes,
        files: 1,
        regenerates: t.regenerates.to_string(),
        verdict: v,
        reason: r,
    });
}

fn line(o: &mut String, s: String) {
    o.push_str(&s);
    o.push('\n');
}

/// The report as the command line prints it, written with `format!`.
fn expected(r: &Report, top: usize) -> String {
    let mut o = String::new();
    line(&mut o, format!(
        "diskzap {}",
        if r.dry_run {
            "(dry-run — nothing deleted)"
        } else {
            "(APPLY — deleting)"
        }
    ));
    if let Some(before) = r.free_bytes_before {
        o.push_str(&format!("free on data volume: {}", human(before)));
        match r.free_bytes_after {
            Some(after) => line(&mut o, format!(" → {}", human(after))),
            None => o.push('\n'),
        }
    }
    line(&mut o, format!("{:-<72}", ""));
    let mut by_id: BTreeMap<&str, (u64, usize)> = BTreeMap::new();
    for i in &r.items {
        if i.verdict == Verdict::Reclaimable {
            let e = by_id.entry(&i.id).or_insert((0, 0));
            e.0 += i.bytes;
            e.1 += 1;
        }
    }
    let mut rows: Vec<_> = by_id.into_iter().collect();
    rows.sort_by_key(|r| std::cmp::Reverse(r.1 .0));
    for (id, (bytes, n)) in &rows {
        let count = if *n > 1 {
            format!("  ({n} paths)")
        } else {
            String::new()
        };
        line(&mut o, format!("  {:>9}  {:<20}{}", human(*bytes), id, count));
    }
    let mut big: Vec<&Item> = r
        .items
        .iter()
        .filter(|i| i.verdict == Verdict::Reclaimable && i.bytes > 0)
        .collect();
    big.sort_by_key(|i| std::cmp::Reverse(i.bytes));
    if !big.is_empty() {
        line(&mut o, format!("\n  largest:"));
        for i in big.iter().take(top) {
            line(&mut o, format!("    {:>9}  {}", human(i.bytes), i.path));
        }
        if big.len() > top {
            line(&mut o, format!("    … and {} more (--top N, or --json)", big.len() - top));
        }
    }
    let gated: Vec<&Item> = r
        .items
        .iter()
        .filter(|i| i.reason.text().starts_with("needs --"))
        .collect();
    if !gated.is_empty() {
        line(&mut o, format!("\n  held back (needs a flag):"));
        for i in &gated {
            line(&mut o, format!("    {:>9}  {:<20} {}", human(i.bytes), i.id, i.reason.text()));
        }
    }
    let skipped: Vec<&Item> = r
        .items
        .iter()
        .filter(|i| {
            let reason = i.reason.text();
            i.verdict == Verdict::Skipped && reason != "not present" && !reason.starts_with("needs --")
        })
        .collect();
    if !skipped.is_empty() {
        line(&mut o, format!("\n  skipped:"));
        for i in &skipped {
            line(&mut o, format!("    {:<20} {}  ({})", i.id, i.path, i.reason.text()));
        }
    }
    let absent = r.items.iter().filter(|i| i.reason.text() == "not present").count();
    if absent > 0 {
        line(&mut o, format!("\n  {absent} target(s) not present on this machine"));
    }
    line(&mut o, format!("{:-<72}", ""));
    if r.dry_run {
        line(&mut o, format!(
            "Reclaimable: {}   (run again with --apply to delete)",
            human(r.total_reclaimable_bytes)
        ));
    } else {
        line(&mut o, format!("Deleted: {}", human(r.total_deleted_bytes)));
    }
    if r.total_opt_in_bytes > 0 {
        line(&mut o, format!(
            "Held back: {}   (opt in with --include-vm-disks / --include-os-caches)",
            human(r.total_opt_in_bytes)
        ));
    }
    o
}

fn sample() -> Vec<Item> {
    let mut items = Vec::new();
    item(&mut items, "uv", "/h/.cache/uv", 2048, Verdict::Reclaimable, Reason::DryRun);
    item(&mut items, "uv", "/h/Library/Caches/uv", 1024, Verdict::Reclaimable, Reason::DryRun);
    item(&mut items, "pip", "/h/.cache/pip", 4096, Verdict::Reclaimable, Reason::DryRun);
    item(&mut items, "docker-desktop-disk", "/h/Docker.raw", 1_048_576, Verdict::Skipped, Reason::NeedsVmDisks);
    item(&mut items, "npm", "/h/.npm/_cacache", 0, Verdict::Skipped, Reason::NotPresent);
    item(&mut items, "yarn", "/h/.cache/yarn", 10, Verdict::Skipped, Reason::InUse);
    item(&mut items, "bun", "/h/.bun/install/cache", 3072, Verdict::Reclaimable, Reason::DryRun);
    item(&mut items, "npx", "/h/.npm/_npx", 0, Verdict::Reclaimable, Reason::DryRun);
    items
}

#[test]
fn renders_a_dry_run() {
    let report = build_report(&config(&[]), sample(), Some(2048), Some(1));
    let text = render_human(&report, 2);
    assert_eq!(text, expected(&report, 2));
    assert!(text.starts_with("diskzap (dry-run — nothing deleted)\nfree on data volume: 2.0KB\n"));
    assert!(text.contains("  (2 paths)\n"));
    assert!(text.contains("    … and 2 more (--top N, or --json)\n"));
    assert!(text.contains("\n  1 target(s) not present on this machine\n"));
    assert!(text.ends_with("Reclaimable: 10.0KB   (run again with --apply to delete)\nHeld back: 1.0MB   (opt in with --include-vm-disks / --include-os-caches)\n"));
}

#[test]
fn renders_an_apply_run() {
    let mut items = Vec::new();
    item(&mut items, "uv", "/h/.cache/uv", 5000, Verdict::Reclaimable, Reason::Deleted);
    item(&mut items, "pip", "/h/.cache/pip", 10, Verdict::Skipped, Reason::DeleteFailed("busy".to_string()));
    let report = build_report(&config(&["--apply"]), items, Some(100), Some(5100));
    let text = render_human(&report, 12);
    assert_eq!(text, expected(&report, 12));
    assert!(text.contains("free on data volume: 100B → 5.0KB\n"));
    assert!(text.ends_with("Deleted: 4.9KB\n"));
}

#[test]
fn renders_an_empty_report() {
    let report = build_report(&config(&[]), Vec::new(), None, None);
    let text = render_human(&report, 12);
    assert_eq!(text, expected(&report, 12));
    assert_eq!(
        text,
        format!(
            "diskzap (dry-run — nothing deleted)\n{0}\n{0}\nReclaimable: 0B   (run again with --apply to delete)\n",
            "-".repeat(72)
        )
    );
}

#[test]
fn rollup_ties_are_listed_by_id() {
    let mut items = Vec::new();
    item(&mut items, "yarn", "/y", 2048, Verdict::Reclaimable, Reason::DryRun);
    item(&mut items, "npm", "/n", 2048, Verdict::Reclaimable, Reason::DryRun);
    item(&mut items, "uv", "/u", 4096, Verdict::Reclaimable, Reason::DryRun);
    let report = build_report(&config(&[]), items, None, None);
    assert_eq!(render_human(&report, 12), expected(&report, 12));
}
