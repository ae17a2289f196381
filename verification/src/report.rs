//! Judging candidates and putting together the report.
//!
//! Everything here decides; the filesystem work (sizing, removing, probing a
//! tool) is done by the caller, which hands the results in as plain values.
use vstd::prelude::*;

use crate::config::{tier_deletable, Config, ConfigModel, deletable};
use crate::dedupe::Candidate;
use crate::safety::Guard;
use crate::targets::{Kind, Target, Tier};
use crate::text::{concat, join_spaced, join_with_spaces};

verus! {

#[derive(Debug, Clone, Copy, PartialEq, Eq, Structural)]
pub enum Verdict {
    Reclaimable,
    Skipped,
}

/// Why an item is reported the way it is.
pub enum Reason {
    NotPresent,
    Protected,
    OutsideRoot,
    InUse,
    /// Sized and shown, but the tier needs --include-vm-disks.
    NeedsVmDisks,
    /// Sized and shown, but the tier needs --include-os-caches.
    NeedsOsCaches,
    /// Touched within the last this many days.
    NewerThan(u64),
    DryRun,
    Deleted,
    DeleteFailed(String),
    /// The delegated tool (named) is not installed.
    NotInstalled(String),
    /// A dry run would run this command.
    WouldRun(String),
    /// This command ran and succeeded.
    Ran(String),
    /// This command ran and failed, with this error output.
    CommandFailed(String, String),
    /// The named tool could not be started, with this error.
    CommandError(String, String),
}

pub open spec fn verdict_text(v: Verdict) -> Seq<char> {
    match v {
        Verdict::Reclaimable => "reclaimable"@,
        Verdict::Skipped => "skipped"@,
    }
}

pub open spec fn reason_text(r: Reason) -> Seq<char> {
    match r {
        Reason::NotPresent => "not present"@,
        Reason::Protected => "protected path — refused"@,
        Reason::OutsideRoot => "outside allowed root — refused"@,
        Reason::InUse => "in use (active lock) — refused"@,
        Reason::NeedsVmDisks => "needs --include-vm-disks"@,
        Reason::NeedsOsCaches => "needs --include-os-caches"@,
        Reason::NewerThan(days) => "newer than "@ + crate::units::decimal(days as nat) + " days"@,
        Reason::DryRun => "dry-run"@,
        Reason::Deleted => "deleted"@,
        Reason::DeleteFailed(e) => "delete failed: "@ + e@,
        Reason::NotInstalled(probe) => probe@ + " not installed"@,
        Reason::WouldRun(cmd) => "dry-run — would run `"@ + cmd@ + "`"@,
        Reason::Ran(cmd) => "ran `"@ + cmd@ + "`"@,
        Reason::CommandFailed(cmd, err) => "`"@ + cmd@ + "` failed: "@ + err@,
        Reason::CommandError(probe, err) => "`"@ + probe@ + "` error: "@ + err@,
    }
}

/// Held back behind an opt-in flag (the reasons that start with "needs --").
pub open spec fn is_opt_in(r: Reason) -> bool {
    r is NeedsVmDisks || r is NeedsOsCaches
}

impl Verdict {
    pub fn text(self) -> (r: &'static str)
        ensures
            r@ == verdict_text(self),
    {
        match self {
            Verdict::Reclaimable => "reclaimable",
            Verdict::Skipped => "skipped",
        }
    }
}

impl Reason {
    /// The reason as the report prints it.
    pub fn text(&self) -> (r: String)
        ensures
            r@ == reason_text(*self),
    {
        match self {
            Reason::NotPresent => "not present".to_string(),
            Reason::Protected => "protected path — refused".to_string(),
            Reason::OutsideRoot => "outside allowed root — refused".to_string(),
            Reason::InUse => "in use (active lock) — refused".to_string(),
            Reason::NeedsVmDisks => "needs --include-vm-disks".to_string(),
            Reason::NeedsOsCaches => "needs --include-os-caches".to_string(),
            Reason::NewerThan(days) => {
                let mut s = "newer than ".to_string();
                crate::units::push_decimal(&mut s, *days as u128);
                s.append(" days");
                s
            },
            Reason::DryRun => "dry-run".to_string(),
            Reason::Deleted => "deleted".to_string(),
            Reason::DeleteFailed(e) => concat("delete failed: ", e.as_str()),
            Reason::NotInstalled(probe) => concat(probe.as_str(), " not installed"),
            Reason::WouldRun(cmd) => {
                let mut s = concat("dry-run — would run `", cmd.as_str());
                s.append("`");
                s
            },
            Reason::Ran(cmd) => {
                let mut s = concat("ran `", cmd.as_str());
                s.append("`");
                s
            },
            Reason::CommandFailed(cmd, err) => {
                let mut s = concat("`", cmd.as_str());
                s.append("` failed: ");
                s.append(err.as_str());
                s
            },
            Reason::CommandError(probe, err) => {
                let mut s = concat("`", probe.as_str());
                s.append("` error: ");
                s.append(err.as_str());
                s
            },
        }
    }
}

/// One line of the report.
pub struct Item {
    pub id: String,
    pub tier: Tier,
    pub path: String,
    pub bytes: u64,
    pub files: u64,
    pub regenerates: String,
    pub verdict: Verdict,
    pub reason: Reason,
}

/// What to do with a candidate that has been sized and guarded.
pub enum Judgement {
    /// Report it with this verdict and reason.
    Done(Verdict, Reason),
    /// Remove it (only under --apply), then report how that went.
    Delete,
}

/// `now - newest`, floored at zero.
pub open spec fn age(now: u64, newest: u64) -> int {
    if now >= newest {
        now - newest
    } else {
        0
    }
}

/// Touched more recently than the age gate allows.
pub open spec fn too_new(newest: u64, now: u64, min_age_secs: u64) -> bool {
    min_age_secs > 0 && newest > 0 && age(now, newest) < min_age_secs
}

pub open spec fn judgement_of(
    cfg: ConfigModel,
    tier: Tier,
    guard: Guard,
    newest: u64,
    now: u64,
    min_age_secs: u64,
) -> Judgement {
    match guard {
        Guard::Missing => Judgement::Done(Verdict::Skipped, Reason::NotPresent),
        Guard::Protected => Judgement::Done(Verdict::Skipped, Reason::Protected),
        Guard::OutsideRoot => Judgement::Done(Verdict::Skipped, Reason::OutsideRoot),
        Guard::InUse => Judgement::Done(Verdict::Skipped, Reason::InUse),
        Guard::Clear => if !tier_deletable(tier, cfg) {
            Judgement::Done(
                Verdict::Skipped,
                if tier is VmDisk {
                    Reason::NeedsVmDisks
                } else {
                    Reason::NeedsOsCaches
                },
            )
        } else if too_new(newest, now, min_age_secs) {
            Judgement::Done(Verdict::Skipped, Reason::NewerThan(cfg.min_age_days))
        } else if cfg.apply {
            Judgement::Delete
        } else {
            Judgement::Done(Verdict::Reclaimable, Reason::DryRun)
        },
    }
}

/// The age gate in seconds: `--min-age-days` days, saturating.
pub fn min_age_secs(cfg: &Config) -> (r: u64)
    ensures
        r as int == if cfg.min_age_days * 86400 <= u64::MAX {
            cfg.min_age_days * 86400
        } else {
            u64::MAX as int
        },
{
    if cfg.min_age_days > u64::MAX / 86400 {
        u64::MAX
    } else {
        cfg.min_age_days * 86400
    }
}

/// Decides what happens to a candidate: refused by a guard, held back by a
/// flag, spared by the age gate, removed (`--apply`), or reported (dry run).
/// `newest` is the newest modification time found under it (0 if none).
pub fn judge(
    cfg: &Config,
    tier: Tier,
    guard: Guard,
    newest: u64,
    now: u64,
    min_age_secs: u64,
) -> (r: Judgement)
    ensures
        r == judgement_of(cfg@, tier, guard, newest, now, min_age_secs),
{
    match guard {
        Guard::Missing => Judgement::Done(Verdict::Skipped, Reason::NotPresent),
        Guard::Protected => Judgement::Done(Verdict::Skipped, Reason::Protected),
        Guard::OutsideRoot => Judgement::Done(Verdict::Skipped, Reason::OutsideRoot),
        Guard::InUse => Judgement::Done(Verdict::Skipped, Reason::InUse),
        Guard::Clear => {
            let gated = !deletable(tier, cfg);
            let age = if now >= newest {
                now - newest
            } else {
                0
            };
            let too_new = min_age_secs > 0 && newest > 0 && age < min_age_secs;
            if gated {
                let reason = match tier {
                    Tier::VmDisk => Reason::NeedsVmDisks,
                    _ => Reason::NeedsOsCaches,
                };
                Judgement::Done(Verdict::Skipped, reason)
            } else if too_new {
                Judgement::Done(Verdict::Skipped, Reason::NewerThan(cfg.min_age_days))
            } else if cfg.apply {
                Judgement::Delete
            } else {
                Judgement::Done(Verdict::Reclaimable, Reason::DryRun)
            }
        },
    }
}

/// How a removal went: the item is reported deleted, or skipped with the error.
pub fn removal_outcome(result: Result<(), String>) -> (r: (Verdict, Reason))
    ensures
        match result {
            Ok(_) => r.0 == Verdict::Reclaimable && r.1 is Deleted,
            Err(e) => r.0 == Verdict::Skipped && r.1 == Reason::DeleteFailed(e),
        },
{
    match result {
        Ok(_) => (Verdict::Reclaimable, Reason::Deleted),
        Err(e) => (Verdict::Skipped, Reason::DeleteFailed(e)),
    }
}

/// The item a target reports for one path.
pub open spec fn item_of(
    it: Item,
    target: Target,
    path: Seq<char>,
    bytes: u64,
    files: u64,
    verdict: Verdict,
    reason: Reason,
) -> bool {
    &&& it.id@ == target.id@
    &&& it.tier == target.tier
    &&& it.path@ == path
    &&& it.bytes == bytes
    &&& it.files == files
    &&& it.regenerates@ == target.regenerates@
    &&& it.verdict == verdict
    &&& it.reason == reason
}

fn append_item(
    items: &mut Vec<Item>,
    target: &Target,
    path: &str,
    bytes: u64,
    files: u64,
    verdict: Verdict,
    reason: Reason,
)
    ensures
        final(items)@.len() == old(items)@.len() + 1,
        final(items)@.subrange(0, old(items)@.len() as int) == old(items)@,
        item_of(final(items)@.last(), *target, path@, bytes, files, verdict, reason),
{
    let it = Item {
        id: target.id.to_string(),
        tier: target.tier,
        path: path.to_string(),
        bytes,
        files,
        regenerates: target.regenerates.to_string(),
        verdict,
        reason,
    };
    items.push(it);
    assert(items@.subrange(0, old(items)@.len() as int) =~= old(items)@);
}

/// What the caller found of a candidate on disk.
#[derive(Clone, Copy)]
pub struct Observation {
    /// The guards' verdict on the candidate (see `safety::evaluate`).
    pub guard: Guard,
    /// Allocated bytes and file count under it.
    pub bytes: u64,
    pub files: u64,
    /// Newest modification time under it, in seconds (0 if none).
    pub newest: u64,
}

/// The verdict and reason a candidate ends with, given its judgement and the
/// result of the removal the caller carried out. A removal result belongs to
/// a candidate judged for removal and to no other, so any other pairing has
/// no outcome.
pub open spec fn settled(j: Judgement, removal: Option<Result<(), String>>) -> Option<(Verdict, Reason)> {
    match j {
        Judgement::Done(v, r) => match removal {
            None => Some((v, r)),
            Some(_) => None,
        },
        Judgement::Delete => match removal {
            Some(Ok(_)) => Some((Verdict::Reclaimable, Reason::Deleted)),
            Some(Err(e)) => Some((Verdict::Skipped, Reason::DeleteFailed(e))),
            None => None,
        },
    }
}

/// A candidate that is not there has no size.
pub open spec fn sized(seen: Observation, n: u64) -> u64 {
    if seen.guard is Missing {
        0
    } else {
        n
    }
}

/// `it` is the report line of a candidate at `path` of `target`, found as
/// `seen`, judged under `cfg` and settled with `removal`.
pub open spec fn candidate_item(
    it: Item,
    cfg: ConfigModel,
    target: Target,
    path: Seq<char>,
    seen: Observation,
    now: u64,
    min_age_secs: u64,
    removal: Option<Result<(), String>>,
) -> bool {
    match settled(judgement_of(cfg, target.tier, seen.guard, seen.newest, now, min_age_secs), removal) {
        Some((v, r)) => item_of(it, target, path, sized(seen, seen.bytes), sized(seen, seen.files), v, r),
        None => false,
    }
}

/// Is this candidate to be removed now? Exactly when it is judged for removal:
/// under --apply, every guard passed, its tier deletable, the age gate clear.
pub fn removal_due(
    cfg: &Config,
    target: &Target,
    seen: Observation,
    now: u64,
    min_age_secs: u64,
) -> (r: bool)
    ensures
        r == (judgement_of(cfg@, target.tier, seen.guard, seen.newest, now, min_age_secs) is Delete),
{
    match judge(cfg, target.tier, seen.guard, seen.newest, now, min_age_secs) {
        Judgement::Delete => true,
        Judgement::Done(_, _) => false,
    }
}

/// Adds the report line of one candidate: refused by a guard, held back by a
/// flag, spared by the age gate, reported (dry run), or removed (`--apply`),
/// in which case `removal` is how the removal went. `removal` must be given
/// exactly for a candidate judged for removal (see `removal_due`); otherwise
/// nothing is added and the result is `false`.
pub fn push_item(
    items: &mut Vec<Item>,
    cfg: &Config,
    target: &Target,
    path: &str,
    seen: Observation,
    now: u64,
    min_age_secs: u64,
    removal: Option<Result<(), String>>,
) -> (pushed: bool)
    ensures
        pushed == (removal is Some <==> judgement_of(
            cfg@,
            target.tier,
            seen.guard,
            seen.newest,
            now,
            min_age_secs,
        ) is Delete),
        pushed ==> {
            &&& final(items)@.len() == old(items)@.len() + 1
            &&& final(items)@.subrange(0, old(items)@.len() as int) == old(items)@
            &&& candidate_item(final(items)@.last(), cfg@, *target, path@, seen, now, min_age_secs, removal)
        },
        !pushed ==> final(items)@ == old(items)@,
{
    let (bytes, files) = match seen.guard {
        Guard::Missing => (0, 0),
        _ => (seen.bytes, seen.files),
    };
    let j = judge(cfg, target.tier, seen.guard, seen.newest, now, min_age_secs);
    match j {
        Judgement::Done(v, r) => match removal {
            None => {
                append_item(items, target, path, bytes, files, v, r);
                true
            },
            Some(_) => false,
        },
        Judgement::Delete => match removal {
            Some(res) => {
                let (v, r) = removal_outcome(res);
                append_item(items, target, path, bytes, files, v, r);
                true
            },
            None => false,
        },
    }
}

/// Some item of the same target found its path present.
pub open spec fn present_elsewhere(items: Seq<Item>, id: Seq<char>) -> bool {
    exists|j: int| 0 <= j < items.len() && items[j].id@ == id && !(#[trigger] items[j].reason is NotPresent)
}

/// A "not present" line of a target that another of its locations matched.
pub open spec fn is_absent_noise(items: Seq<Item>, it: Item) -> bool {
    it.reason is NotPresent && present_elsewhere(items, it.id@)
}

/// The items of `s` that are not noise within `all`.
pub open spec fn without_noise(all: Seq<Item>, s: Seq<Item>) -> Seq<Item>
    decreases s.len(),
{
    if s.len() == 0 {
        seq![]
    } else {
        let r = without_noise(all, s.drop_last());
        if is_absent_noise(all, s.last()) {
            r
        } else {
            r.push(s.last())
        }
    }
}

fn has_present_item(items: &Vec<Item>, id: &str) -> (r: bool)
    ensures
        r == present_elsewhere(items@, id@),
{
    let mut j: usize = 0;
    while j < items.len()
        invariant
            j <= items.len(),
            forall|k: int| 0 <= k < j ==> !(items@[k].id@ == id@ && !(#[trigger] items@[k].reason is NotPresent)),
        decreases items.len() - j,
    {
        let present = match &items[j].reason {
            Reason::NotPresent => false,
            _ => true,
        };
        if present && crate::text::text_eq(items[j].id.as_str(), id) {
            return true;
        }
        j = j + 1;
    }
    false
}

/// A target with several platform locations reports "not present" only when
/// none of them matched: drops the "not present" items of every target that
/// has an item whose path was found.
pub fn drop_absent_noise(items: Vec<Item>) -> (r: Vec<Item>)
    ensures
        r@ == without_noise(items@, items@),
{
    let ghost all = items@;
    let n = items.len();
    let mut noise: Vec<bool> = Vec::new();
    let mut k: usize = 0;
    while k < n
        invariant
            n == items.len(),
            all == items@,
            k <= n,
            noise.len() == k,
            forall|q: int| 0 <= q < k ==> noise@[q] == is_absent_noise(all, #[trigger] all[q]),
        decreases n - k,
    {
        let absent = match &items[k].reason {
            Reason::NotPresent => true,
            _ => false,
        };
        let is_noise = absent && has_present_item(&items, items[k].id.as_str());
        noise.push(is_noise);
        k = k + 1;
    }
    let mut input = items;
    let mut rev: Vec<Item> = Vec::new();
    while input.len() > 0
        invariant
            input.len() + rev.len() == n,
            n == all.len(),
            input@ =~= all.subrange(0, input.len() as int),
            forall|q: int| 0 <= q < rev.len() ==> rev@[q] == all[n - 1 - q],
        decreases input.len(),
    {
        let it = input.pop().unwrap();
        rev.push(it);
    }
    let mut out: Vec<Item> = Vec::new();
    let mut i: usize = 0;
    proof {
        assert(all.subrange(0, 0) =~= Seq::<Item>::empty());
    }
    while rev.len() > 0
        invariant
            i + rev.len() == n,
            n == all.len(),
            noise.len() == n,
            forall|q: int| 0 <= q < n ==> noise@[q] == is_absent_noise(all, #[trigger] all[q]),
            forall|q: int| 0 <= q < rev.len() ==> rev@[q] == all[n - 1 - q],
            out@ == without_noise(all, all.subrange(0, i as int)),
        decreases rev.len(),
    {
        let it = rev.pop().unwrap();
        proof {
            assert(it == all[i as int]);
            assert(all.subrange(0, i + 1).drop_last() =~= all.subrange(0, i as int));
            assert(all.subrange(0, i + 1).last() == all[i as int]);
        }
        if !noise[i] {
            out.push(it);
        }
        i = i + 1;
    }
    assert(all.subrange(0, n as int) =~= all);
    out
}

/// Sum of the bytes of the items that satisfy `counted` (a mathematical sum).
pub open spec fn bytes_where(items: Seq<Item>, counted: spec_fn(Item) -> bool) -> nat
    decreases items.len(),
{
    if items.len() == 0 {
        0
    } else {
        bytes_where(items.drop_last(), counted) + if counted(items.last()) {
            items.last().bytes as nat
        } else {
            0nat
        }
    }
}

/// What --apply would free, or did: items reclaimable or deleted.
pub open spec fn counts_reclaimable(it: Item) -> bool {
    it.verdict == Verdict::Reclaimable || it.reason is Deleted
}

/// Held back behind an opt-in flag.
pub open spec fn counts_opt_in(it: Item) -> bool {
    is_opt_in(it.reason)
}

pub open spec fn counts_deleted(it: Item) -> bool {
    it.reason is Deleted
}

pub open spec fn capped(n: nat) -> u64 {
    if n <= u64::MAX {
        n as u64
    } else {
        u64::MAX
    }
}

/// The byte totals of a report, each saturating at `u64::MAX`.
pub fn totals(items: &Vec<Item>) -> (r: (u64, u64, u64))
    ensures
        r.0 == capped(bytes_where(items@, |it: Item| counts_reclaimable(it))),
        r.1 == capped(bytes_where(items@, |it: Item| counts_opt_in(it))),
        r.2 == capped(bytes_where(items@, |it: Item| counts_deleted(it))),
{
    let ghost rec = |it: Item| counts_reclaimable(it);
    let ghost opt = |it: Item| counts_opt_in(it);
    let ghost del = |it: Item| counts_deleted(it);
    let mut reclaimable: u64 = 0;
    let mut opt_in: u64 = 0;
    let mut deleted: u64 = 0;
    let mut i: usize = 0;
    while i < items.len()
        invariant
            i <= items.len(),
            rec == (|it: Item| counts_reclaimable(it)),
            opt == (|it: Item| counts_opt_in(it)),
            del == (|it: Item| counts_deleted(it)),
            reclaimable == capped(bytes_where(items@.subrange(0, i as int), rec)),
            opt_in == capped(bytes_where(items@.subrange(0, i as int), opt)),
            deleted == capped(bytes_where(items@.subrange(0, i as int), del)),
        decreases items.len() - i,
    {
        let it = &items[i];
        proof {
            let pre = items@.subrange(0, i as int);
            let post = items@.subrange(0, i + 1);
            assert(post.drop_last() =~= pre);
            assert(post.last() == items@[i as int]);
        }
        let is_deleted = match &it.reason {
            Reason::Deleted => true,
            _ => false,
        };
        let is_opt = match &it.reason {
            Reason::NeedsVmDisks => true,
            Reason::NeedsOsCaches => true,
            _ => false,
        };
        let is_rec = it.verdict == Verdict::Reclaimable || is_deleted;
        if is_rec {
            reclaimable = reclaimable.saturating_add(it.bytes);
        }
        if is_opt {
            opt_in = opt_in.saturating_add(it.bytes);
        }
        if is_deleted {
            deleted = deleted.saturating_add(it.bytes);
        }
        i = i + 1;
    }
    assert(items@.subrange(0, items.len() as int) =~= items@);
    (reclaimable, opt_in, deleted)
}

/// The whole report of one run.
pub struct Report {
    pub dry_run: bool,
    /// What --apply would (or did) free with the current flags.
    pub total_reclaimable_bytes: u64,
    /// Sized and shown, but held back behind an opt-in flag, kept apart so the
    /// headline number never promises space the current flags won't free.
    pub total_opt_in_bytes: u64,
    pub total_deleted_bytes: u64,
    /// Free space on the data volume, before and after (after only under --apply).
    pub free_bytes_before: Option<u64>,
    pub free_bytes_after: Option<u64>,
    pub items: Vec<Item>,
}

/// Puts the report together from the items of a run.
pub fn build_report(
    cfg: &Config,
    items: Vec<Item>,
    free_before: Option<u64>,
    free_after: Option<u64>,
) -> (r: Report)
    ensures
        r.dry_run == !cfg.apply,
        r.items@ == items@,
        r.total_reclaimable_bytes == capped(bytes_where(items@, |it: Item| counts_reclaimable(it))),
        r.total_opt_in_bytes == capped(bytes_where(items@, |it: Item| counts_opt_in(it))),
        r.total_deleted_bytes == capped(bytes_where(items@, |it: Item| counts_deleted(it))),
        r.free_bytes_before == free_before,
        r.free_bytes_after == if cfg.apply {
            free_after
        } else {
            None
        },
{
    let (reclaimable, opt_in, deleted) = totals(&items);
    Report {
        dry_run: !cfg.apply,
        total_reclaimable_bytes: reclaimable,
        total_opt_in_bytes: opt_in,
        total_deleted_bytes: deleted,
        free_bytes_before: free_before,
        free_bytes_after: if cfg.apply {
            free_after
        } else {
            None
        },
        items,
    }
}

/// `lines` are the report lines of the candidates `kept`, in order, each
/// judged under `cfg` with what was found of it (`seen`) and how its removal
/// went (`removals`), its target looked up in `catalog`.
pub open spec fn candidate_lines(
    lines: Seq<Item>,
    cfg: ConfigModel,
    catalog: Seq<Target>,
    kept: Seq<Candidate>,
    seen: Seq<Observation>,
    removals: Seq<Option<Result<(), String>>>,
    now: u64,
    min_age_secs: u64,
) -> bool {
    &&& lines.len() == kept.len()
    &&& seen.len() == kept.len()
    &&& removals.len() == kept.len()
    &&& forall|i: int|
        0 <= i < lines.len() ==> candidate_item(
            #[trigger] lines[i],
            cfg,
            catalog[kept[i].target_idx as int],
            kept[i].path@,
            seen[i],
            now,
            min_age_secs,
            removals[i],
        )
}

/// The findings of a run fit its candidates: one observation and one removal
/// slot per candidate, every target in the catalog, and a removal result
/// exactly where a removal was due.
pub open spec fn run_fits(
    cfg: ConfigModel,
    catalog: Seq<Target>,
    kept: Seq<Candidate>,
    seen: Seq<Observation>,
    removals: Seq<Option<Result<(), String>>>,
    now: u64,
    min_age_secs: u64,
) -> bool {
    &&& seen.len() == kept.len()
    &&& removals.len() == kept.len()
    &&& forall|i: int|
        0 <= i < kept.len() ==> {
            &&& (#[trigger] kept[i]).target_idx < catalog.len()
            &&& (removals[i] is Some <==> judgement_of(
                cfg,
                catalog[kept[i].target_idx as int].tier,
                seen[i].guard,
                seen[i].newest,
                now,
                min_age_secs,
            ) is Delete)
        }
}

/// `rep` is the report of a run: the lines of its candidates, less the "not
/// present" noise, then the delegated lines `ext`, with the totals of
/// `build_report`.
pub open spec fn run_report(
    rep: Report,
    cfg: ConfigModel,
    catalog: Seq<Target>,
    kept: Seq<Candidate>,
    seen: Seq<Observation>,
    removals: Seq<Option<Result<(), String>>>,
    ext: Seq<Item>,
    now: u64,
    min_age_secs: u64,
    free_before: Option<u64>,
    free_after: Option<u64>,
) -> bool {
    &&& exists|lines: Seq<Item>|
        #[trigger] candidate_lines(lines, cfg, catalog, kept, seen, removals, now, min_age_secs)
            && rep.items@ == without_noise(lines, lines) + ext
    &&& rep.dry_run == !cfg.apply
    &&& rep.total_reclaimable_bytes == capped(bytes_where(rep.items@, |it: Item| counts_reclaimable(it)))
    &&& rep.total_opt_in_bytes == capped(bytes_where(rep.items@, |it: Item| counts_opt_in(it)))
    &&& rep.total_deleted_bytes == capped(bytes_where(rep.items@, |it: Item| counts_deleted(it)))
    &&& rep.free_bytes_before == free_before
    &&& rep.free_bytes_after == if cfg.apply {
        free_after
    } else {
        None
    }
}

/// Puts a run's report together from what the caller found: the candidates
/// `kept` (their targets in `catalog`), what was seen of each, how each
/// removal went (given exactly where `removal_due` said so), the delegated
/// lines, and the free space before and after. `None` when the findings do
/// not fit the candidates.
pub fn finish_run(
    cfg: &Config,
    catalog: &Vec<Target>,
    kept: &Vec<Candidate>,
    seen: &Vec<Observation>,
    removals: Vec<Option<Result<(), String>>>,
    externals: Vec<Item>,
    now: u64,
    min_age_secs: u64,
    free_before: Option<u64>,
    free_after: Option<u64>,
) -> (r: Option<Report>)
    ensures
        r is Some <==> run_fits(cfg@, catalog@, kept@, seen@, removals@, now, min_age_secs),
        r matches Some(rep) ==> run_report(
            rep,
            cfg@,
            catalog@,
            kept@,
            seen@,
            removals@,
            externals@,
            now,
            min_age_secs,
            free_before,
            free_after,
        ),
{
    let n = kept.len();
    if seen.len() != n || removals.len() != n {
        return None;
    }
    let ghost rm = removals@;
    let mut i: usize = 0;
    while i < n
        invariant
            n == kept.len(),
            seen.len() == n,
            rm.len() == n,
            rm == removals@,
            i <= n,
            forall|q: int|
                0 <= q < i ==> {
                    &&& (#[trigger] kept@[q]).target_idx < catalog.len()
                    &&& (rm[q] is Some <==> judgement_of(
                        cfg@,
                        catalog@[kept@[q].target_idx as int].tier,
                        seen@[q].guard,
                        seen@[q].newest,
                        now,
                        min_age_secs,
                    ) is Delete)
                },
        decreases n - i,
    {
        if kept[i].target_idx >= catalog.len() {
            return None;
        }
        let due = removal_due(cfg, &catalog[kept[i].target_idx], seen[i], now, min_age_secs);
        let given = removals[i].is_some();
        if due != given {
            return None;
        }
        i = i + 1;
    }
    assert(run_fits(cfg@, catalog@, kept@, seen@, rm, now, min_age_secs));
    let mut rest = removals;
    let mut rev: Vec<Option<Result<(), String>>> = Vec::new();
    while rest.len() > 0
        invariant
            rest.len() + rev.len() == n,
            rm.len() == n,
            rest@ =~= rm.subrange(0, rest.len() as int),
            forall|k: int| 0 <= k < rev.len() ==> rev@[k] == rm[n - 1 - k],
        decreases rest.len(),
    {
        let x = rest.pop().unwrap();
        rev.push(x);
    }
    let mut lines: Vec<Item> = Vec::new();
    let mut i: usize = 0;
    while i < n
        invariant
            n == kept.len(),
            rm.len() == n,
            run_fits(cfg@, catalog@, kept@, seen@, rm, now, min_age_secs),
            i <= n,
            rev.len() == n - i,
            forall|k: int| 0 <= k < rev.len() ==> rev@[k] == rm[n - 1 - k],
            lines.len() == i,
            forall|q: int|
                0 <= q < i ==> candidate_item(
                    #[trigger] lines@[q],
                    cfg@,
                    catalog@[kept@[q].target_idx as int],
                    kept@[q].path@,
                    seen@[q],
                    now,
                    min_age_secs,
                    rm[q],
                ),
        decreases n - i,
    {
        let removal = rev.pop().unwrap();
        assert(removal == rm[i as int]);
        assert(kept@[i as int].target_idx < catalog.len());
        let ghost before = lines@;
        let pushed = push_item(
            &mut lines,
            cfg,
            &catalog[kept[i].target_idx],
            kept[i].path.as_str(),
            seen[i],
            now,
            min_age_secs,
            removal,
        );
        assert(pushed);
        assert forall|q: int|
            0 <= q < i + 1 implies candidate_item(
                #[trigger] lines@[q],
                cfg@,
                catalog@[kept@[q].target_idx as int],
                kept@[q].path@,
                seen@[q],
                now,
                min_age_secs,
                rm[q],
            ) by {
            if q < i {
                assert(lines@[q] == before[q]);
            }
        }
        i = i + 1;
    }
    let ghost all = lines@;
    assert(candidate_lines(all, cfg@, catalog@, kept@, seen@, rm, now, min_age_secs));
    let mut items = drop_absent_noise(lines);
    let mut ext = externals;
    items.append(&mut ext);
    let rep = build_report(cfg, items, free_before, free_after);
    Some(rep)
}

/// Is this target looked at in this run at all? A tier that can neither be
/// deleted nor must be reported is skipped whole, and --only-roots keeps only
/// the targets found by walking a --root.
pub open spec fn target_considered(cfg: ConfigModel, tier: Tier, kind_walks_roots: bool) -> bool {
    (tier_deletable(tier, cfg) || tier is VmDisk) && !(cfg.only_roots && !kind_walks_roots)
}

pub fn considered(cfg: &Config, target: &Target) -> (r: bool)
    ensures
        r == target_considered(cfg@, target.tier, target.kind is NamedDirUnder),
{
    if !deletable(target.tier, cfg) && !target.tier.always_reported() {
        return false;
    }
    let walks = match target.kind {
        Kind::NamedDirUnder { .. } => true,
        _ => false,
    };
    !(cfg.only_roots && !walks)
}

/// Does this run hand the target to its tool's own cleanup command? Not under
/// --no-external, and not under --only-roots, which reports only what is
/// found under a --root.
pub open spec fn runs_external(cfg: ConfigModel, tier: Tier) -> bool {
    !cfg.no_external && !cfg.only_roots && tier_deletable(tier, cfg)
}

pub fn wants_external(cfg: &Config, target: &Target) -> (r: bool)
    ensures
        r == runs_external(cfg@, target.tier),
{
    !cfg.no_external && !cfg.only_roots && deletable(target.tier, cfg)
}

/// What became of a delegated cleanup.
pub enum ExternalOutcome {
    /// The tool's `--version` did not succeed.
    NotInstalled,
    /// Dry run: nothing was run.
    NotRun,
    /// The cleanup command ran and succeeded.
    Succeeded,
    /// The cleanup command ran and failed with this (trimmed) error output.
    Failed(String),
    /// The cleanup command could not be started.
    Error(String),
}

/// `probe` and its arguments as one command line.
pub open spec fn command_line(probe: Seq<char>, args: Seq<Seq<char>>) -> Seq<char> {
    probe + " "@ + join_spaced(args)
}

/// `r` is the report line of a delegated cleanup of `target` whose tool is
/// `probe`, with cleanup arguments `args` and `note`, that ended as `outcome`:
/// never sized (the engine owns those numbers), and `note` says what the
/// command does not cover.
pub open spec fn external_line(
    r: Item,
    target: Target,
    probe: Seq<char>,
    args: Seq<Seq<char>>,
    note: Seq<char>,
    outcome: ExternalOutcome,
) -> bool {
    &&& r.id@ == target.id@
    &&& r.tier == target.tier
    &&& r.regenerates@ == target.regenerates@
    &&& r.bytes == 0
    &&& r.files == 0
    &&& match outcome {
        ExternalOutcome::NotInstalled => {
            &&& r.path@ == probe + " (not installed)"@
            &&& r.verdict == Verdict::Skipped
            &&& r.reason is NotInstalled && r.reason->NotInstalled_0@ == probe
        },
        _ => {
            &&& r.path@ == probe + ": "@ + note
            &&& r.verdict == Verdict::Reclaimable
            &&& match outcome {
                ExternalOutcome::NotRun => r.reason is WouldRun && r.reason->WouldRun_0@ == command_line(probe, args),
                ExternalOutcome::Succeeded => r.reason is Ran && r.reason->Ran_0@ == command_line(probe, args),
                ExternalOutcome::Failed(err) => r.reason is CommandFailed && r.reason->CommandFailed_0@
                    == command_line(probe, args) && r.reason->CommandFailed_1 == err,
                ExternalOutcome::Error(err) => r.reason is CommandError && r.reason->CommandError_0@ == probe
                    && r.reason->CommandError_1 == err,
                ExternalOutcome::NotInstalled => true,
            }
        },
    }
}

/// The report line of a delegated cleanup that ended as `outcome`.
pub fn external_item(
    target: &Target,
    probe: &str,
    apply_args: &[&str],
    note: &str,
    outcome: ExternalOutcome,
) -> (r: Item)
    ensures
        external_line(r, *target, probe@, apply_args@.map_values(|a: &str| a@), note@, outcome),
{
    let id = target.id.to_string();
    let regenerates = target.regenerates.to_string();
    match outcome {
        ExternalOutcome::NotInstalled => Item {
            id,
            tier: target.tier,
            path: concat(probe, " (not installed)"),
            bytes: 0,
            files: 0,
            regenerates,
            verdict: Verdict::Skipped,
            reason: Reason::NotInstalled(probe.to_string()),
        },
        other => {
            let mut cmd = concat(probe, " ");
            let args = join_with_spaces(apply_args);
            cmd.append(args.as_str());
            let reason = match other {
                ExternalOutcome::NotRun => Reason::WouldRun(cmd),
                ExternalOutcome::Succeeded => Reason::Ran(cmd),
                ExternalOutcome::Failed(err) => Reason::CommandFailed(cmd, err),
                ExternalOutcome::Error(err) => Reason::CommandError(probe.to_string(), err),
                ExternalOutcome::NotInstalled => Reason::NotInstalled(probe.to_string()),
            };
            let mut path = concat(probe, ": ");
            path.append(note);
            Item {
                id,
                tier: target.tier,
                path,
                bytes: 0,
                files: 0,
                regenerates,
                verdict: Verdict::Reclaimable,
                reason,
            }
        },
    }
}

/// What a run does with a delegated cleanup whose tool has been probed.
#[derive(Debug, Clone, Copy, PartialEq, Eq, Structural)]
pub enum ExternalStep {
    /// The probe failed: report the tool missing; never run it.
    NotInstalled,
    /// Dry run: report the command it would run; never run it.
    Report,
    /// --apply: run the cleanup command, once, with exactly its arguments.
    RunApply,
}

pub open spec fn external_step_of(cfg: ConfigModel, available: bool) -> ExternalStep {
    if !available {
        ExternalStep::NotInstalled
    } else if !cfg.apply {
        ExternalStep::Report
    } else {
        ExternalStep::RunApply
    }
}

/// Decides the step for a delegated cleanup, given whether its tool's
/// `--version` probe succeeded.
pub fn external_step(cfg: &Config, available: bool) -> (r: ExternalStep)
    ensures
        r == external_step_of(cfg@, available),
        (r is RunApply) <==> (available && cfg.apply),
        (r is NotInstalled) <==> !available,
{
    if !available {
        ExternalStep::NotInstalled
    } else if !cfg.apply {
        ExternalStep::Report
    } else {
        ExternalStep::RunApply
    }
}

/// The outcome a delegated cleanup ends with: what its step says, or, when
/// the command was run, how that went. `ran` belongs to the step that runs the
/// command and to no other, and only a run's own outcomes fit it.
pub open spec fn delegated_outcome(step: ExternalStep, ran: Option<ExternalOutcome>) -> Option<ExternalOutcome> {
    match (step, ran) {
        (ExternalStep::NotInstalled, None) => Some(ExternalOutcome::NotInstalled),
        (ExternalStep::Report, None) => Some(ExternalOutcome::NotRun),
        (ExternalStep::RunApply, Some(o)) => match o {
            ExternalOutcome::Succeeded => Some(o),
            ExternalOutcome::Failed(_) => Some(o),
            ExternalOutcome::Error(_) => Some(o),
            _ => None,
        },
        _ => None,
    }
}

/// The report line of a delegated cleanup: its step follows from the probe
/// (`available`) and the flags, and `ran` is how the cleanup command went,
/// given exactly when the step runs it. Any other pairing has no line (`None`).
pub fn delegated_item(
    cfg: &Config,
    target: &Target,
    probe: &str,
    apply_args: &[&str],
    note: &str,
    available: bool,
    ran: Option<ExternalOutcome>,
) -> (r: Option<Item>)
    ensures
        r is Some <==> delegated_outcome(external_step_of(cfg@, available), ran) is Some,
        r matches Some(it) ==> external_line(
            it,
            *target,
            probe@,
            apply_args@.map_values(|a: &str| a@),
            note@,
            delegated_outcome(external_step_of(cfg@, available), ran)->Some_0,
        ),
{
    let step = external_step(cfg, available);
    let outcome = match step {
        ExternalStep::NotInstalled => match ran {
            None => ExternalOutcome::NotInstalled,
            Some(_) => return None,
        },
        ExternalStep::Report => match ran {
            None => ExternalOutcome::NotRun,
            Some(_) => return None,
        },
        ExternalStep::RunApply => match ran {
            Some(ExternalOutcome::Succeeded) => ExternalOutcome::Succeeded,
            Some(ExternalOutcome::Failed(e)) => ExternalOutcome::Failed(e),
            Some(ExternalOutcome::Error(e)) => ExternalOutcome::Error(e),
            _ => return None,
        },
    };
    Some(external_item(target, probe, apply_args, note, outcome))
}

/// A dry run never runs a delegated cleanup command, and a tool whose probe
/// failed is never run; only --apply with the tool present runs it.
pub proof fn lemma_only_apply_runs_a_cleanup(cfg: ConfigModel, available: bool)
    ensures
        !cfg.apply ==> external_step_of(cfg, available) != ExternalStep::RunApply,
        !available ==> external_step_of(cfg, available) == ExternalStep::NotInstalled,
        external_step_of(cfg, available) == ExternalStep::RunApply <==> cfg.apply && available,
{
}

/// A dry run never removes anything: without --apply no candidate is judged
/// for removal.
pub proof fn lemma_dry_run_never_deletes(
    cfg: ConfigModel,
    tier: Tier,
    guard: Guard,
    newest: u64,
    now: u64,
    min_age_secs: u64,
)
    requires
        !cfg.apply,
    ensures
        !(judgement_of(cfg, tier, guard, newest, now, min_age_secs) is Delete),
{
}

/// A candidate is removed only under --apply, when every guard passed, its
/// tier is deletable under the flags and the age gate does not spare it.
pub proof fn lemma_removal_needs_every_gate(
    cfg: ConfigModel,
    tier: Tier,
    guard: Guard,
    newest: u64,
    now: u64,
    min_age_secs: u64,
)
    requires
        judgement_of(cfg, tier, guard, newest, now, min_age_secs) is Delete,
    ensures
        cfg.apply,
        guard == Guard::Clear,
        tier_deletable(tier, cfg),
        !too_new(newest, now, min_age_secs),
{
}

/// OS caches and VM disks are never removed without their flag.
pub proof fn lemma_opt_in_tiers_need_their_flag(
    cfg: ConfigModel,
    tier: Tier,
    guard: Guard,
    newest: u64,
    now: u64,
    min_age_secs: u64,
)
    ensures
        tier is OsCache && !cfg.include_os_caches ==> !(judgement_of(cfg, tier, guard, newest, now, min_age_secs) is Delete),
        tier is VmDisk && !cfg.include_vm_disks ==> !(judgement_of(cfg, tier, guard, newest, now, min_age_secs) is Delete),
{
}

/// What a dry run calls reclaimable is exactly what --apply would go on to
/// remove: a guarded-clear, deletable, old-enough candidate.
pub proof fn lemma_dry_run_reports_what_apply_removes(
    cfg: ConfigModel,
    tier: Tier,
    guard: Guard,
    newest: u64,
    now: u64,
    min_age_secs: u64,
)
    requires
        !cfg.apply,
    ensures
        judgement_of(cfg, tier, guard, newest, now, min_age_secs) == Judgement::Done(Verdict::Reclaimable, Reason::DryRun)
            <==> judgement_of(ConfigModel { apply: true, ..cfg }, tier, guard, newest, now, min_age_secs) is Delete,
{
}

/// Held-back items are never in the headline: an item kept back by a flag is
/// always reported as skipped.
pub proof fn lemma_held_back_is_skipped(
    cfg: ConfigModel,
    tier: Tier,
    guard: Guard,
    newest: u64,
    now: u64,
    min_age_secs: u64,
)
    ensures
        judgement_of(cfg, tier, guard, newest, now, min_age_secs) matches Judgement::Done(v, r)
            ==> (is_opt_in(r) ==> v == Verdict::Skipped),
{
}

/// VM disks are always sized and reported, whatever the flags, unless the run
/// is limited to --root; OS caches are not looked at unless opted in.
pub proof fn lemma_what_is_looked_at(cfg: ConfigModel, walks_roots: bool)
    ensures
        target_considered(cfg, Tier::VmDisk, walks_roots) == !(cfg.only_roots && !walks_roots),
        !cfg.include_os_caches ==> !target_considered(cfg, Tier::OsCache, walks_roots),
        target_considered(cfg, Tier::PackageCache, walks_roots) == !(cfg.only_roots && !walks_roots),
{
}

/// --no-external keeps every delegated cleanup from running.
pub proof fn lemma_no_external_runs_nothing(cfg: ConfigModel, tier: Tier)
    requires
        cfg.no_external,
    ensures
        !runs_external(cfg, tier),
{
}

/// --only-roots looks only under the roots: no target that is not found by
/// walking a --root is considered, and no delegated cleanup runs.
pub proof fn lemma_only_roots_stays_under_the_roots(cfg: ConfigModel, tier: Tier)
    requires
        cfg.only_roots,
    ensures
        !target_considered(cfg, tier, false),
        !runs_external(cfg, tier),
{
}

/// The same configuration with --apply.
pub open spec fn applying(cfg: ConfigModel) -> ConfigModel {
    ConfigModel { apply: true, ..cfg }
}

/// The removal result of a run in which every removal succeeds.
pub open spec fn succeeded_if_due(j: Judgement) -> Option<Result<(), String>> {
    if j is Delete {
        Some(Ok(()))
    } else {
        None
    }
}

/// A dry-run line and an --apply line of the same candidate agree on
/// everything but the outcome: same target, path and size, "not present" in
/// both or neither, and the dry run's reclaimable line is the one deleted.
pub open spec fn paired(d: Item, a: Item) -> bool {
    &&& d.id@ == a.id@
    &&& d.path@ == a.path@
    &&& d.bytes == a.bytes
    &&& (d.reason is NotPresent <==> a.reason is NotPresent)
    &&& (counts_reclaimable(d) <==> counts_deleted(a))
    &&& (d.reason is DryRun <==> a.reason is Deleted)
}

pub open spec fn all_paired(d: Seq<Item>, a: Seq<Item>) -> bool {
    &&& d.len() == a.len()
    &&& forall|k: int| 0 <= k < d.len() ==> paired(#[trigger] d[k], a[k])
}

proof fn lemma_present_elsewhere_paired(d: Seq<Item>, a: Seq<Item>, id: Seq<char>)
    requires
        all_paired(d, a),
    ensures
        present_elsewhere(d, id) == present_elsewhere(a, id),
{
    if present_elsewhere(d, id) {
        let j = choose|j: int| 0 <= j < d.len() && d[j].id@ == id && !(#[trigger] d[j].reason is NotPresent);
        assert(paired(d[j], a[j]));
        assert(0 <= j < a.len() && a[j].id@ == id && !(a[j].reason is NotPresent));
    }
    if present_elsewhere(a, id) {
        let j = choose|j: int| 0 <= j < a.len() && a[j].id@ == id && !(#[trigger] a[j].reason is NotPresent);
        assert(paired(d[j], a[j]));
        assert(0 <= j < d.len() && d[j].id@ == id && !(d[j].reason is NotPresent));
    }
}

proof fn lemma_without_noise_paired(all_d: Seq<Item>, all_a: Seq<Item>, d: Seq<Item>, a: Seq<Item>)
    requires
        all_paired(all_d, all_a),
        all_paired(d, a),
    ensures
        all_paired(without_noise(all_d, d), without_noise(all_a, a)),
    decreases d.len(),
{
    if d.len() > 0 {
        let dp = d.drop_last();
        let ap = a.drop_last();
        assert forall|k: int| 0 <= k < dp.len() implies paired(#[trigger] dp[k], ap[k]) by {
            assert(paired(d[k], a[k]));
        }
        lemma_without_noise_paired(all_d, all_a, dp, ap);
        assert(paired(d[d.len() - 1], a[a.len() - 1]));
        lemma_present_elsewhere_paired(all_d, all_a, d.last().id@);
        let rd = without_noise(all_d, dp);
        let ra = without_noise(all_a, ap);
        if !is_absent_noise(all_d, d.last()) {
            let nd = rd.push(d.last());
            let na = ra.push(a.last());
            assert forall|k: int| 0 <= k < nd.len() implies paired(#[trigger] nd[k], na[k]) by {
                if k < rd.len() {
                    assert(paired(rd[k], ra[k]));
                }
            }
        }
    }
}

proof fn lemma_bytes_match(d: Seq<Item>, a: Seq<Item>, f: spec_fn(Item) -> bool, g: spec_fn(Item) -> bool)
    requires
        d.len() == a.len(),
        forall|k: int| 0 <= k < d.len() ==> (#[trigger] d[k]).bytes == a[k].bytes && (f(d[k]) <==> g(a[k])),
    ensures
        bytes_where(d, f) == bytes_where(a, g),
    decreases d.len(),
{
    if d.len() > 0 {
        let dp = d.drop_last();
        let ap = a.drop_last();
        assert forall|k: int| 0 <= k < dp.len() implies (#[trigger] dp[k]).bytes == ap[k].bytes && (f(dp[k]) <==> g(ap[k])) by {
            assert(d[k] == dp[k]);
        }
        lemma_bytes_match(dp, ap, f, g);
        assert(d[d.len() - 1].bytes == a[a.len() - 1].bytes);
    }
}

proof fn lemma_bytes_of_unsized_tail(s: Seq<Item>, e: Seq<Item>, f: spec_fn(Item) -> bool)
    requires
        forall|k: int| 0 <= k < e.len() ==> (#[trigger] e[k]).bytes == 0,
    ensures
        bytes_where(s + e, f) == bytes_where(s, f),
    decreases e.len(),
{
    if e.len() == 0 {
        assert(s + e =~= s);
    } else {
        let ep = e.drop_last();
        assert((s + e).drop_last() =~= s + ep);
        assert((s + e).last() == e[e.len() - 1]);
        lemma_bytes_of_unsized_tail(s, ep, f);
    }
}

/// --apply removes exactly what the dry run reported. Take a run's candidates
/// found in the same state twice (same targets, paths, guards, sizes, times),
/// once judged as a dry run and once under --apply with every removal
/// succeeding. Once "not present" noise is dropped, the two runs list the
/// same lines in the same order, with the same paths and sizes, and a line is
/// deleted under --apply exactly when the dry run reported it as dry-run
/// reclaimable. With the delegated lines appended (never sized), the bytes
/// --apply deletes are the bytes the dry run called reclaimable.
pub proof fn lemma_apply_removes_what_dry_run_reported(
    cfg: ConfigModel,
    now: u64,
    min_age_secs: u64,
    targets: Seq<Target>,
    paths: Seq<Seq<char>>,
    seen: Seq<Observation>,
    dry: Seq<Item>,
    applied: Seq<Item>,
    dry_ext: Seq<Item>,
    applied_ext: Seq<Item>,
)
    requires
        !cfg.apply,
        targets.len() == seen.len(),
        paths.len() == seen.len(),
        dry.len() == seen.len(),
        applied.len() == seen.len(),
        forall|i: int|
            0 <= i < dry.len() ==> candidate_item(
                #[trigger] dry[i],
                cfg,
                targets[i],
                paths[i],
                seen[i],
                now,
                min_age_secs,
                None,
            ),
        forall|i: int|
            0 <= i < applied.len() ==> candidate_item(
                #[trigger] applied[i],
                applying(cfg),
                targets[i],
                paths[i],
                seen[i],
                now,
                min_age_secs,
                succeeded_if_due(
                    judgement_of(applying(cfg), targets[i].tier, seen[i].guard, seen[i].newest, now, min_age_secs),
                ),
            ),
        forall|k: int| 0 <= k < dry_ext.len() ==> (#[trigger] dry_ext[k]).bytes == 0,
        forall|k: int| 0 <= k < applied_ext.len() ==> (#[trigger] applied_ext[k]).bytes == 0,
    ensures
        ({
            let d = without_noise(dry, dry);
            let a = without_noise(applied, applied);
            &&& d.len() == a.len()
            &&& forall|k: int|
                0 <= k < d.len() ==> {
                    &&& (#[trigger] a[k]).path@ == d[k].path@
                    &&& a[k].bytes == d[k].bytes
                    &&& (a[k].reason is Deleted <==> d[k].reason is DryRun)
                }
            &&& bytes_where(a + applied_ext, |it: Item| counts_deleted(it)) == bytes_where(
                d + dry_ext,
                |it: Item| counts_reclaimable(it),
            )
        }),
{
    assert forall|i: int| 0 <= i < dry.len() implies paired(#[trigger] dry[i], applied[i]) by {
        let t = targets[i];
        let o = seen[i];
        assert(candidate_item(dry[i], cfg, t, paths[i], o, now, min_age_secs, None));
        assert(candidate_item(
            applied[i],
            applying(cfg),
            t,
            paths[i],
            o,
            now,
            min_age_secs,
            succeeded_if_due(judgement_of(applying(cfg), t.tier, o.guard, o.newest, now, min_age_secs)),
        ));
    }
    lemma_without_noise_paired(dry, applied, dry, applied);
    let d = without_noise(dry, dry);
    let a = without_noise(applied, applied);
    assert forall|k: int| 0 <= k < d.len() implies (#[trigger] a[k]).path@ == d[k].path@ && a[k].bytes
        == d[k].bytes && (a[k].reason is Deleted <==> d[k].reason is DryRun) by {
        assert(paired(d[k], a[k]));
    }
    let rec = |it: Item| counts_reclaimable(it);
    let del = |it: Item| counts_deleted(it);
    assert forall|k: int| 0 <= k < d.len() implies (#[trigger] d[k]).bytes == a[k].bytes && (rec(d[k]) <==> del(a[k])) by {
        assert(paired(d[k], a[k]));
    }
    lemma_bytes_match(d, a, rec, del);
    lemma_bytes_of_unsized_tail(d, dry_ext, rec);
    lemma_bytes_of_unsized_tail(a, applied_ext, del);
}

/// The (path, bytes) of the lines a report says were deleted.
pub open spec fn deleted_lines(items: Seq<Item>) -> Set<(Seq<char>, u64)> {
    Set::new(
        |pb: (Seq<char>, u64)|
            exists|i: int|
                0 <= i < items.len() && (#[trigger] items[i]).reason is Deleted && items[i].path@ == pb.0
                    && items[i].bytes == pb.1,
    )
}

/// The (path, bytes) of the lines a report calls dry-run reclaimable.
pub open spec fn dry_run_lines(items: Seq<Item>) -> Set<(Seq<char>, u64)> {
    Set::new(
        |pb: (Seq<char>, u64)|
            exists|i: int|
                0 <= i < items.len() && (#[trigger] items[i]).reason is DryRun && items[i].path@ == pb.0
                    && items[i].bytes == pb.1,
    )
}

/// The removal results of a dry run: none.
pub open spec fn no_removals(n: nat) -> Seq<Option<Result<(), String>>> {
    Seq::new(n, |i: int| None::<Result<(), String>>)
}

/// The removal results of an --apply run in which every due removal succeeds.
pub open spec fn all_removals_succeed(
    cfg: ConfigModel,
    catalog: Seq<Target>,
    kept: Seq<Candidate>,
    seen: Seq<Observation>,
    now: u64,
    min_age_secs: u64,
) -> Seq<Option<Result<(), String>>> {
    Seq::new(
        kept.len(),
        |i: int|
            succeeded_if_due(
                judgement_of(
                    cfg,
                    catalog[kept[i].target_idx as int].tier,
                    seen[i].guard,
                    seen[i].newest,
                    now,
                    min_age_secs,
                ),
            ),
    )
}

proof fn lemma_without_noise_from(all: Seq<Item>, s: Seq<Item>)
    ensures
        forall|k: int|
            0 <= k < without_noise(all, s).len() ==> exists|j: int|
                0 <= j < s.len() && s[j] == #[trigger] without_noise(all, s)[k],
    decreases s.len(),
{
    if s.len() > 0 {
        let d = s.drop_last();
        lemma_without_noise_from(all, d);
        let r = without_noise(all, d);
        assert forall|k: int|
            0 <= k < without_noise(all, s).len() implies exists|j: int|
                0 <= j < s.len() && s[j] == #[trigger] without_noise(all, s)[k] by {
            if k < r.len() {
                let j = choose|j: int| 0 <= j < d.len() && d[j] == #[trigger] r[k];
                assert(s[j] == d[j]);
                assert(without_noise(all, s)[k] == r[k]);
            } else {
                assert(s[s.len() - 1] == without_noise(all, s)[k]);
            }
        }
    }
}

proof fn lemma_nothing_counted(items: Seq<Item>, f: spec_fn(Item) -> bool)
    requires
        forall|k: int| 0 <= k < items.len() ==> !f(#[trigger] items[k]),
    ensures
        bytes_where(items, f) == 0,
    decreases items.len(),
{
    if items.len() > 0 {
        let d = items.drop_last();
        assert forall|k: int| 0 <= k < d.len() implies !f(#[trigger] d[k]) by {
            assert(d[k] == items[k]);
        }
        lemma_nothing_counted(d, f);
        assert(!f(items[items.len() - 1]));
    }
}

/// A dry run removes nothing and runs nothing: its report is a dry run with
/// no free space after, no line deleted and nothing counted as deleted. (Its
/// delegated lines are built by `delegated_item`, which never runs a command
/// without --apply and never reports one deleted.)
pub proof fn lemma_dry_run_report(
    rep: Report,
    cfg: ConfigModel,
    catalog: Seq<Target>,
    kept: Seq<Candidate>,
    seen: Seq<Observation>,
    removals: Seq<Option<Result<(), String>>>,
    ext: Seq<Item>,
    now: u64,
    min_age_secs: u64,
    free_before: Option<u64>,
    free_after: Option<u64>,
)
    requires
        !cfg.apply,
        run_report(rep, cfg, catalog, kept, seen, removals, ext, now, min_age_secs, free_before, free_after),
        forall|k: int| 0 <= k < ext.len() ==> !((#[trigger] ext[k]).reason is Deleted),
    ensures
        rep.dry_run,
        rep.free_bytes_after is None,
        forall|k: int| 0 <= k < rep.items@.len() ==> !((#[trigger] rep.items@[k]).reason is Deleted),
        rep.total_deleted_bytes == 0,
{
    let lines = choose|lines: Seq<Item>|
        #[trigger] candidate_lines(lines, cfg, catalog, kept, seen, removals, now, min_age_secs)
            && rep.items@ == without_noise(lines, lines) + ext;
    assert forall|i: int| 0 <= i < lines.len() implies !((#[trigger] lines[i]).reason is Deleted) by {
        assert(candidate_item(
            lines[i],
            cfg,
            catalog[kept[i].target_idx as int],
            kept[i].path@,
            seen[i],
            now,
            min_age_secs,
            removals[i],
        ));
    }
    lemma_without_noise_from(lines, lines);
    let w = without_noise(lines, lines);
    assert forall|k: int| 0 <= k < rep.items@.len() implies !((#[trigger] rep.items@[k]).reason is Deleted) by {
        if k < w.len() {
            assert(rep.items@[k] == w[k]);
            let j = choose|j: int| 0 <= j < lines.len() && lines[j] == #[trigger] w[k];
            assert(!(lines[j].reason is Deleted));
        } else {
            assert(rep.items@[k] == ext[k - w.len()]);
        }
    }
    let del = |it: Item| counts_deleted(it);
    assert forall|k: int| 0 <= k < rep.items@.len() implies !del(#[trigger] rep.items@[k]) by {
        assert(!(rep.items@[k].reason is Deleted));
    }
    lemma_nothing_counted(rep.items@, del);
}

/// --apply removes exactly what the dry run reported, over a whole run: for
/// the same candidates found in the same state, a dry run and an --apply run
/// in which every removal succeeds report the same (path, bytes) pairs, as
/// dry-run reclaimable and as deleted, and --apply deletes as many bytes as
/// the dry run called reclaimable. The delegated lines are never sized and
/// are never dry-run reclaimable or deleted lines (`delegated_item`).
pub proof fn lemma_apply_run_deletes_what_dry_run_reported(
    cfg: ConfigModel,
    catalog: Seq<Target>,
    kept: Seq<Candidate>,
    seen: Seq<Observation>,
    now: u64,
    min_age_secs: u64,
    dry: Report,
    applied: Report,
    dry_ext: Seq<Item>,
    applied_ext: Seq<Item>,
    free_before: Option<u64>,
    free_after: Option<u64>,
)
    requires
        !cfg.apply,
        run_report(
            dry,
            cfg,
            catalog,
            kept,
            seen,
            no_removals(kept.len()),
            dry_ext,
            now,
            min_age_secs,
            free_before,
            free_after,
        ),
        run_report(
            applied,
            applying(cfg),
            catalog,
            kept,
            seen,
            all_removals_succeed(applying(cfg), catalog, kept, seen, now, min_age_secs),
            applied_ext,
            now,
            min_age_secs,
            free_before,
            free_after,
        ),
        forall|k: int|
            0 <= k < dry_ext.len() ==> (#[trigger] dry_ext[k]).bytes == 0 && !(dry_ext[k].reason is DryRun),
        forall|k: int|
            0 <= k < applied_ext.len() ==> (#[trigger] applied_ext[k]).bytes == 0 && !(
            applied_ext[k].reason is Deleted),
    ensures
        deleted_lines(applied.items@) == dry_run_lines(dry.items@),
        applied.total_deleted_bytes == dry.total_reclaimable_bytes,
{
    let none = no_removals(kept.len());
    let ok = all_removals_succeed(applying(cfg), catalog, kept, seen, now, min_age_secs);
    let ld = choose|lines: Seq<Item>|
        #[trigger] candidate_lines(lines, cfg, catalog, kept, seen, none, now, min_age_secs)
            && dry.items@ == without_noise(lines, lines) + dry_ext;
    let la = choose|lines: Seq<Item>|
        #[trigger] candidate_lines(lines, applying(cfg), catalog, kept, seen, ok, now, min_age_secs)
            && applied.items@ == without_noise(lines, lines) + applied_ext;
    let n = kept.len();
    let targets = Seq::new(n, |i: int| catalog[kept[i].target_idx as int]);
    let paths = Seq::new(n, |i: int| kept[i].path@);
    assert forall|i: int| 0 <= i < ld.len() implies candidate_item(
        #[trigger] ld[i],
        cfg,
        targets[i],
        paths[i],
        seen[i],
        now,
        min_age_secs,
        None,
    ) by {
        assert(none[i] == None::<Result<(), String>>);
        assert(candidate_item(ld[i], cfg, catalog[kept[i].target_idx as int], kept[i].path@, seen[i], now, min_age_secs, none[i]));
    }
    assert forall|i: int| 0 <= i < la.len() implies candidate_item(
        #[trigger] la[i],
        applying(cfg),
        targets[i],
        paths[i],
        seen[i],
        now,
        min_age_secs,
        succeeded_if_due(
            judgement_of(applying(cfg), targets[i].tier, seen[i].guard, seen[i].newest, now, min_age_secs),
        ),
    ) by {
        assert(candidate_item(la[i], applying(cfg), catalog[kept[i].target_idx as int], kept[i].path@, seen[i], now, min_age_secs, ok[i]));
    }
    lemma_apply_removes_what_dry_run_reported(
        cfg,
        now,
        min_age_secs,
        targets,
        paths,
        seen,
        ld,
        la,
        dry_ext,
        applied_ext,
    );
    let d = without_noise(ld, ld);
    let a = without_noise(la, la);
    assert(dry.items@ == d + dry_ext);
    assert(applied.items@ == a + applied_ext);
    assert(deleted_lines(applied.items@) =~= dry_run_lines(dry.items@)) by {
        assert forall|pb: (Seq<char>, u64)| #[trigger] deleted_lines(applied.items@).contains(pb) implies dry_run_lines(dry.items@).contains(pb) by {
            let i = choose|i: int|
                0 <= i < applied.items@.len() && (#[trigger] applied.items@[i]).reason is Deleted
                    && applied.items@[i].path@ == pb.0 && applied.items@[i].bytes == pb.1;
            if i >= a.len() {
                assert(applied.items@[i] == applied_ext[i - a.len()]);
            }
            assert(applied.items@[i] == a[i]);
            assert(dry.items@[i] == d[i]);
        }
        assert forall|pb: (Seq<char>, u64)| #[trigger] dry_run_lines(dry.items@).contains(pb) implies deleted_lines(applied.items@).contains(pb) by {
            let i = choose|i: int|
                0 <= i < dry.items@.len() && (#[trigger] dry.items@[i]).reason is DryRun
                    && dry.items@[i].path@ == pb.0 && dry.items@[i].bytes == pb.1;
            if i >= d.len() {
                assert(dry.items@[i] == dry_ext[i - d.len()]);
            }
            assert(dry.items@[i] == d[i]);
            assert(applied.items@[i] == a[i]);
        }
    }
}

/// What a run looks at, by tier and flags alone: under --only-roots only
/// what is found by walking a root; otherwise every target of a default-on
/// tier (package caches, build artifacts at a fixed path or under a root,
/// delegated cleanups) and every VM disk, whatever roots were given, and OS
/// caches exactly when --include-os-caches is set.
pub proof fn lemma_what_a_run_looks_at(cfg: ConfigModel, tier: Tier, walks_roots: bool)
    ensures
        cfg.only_roots && !walks_roots ==> !target_considered(cfg, tier, walks_roots),
        !(cfg.only_roots && !walks_roots) ==> (target_considered(cfg, tier, walks_roots) <==> match tier {
            Tier::OsCache => cfg.include_os_caches,
            _ => true,
        }),
{
}

/// Nothing but the gates holds a candidate back: a guarded-clear candidate of
/// a tier its flags allow, not younger than the age gate, is removed under
/// --apply and reported dry-run reclaimable without it.
pub proof fn lemma_every_gate_open_means_removal(
    cfg: ConfigModel,
    tier: Tier,
    newest: u64,
    now: u64,
    min_age_secs: u64,
)
    requires
        match tier {
            Tier::OsCache => cfg.include_os_caches,
            Tier::VmDisk => cfg.include_vm_disks,
            _ => true,
        },
        !(min_age_secs > 0 && newest > 0 && (if now >= newest { now - newest } else { 0 }) < min_age_secs),
    ensures
        cfg.apply ==> judgement_of(cfg, tier, Guard::Clear, newest, now, min_age_secs) is Delete,
        !cfg.apply ==> judgement_of(cfg, tier, Guard::Clear, newest, now, min_age_secs) == Judgement::Done(
            Verdict::Reclaimable,
            Reason::DryRun,
        ),
{
}

/// What holds a guarded-clear candidate back, and with which reason: a tier
/// its flags do not allow names the flag; otherwise a candidate touched within
/// the age gate is spared as newer than the given days.
pub proof fn lemma_what_holds_back(
    cfg: ConfigModel,
    tier: Tier,
    newest: u64,
    now: u64,
    min_age_secs: u64,
)
    ensures
        tier is VmDisk && !cfg.include_vm_disks ==> judgement_of(cfg, tier, Guard::Clear, newest, now, min_age_secs)
            == Judgement::Done(Verdict::Skipped, Reason::NeedsVmDisks),
        tier is OsCache && !cfg.include_os_caches ==> judgement_of(cfg, tier, Guard::Clear, newest, now, min_age_secs)
            == Judgement::Done(Verdict::Skipped, Reason::NeedsOsCaches),
        match tier {
            Tier::OsCache => cfg.include_os_caches,
            Tier::VmDisk => cfg.include_vm_disks,
            _ => true,
        } && min_age_secs > 0 && newest > 0 && (if now >= newest { now - newest } else { 0 }) < min_age_secs
            ==> judgement_of(cfg, tier, Guard::Clear, newest, now, min_age_secs) == Judgement::Done(
            Verdict::Skipped,
            Reason::NewerThan(cfg.min_age_days),
        ),
{
}

} // verus!
