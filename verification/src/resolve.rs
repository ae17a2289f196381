//! Turning catalog targets into deletion candidates.
//!
//! Home-dir targets resolve to fixed paths under `$HOME`. Versioned install
//! directories give up their stale children: each product (the text before
//! the last `-` of a child's name) keeps its newest `keep` installs. Named
//! directories are found by walking a `--root`; a name that is only sometimes
//! build output matches only beside one of its manifest files.
use vstd::prelude::*;

use crate::config::Config;
use crate::dedupe::Candidate;
use crate::report::{considered, target_considered};
use crate::targets::{group_of, home_path, joined, version_group, Kind, Target};
use crate::text::text_eq;

verus! {

/// The candidates of a home-dir target: every listed location under `home`,
/// each confined to itself.
pub fn home_dir_candidates(target_idx: usize, home: &str, subpaths: &[&str]) -> (r: Vec<Candidate>)
    ensures
        r.len() == subpaths@.len(),
        forall|k: int|
            0 <= k < r.len() ==> {
                &&& (#[trigger] r@[k]).target_idx == target_idx
                &&& r@[k].path@ == joined(home@, subpaths@[k]@)
                &&& r@[k].root@ == r@[k].path@
            },
{
    let mut r: Vec<Candidate> = Vec::new();
    let mut k: usize = 0;
    while k < subpaths.len()
        invariant
            k <= subpaths@.len(),
            r.len() == k,
            forall|q: int|
                0 <= q < k ==> {
                    &&& (#[trigger] r@[q]).target_idx == target_idx
                    &&& r@[q].path@ == joined(home@, subpaths@[q]@)
                    &&& r@[q].root@ == r@[q].path@
                },
        decreases subpaths@.len() - k,
    {
        let path = home_path(home, subpaths[k]);
        let root = path.clone();
        r.push(Candidate { target_idx, path, root });
        k = k + 1;
    }
    r
}

/// Is a directory called `dir_name`, in a directory holding `siblings`, the
/// named build directory? Its name must be `name`, and where manifest files are
/// required, one of them must sit beside it.
pub open spec fn named_dir_matches(
    dir_name: Seq<char>,
    name: Seq<char>,
    requires_sibling: Seq<Seq<char>>,
    siblings: Seq<Seq<char>>,
) -> bool {
    &&& dir_name == name
    &&& (requires_sibling.len() == 0 || exists|i: int, j: int|
        0 <= i < requires_sibling.len() && 0 <= j < siblings.len() && #[trigger] requires_sibling[i]
            == #[trigger] siblings[j])
}

/// Decides whether a directory met while walking a root is the named build
/// directory. `siblings` are the names of the entries beside it.
pub fn is_named_dir(
    dir_name: &str,
    name: &str,
    requires_sibling: &[&str],
    siblings: &Vec<String>,
) -> (r: bool)
    ensures
        r == named_dir_matches(
            dir_name@,
            name@,
            requires_sibling@.map_values(|s: &str| s@),
            siblings@.map_values(|s: String| s@),
        ),
{
    let ghost req = requires_sibling@.map_values(|s: &str| s@);
    let ghost sib = siblings@.map_values(|s: String| s@);
    if !text_eq(dir_name, name) {
        return false;
    }
    if requires_sibling.len() == 0 {
        return true;
    }
    let mut i: usize = 0;
    while i < requires_sibling.len()
        invariant
            i <= requires_sibling@.len(),
            dir_name@ == name@,
            req == requires_sibling@.map_values(|s: &str| s@),
            sib == siblings@.map_values(|s: String| s@),
            forall|a: int, b: int|
                0 <= a < i && 0 <= b < sib.len() ==> #[trigger] req[a] != #[trigger] sib[b],
        decreases requires_sibling@.len() - i,
    {
        let mut j: usize = 0;
        while j < siblings.len()
            invariant
                i < requires_sibling@.len(),
                dir_name@ == name@,
                j <= siblings@.len(),
                req == requires_sibling@.map_values(|s: &str| s@),
                sib == siblings@.map_values(|s: String| s@),
                forall|b: int| 0 <= b < j ==> req[i as int] != #[trigger] sib[b],
            decreases siblings@.len() - j,
        {
            if text_eq(requires_sibling[i], siblings[j].as_str()) {
                assert(req[i as int] == sib[j as int]);
                return true;
            }
            j = j + 1;
        }
        i = i + 1;
    }
    false
}

/// What a walk of a --root does with one entry of a directory.
#[derive(Debug, Clone, Copy, PartialEq, Eq, Structural)]
pub enum WalkStep {
    /// Not a directory (symlinks included, which are never followed): ignore it.
    Skip,
    /// The named build directory: collect it and do not walk into it, so a
    /// match is never found again inside itself (node_modules/node_modules).
    Collect,
    /// Any other directory, a name match without its manifest included: walk
    /// into it, so a real project nested in a data tree is still found.
    Descend,
}

pub open spec fn walk_step_of(
    is_dir: bool,
    entry_name: Seq<char>,
    name: Seq<char>,
    requires_sibling: Seq<Seq<char>>,
    siblings: Seq<Seq<char>>,
) -> WalkStep {
    if !is_dir {
        WalkStep::Skip
    } else if named_dir_matches(entry_name, name, requires_sibling, siblings) {
        WalkStep::Collect
    } else {
        WalkStep::Descend
    }
}

/// Decides what the walk does with an entry called `entry_name` (a real
/// directory when `is_dir`, symlinks not counting) in a directory whose
/// entries are `siblings`.
pub fn walk_action(
    is_dir: bool,
    entry_name: &str,
    name: &str,
    requires_sibling: &[&str],
    siblings: &Vec<String>,
) -> (r: WalkStep)
    ensures
        r == walk_step_of(
            is_dir,
            entry_name@,
            name@,
            requires_sibling@.map_values(|s: &str| s@),
            siblings@.map_values(|s: String| s@),
        ),
{
    if !is_dir {
        WalkStep::Skip
    } else if is_named_dir(entry_name, name, requires_sibling, siblings) {
        WalkStep::Collect
    } else {
        WalkStep::Descend
    }
}

/// A child of a versioned install directory.
pub struct VersionDir {
    pub name: String,
    /// Modification time, in seconds.
    pub modified: u64,
}

/// Child `j` counts as newer than child `k`: modified later, or at the same
/// time and listed first.
pub open spec fn newer(cs: Seq<VersionDir>, j: int, k: int) -> bool {
    cs[j].modified > cs[k].modified || (cs[j].modified == cs[k].modified && j < k)
}

pub open spec fn same_product(cs: Seq<VersionDir>, j: int, k: int) -> bool {
    group_of(cs[j].name@) == group_of(cs[k].name@)
}

/// How many of the first `upto` children are newer installs of the same product as child `k`.
pub open spec fn newer_count(cs: Seq<VersionDir>, k: int, upto: int) -> nat
    decreases upto,
{
    if upto <= 0 {
        0
    } else {
        newer_count(cs, k, upto - 1) + if same_product(cs, upto - 1, k) && newer(cs, upto - 1, k) {
            1nat
        } else {
            0nat
        }
    }
}

/// A child is stale when its product has at least `keep` newer installs.
pub open spec fn is_stale(cs: Seq<VersionDir>, k: int, keep: nat) -> bool {
    newer_count(cs, k, cs.len() as int) >= keep
}

/// The positions of the stale children, in order.
pub open spec fn stale_positions(cs: Seq<VersionDir>, keep: nat, upto: int) -> Seq<usize>
    decreases upto,
{
    if upto <= 0 {
        seq![]
    } else {
        let r = stale_positions(cs, keep, upto - 1);
        if is_stale(cs, upto - 1, keep) {
            r.push((upto - 1) as usize)
        } else {
            r
        }
    }
}

/// Picks the children of a versioned install directory to reclaim: every
/// product keeps its `keep` newest installs (by modification time) and the
/// rest are stale. Returns the positions of the stale children.
pub fn stale_versions(children: &Vec<VersionDir>, keep: usize) -> (r: Vec<usize>)
    ensures
        r@ == stale_positions(children@, keep as nat, children@.len() as int),
{
    let n = children.len();
    let mut groups: Vec<&str> = Vec::new();
    let mut g: usize = 0;
    while g < n
        invariant
            n == children@.len(),
            g <= n,
            groups.len() == g,
            forall|q: int| 0 <= q < g ==> (#[trigger] groups@[q])@ == group_of(children@[q].name@),
        decreases n - g,
    {
        groups.push(version_group(children[g].name.as_str()));
        g = g + 1;
    }
    let mut r: Vec<usize> = Vec::new();
    let mut k: usize = 0;
    while k < n
        invariant
            n == children@.len(),
            k <= n,
            groups.len() == n,
            forall|q: int| 0 <= q < n ==> (#[trigger] groups@[q])@ == group_of(children@[q].name@),
            r@ == stale_positions(children@, keep as nat, k as int),
        decreases n - k,
    {
        let mut count: usize = 0;
        let mut j: usize = 0;
        while j < n
            invariant
                n == children@.len(),
                k < n,
                j <= n,
                groups.len() == n,
                forall|q: int| 0 <= q < n ==> (#[trigger] groups@[q])@ == group_of(children@[q].name@),
                count as nat == newer_count(children@, k as int, j as int),
                count <= j,
            decreases n - j,
        {
            let later = children[j].modified > children[k].modified || (children[j].modified
                == children[k].modified && j < k);
            if later && text_eq(groups[j], groups[k]) {
                count = count + 1;
            }
            j = j + 1;
        }
        if count >= keep {
            r.push(k);
        }
        k = k + 1;
    }
    r
}

/// Each product's newest install is never reclaimed (with `keep` at least 1).
pub proof fn lemma_newest_install_is_kept(cs: Seq<VersionDir>, k: int, keep: nat)
    requires
        0 <= k < cs.len(),
        keep >= 1,
        forall|j: int| 0 <= j < cs.len() && j != k && same_product(cs, j, k) ==> !newer(cs, j, k),
    ensures
        !is_stale(cs, k, keep),
{
    lemma_no_newer_counts_zero(cs, k, cs.len() as int);
}

proof fn lemma_no_newer_counts_zero(cs: Seq<VersionDir>, k: int, upto: int)
    requires
        0 <= k < cs.len(),
        upto <= cs.len(),
        forall|j: int| 0 <= j < cs.len() && j != k && same_product(cs, j, k) ==> !newer(cs, j, k),
    ensures
        newer_count(cs, k, upto) == 0,
    decreases upto,
{
    if upto > 0 {
        lemma_no_newer_counts_zero(cs, k, upto - 1);
    }
}

/// What has to be looked at on the filesystem to resolve a target.
pub enum Lookup {
    /// These candidates, which need no looking.
    Fixed(Vec<Candidate>),
    /// List the installs in `dir` and reclaim the stale ones.
    Versions { target_idx: usize, dir: String, keep: usize },
    /// Walk `root` for directories named `name`.
    Walk {
        target_idx: usize,
        root: String,
        name: &'static str,
        requires_sibling: &'static [&'static str],
    },
}

pub open spec fn home_candidates_spec(c: Seq<Candidate>, target_idx: usize, home: Seq<char>, subs: Seq<&str>) -> bool {
    &&& c.len() == subs.len()
    &&& forall|k: int|
        0 <= k < c.len() ==> {
            &&& (#[trigger] c[k]).target_idx == target_idx
            &&& c[k].path@ == joined(home, subs[k]@)
            &&& c[k].root@ == c[k].path@
        }
}

pub open spec fn is_fixed(l: Lookup, target_idx: usize, home: Seq<char>, subs: Seq<&str>) -> bool {
    match l {
        Lookup::Fixed(c) => home_candidates_spec(c@, target_idx, home, subs),
        _ => false,
    }
}

pub open spec fn is_versions(l: Lookup, target_idx: usize, dir: Seq<char>, keep: usize) -> bool {
    match l {
        Lookup::Versions { target_idx: t, dir: d, keep: k } => t == target_idx && d@ == dir && k == keep,
        _ => false,
    }
}

pub open spec fn is_walk(
    l: Lookup,
    target_idx: usize,
    root: Seq<char>,
    name: &'static str,
    requires_sibling: &'static [&'static str],
) -> bool {
    match l {
        Lookup::Walk { target_idx: t, root: r, name: n, requires_sibling: q } => t == target_idx && r@ == root
            && n == name && q == requires_sibling,
        _ => false,
    }
}

/// The lookups that resolve a target in this run: nothing for a target the
/// run does not consider or a delegated one; the fixed locations of a
/// home-dir target; one listing per versioned directory; one walk per
/// `--root` for a named build directory (so no `--root`, no walk).
pub fn lookups(cfg: &Config, home: &str, target_idx: usize, target: &Target) -> (r: Vec<Lookup>)
    ensures
        !target_considered(cfg@, target.tier, target.kind is NamedDirUnder) ==> r.len() == 0,
        target_considered(cfg@, target.tier, target.kind is NamedDirUnder) ==> match target.kind {
            Kind::HomeDirs(subs) => r.len() == 1 && is_fixed(r@[0], target_idx, home@, subs@),
            Kind::VersionedDirs { subpaths, keep } => r.len() == subpaths@.len() && forall|k: int|
                0 <= k < r.len() ==> is_versions(#[trigger] r@[k], target_idx, joined(home@, subpaths@[k]@), keep),
            Kind::NamedDirUnder { name, requires_sibling } => r.len() == cfg.scan_roots.len() && forall|k: int|
                0 <= k < r.len() ==> is_walk(#[trigger] r@[k], target_idx, cfg.scan_roots@[k]@, name, requires_sibling),
            Kind::External { .. } => r.len() == 0,
        },
{
    let mut r: Vec<Lookup> = Vec::new();
    if !considered(cfg, target) {
        return r;
    }
    match target.kind {
        Kind::HomeDirs(subs) => {
            r.push(Lookup::Fixed(home_dir_candidates(target_idx, home, subs)));
        },
        Kind::VersionedDirs { subpaths, keep } => {
            let mut k: usize = 0;
            while k < subpaths.len()
                invariant
                    k <= subpaths@.len(),
                    r.len() == k,
                    forall|q: int|
                        0 <= q < k ==> is_versions(#[trigger] r@[q], target_idx, joined(home@, subpaths@[q]@), keep),
                decreases subpaths@.len() - k,
            {
                let dir = home_path(home, subpaths[k]);
                r.push(Lookup::Versions { target_idx, dir, keep });
                k = k + 1;
            }
        },
        Kind::NamedDirUnder { name, requires_sibling } => {
            let mut k: usize = 0;
            while k < cfg.scan_roots.len()
                invariant
                    k <= cfg.scan_roots.len(),
                    r.len() == k,
                    forall|q: int|
                        0 <= q < k ==> is_walk(#[trigger] r@[q], target_idx, cfg.scan_roots@[q]@, name, requires_sibling),
                decreases cfg.scan_roots.len() - k,
            {
                let root = cfg.scan_roots[k].clone();
                r.push(Lookup::Walk { target_idx, root, name, requires_sibling });
                k = k + 1;
            }
        },
        Kind::External { .. } => {},
    }
    r
}

/// The candidates of a versioned directory `dir` with these installs: each
/// stale install, by its path inside `dir`, confined to `dir`.
pub fn version_candidates(
    target_idx: usize,
    dir: &str,
    children: &Vec<VersionDir>,
    keep: usize,
) -> (r: Vec<Candidate>)
    ensures
        r.len() == stale_positions(children@, keep as nat, children@.len() as int).len(),
        forall|k: int|
            0 <= k < r.len() ==> {
                let child = children@[stale_positions(children@, keep as nat, children@.len() as int)[k] as int];
                &&& (#[trigger] r@[k]).target_idx == target_idx
                &&& r@[k].path@ == joined(dir@, child.name@)
                &&& r@[k].root@ == dir@
            },
{
    let stale = stale_versions(children, keep);
    let ghost sp = stale_positions(children@, keep as nat, children@.len() as int);
    proof {
        lemma_stale_positions_in_range(children@, keep as nat, children@.len() as int);
    }
    let mut r: Vec<Candidate> = Vec::new();
    let mut k: usize = 0;
    while k < stale.len()
        invariant
            stale@ == sp,
            sp == stale_positions(children@, keep as nat, children@.len() as int),
            forall|q: int| 0 <= q < sp.len() ==> (#[trigger] sp[q]) < children@.len(),
            k <= stale.len(),
            r.len() == k,
            forall|q: int|
                0 <= q < k ==> {
                    let child = children@[sp[q] as int];
                    &&& (#[trigger] r@[q]).target_idx == target_idx
                    &&& r@[q].path@ == joined(dir@, child.name@)
                    &&& r@[q].root@ == dir@
                },
        decreases stale.len() - k,
    {
        let i = stale[k];
        let path = home_path(dir, children[i].name.as_str());
        r.push(Candidate { target_idx, path, root: dir.to_string() });
        k = k + 1;
    }
    r
}

proof fn lemma_stale_positions_in_range(cs: Seq<VersionDir>, keep: nat, upto: int)
    requires
        upto <= cs.len(),
    ensures
        forall|q: int|
            0 <= q < stale_positions(cs, keep, upto).len() ==> (#[trigger] stale_positions(cs, keep, upto)[q]) < upto,
    decreases upto,
{
    if upto > 0 {
        lemma_stale_positions_in_range(cs, keep, upto - 1);
        let prev = stale_positions(cs, keep, upto - 1);
        let cur = stale_positions(cs, keep, upto);
        assert forall|q: int| 0 <= q < cur.len() implies (#[trigger] cur[q]) < upto by {
            if q < prev.len() {
                assert(cur[q] == prev[q]);
            }
        }
    }
}

/// The candidates a walk of `root` found: each found path, confined to `root`.
pub fn walk_candidates(target_idx: usize, root: &str, found: &Vec<String>) -> (r: Vec<Candidate>)
    ensures
        r.len() == found.len(),
        forall|k: int|
            0 <= k < r.len() ==> {
                &&& (#[trigger] r@[k]).target_idx == target_idx
                &&& r@[k].path@ == found@[k]@
                &&& r@[k].root@ == root@
            },
{
    let mut r: Vec<Candidate> = Vec::new();
    let mut k: usize = 0;
    while k < found.len()
        invariant
            k <= found.len(),
            r.len() == k,
            forall|q: int|
                0 <= q < k ==> {
                    &&& (#[trigger] r@[q]).target_idx == target_idx
                    &&& r@[q].path@ == found@[q]@
                    &&& r@[q].root@ == root@
                },
        decreases found.len() - k,
    {
        r.push(Candidate::new(target_idx, found[k].as_str(), root));
        k = k + 1;
    }
    r
}

/// What the walk does, entry by entry: a non-directory is never entered or
/// collected; a directory of another name is walked into; a directory of the
/// name is collected when no manifest is required or one of the required
/// manifests sits beside it, and walked into otherwise.
pub proof fn lemma_walk_steps(
    is_dir: bool,
    entry_name: Seq<char>,
    name: Seq<char>,
    requires_sibling: Seq<Seq<char>>,
    siblings: Seq<Seq<char>>,
)
    ensures
        !is_dir ==> walk_step_of(is_dir, entry_name, name, requires_sibling, siblings) == WalkStep::Skip,
        is_dir && entry_name != name ==> walk_step_of(is_dir, entry_name, name, requires_sibling, siblings)
            == WalkStep::Descend,
        is_dir && entry_name == name && requires_sibling.len() == 0 ==> walk_step_of(
            is_dir,
            entry_name,
            name,
            requires_sibling,
            siblings,
        ) == WalkStep::Collect,
        is_dir && entry_name == name && requires_sibling.len() > 0 ==> (walk_step_of(
            is_dir,
            entry_name,
            name,
            requires_sibling,
            siblings,
        ) == WalkStep::Collect <==> exists|i: int, j: int|
            0 <= i < requires_sibling.len() && 0 <= j < siblings.len() && #[trigger] requires_sibling[i]
                == #[trigger] siblings[j]),
        is_dir && entry_name == name && requires_sibling.len() > 0 && !(exists|i: int, j: int|
            0 <= i < requires_sibling.len() && 0 <= j < siblings.len() && #[trigger] requires_sibling[i]
                == #[trigger] siblings[j]) ==> walk_step_of(is_dir, entry_name, name, requires_sibling, siblings)
            == WalkStep::Descend,
{
}

} // verus!
