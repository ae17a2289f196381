//! The guards every deletion candidate passes before it may be touched.
//!
//! A candidate is refused when it is missing, when it is a protected path
//! (`/`, `$HOME`, any ancestor of home, or anything less than two names deep),
//! when it lies outside the root it was resolved under, or when a lock shows it
//! is in use. Paths arrive canonicalized (symlinks in the existing prefix
//! resolved), so a symlink that points out of its root shows up as outside.
use vstd::prelude::*;

use crate::paths::{comps_prefix, components, parts_prefix, path_parts, Component, PathPart};

verus! {

/// The verdict of the guards.
#[derive(Debug, Clone, Copy, PartialEq, Eq, Structural)]
pub enum Guard {
    Missing,
    Protected,
    OutsideRoot,
    InUse,
    Clear,
}

/// How many names deep a path is (its root does not count).
pub open spec fn name_depth(p: Seq<Component>) -> nat
    decreases p.len(),
{
    if p.len() == 0 {
        0
    } else {
        name_depth(p.drop_last()) + if p.last() is Root {
            0nat
        } else {
            1nat
        }
    }
}

/// `/`, `$HOME`, any ancestor of home, and anything shallower than two names.
pub open spec fn protected(path: Seq<Component>, home: Seq<Component>) -> bool {
    name_depth(path) < 2 || comps_prefix(path, home)
}

pub open spec fn guard_of(
    path: Seq<char>,
    root: Seq<char>,
    home: Seq<char>,
    exists: bool,
    locked: bool,
) -> Guard {
    if !exists {
        Guard::Missing
    } else if protected(components(path), components(home)) {
        Guard::Protected
    } else if !comps_prefix(components(root), components(path)) {
        Guard::OutsideRoot
    } else if locked {
        Guard::InUse
    } else {
        Guard::Clear
    }
}

fn depth_of(parts: &Vec<PathPart>) -> (r: usize)
    ensures
        r as nat == name_depth(crate::paths::parts_view(parts@)),
{
    let ghost v = crate::paths::parts_view(parts@);
    let mut d: usize = 0;
    let mut i: usize = 0;
    while i < parts.len()
        invariant
            v == crate::paths::parts_view(parts@),
            i <= parts.len(),
            d <= i,
            d as nat == name_depth(v.subrange(0, i as int)),
        decreases parts.len() - i,
    {
        proof {
            assert(v.subrange(0, i + 1).drop_last() =~= v.subrange(0, i as int));
        }
        match &parts[i] {
            PathPart::Root => {},
            _ => {
                d = d + 1;
            },
        }
        i = i + 1;
    }
    assert(v.subrange(0, parts.len() as int) =~= v);
    d
}

/// Judges a candidate `path` resolved under `root`, given `home`. All three
/// arrive canonicalized; `exists` and `locked` are what the filesystem said.
pub fn evaluate(path: &str, root: &str, home: &str, exists: bool, locked: bool) -> (r: Guard)
    ensures
        r == guard_of(path@, root@, home@, exists, locked),
{
    if !exists {
        return Guard::Missing;
    }
    let p = path_parts(path);
    let h = path_parts(home);
    if depth_of(&p) < 2 || parts_prefix(&p, &h) {
        return Guard::Protected;
    }
    let r = path_parts(root);
    if !parts_prefix(&r, &p) {
        return Guard::OutsideRoot;
    }
    if locked {
        Guard::InUse
    } else {
        Guard::Clear
    }
}

/// Nothing at or above `$HOME` is ever passed, whatever else holds.
pub proof fn lemma_home_and_its_ancestors_are_refused(
    path: Seq<char>,
    root: Seq<char>,
    home: Seq<char>,
    exists: bool,
    locked: bool,
)
    requires
        comps_prefix(components(path), components(home)),
    ensures
        guard_of(path, root, home, exists, locked) != Guard::Clear,
{
}

/// Only a present, unprotected, in-root, unlocked path is passed.
pub proof fn lemma_ok_means_every_guard_passed(
    path: Seq<char>,
    root: Seq<char>,
    home: Seq<char>,
    exists: bool,
    locked: bool,
)
    requires
        guard_of(path, root, home, exists, locked) == Guard::Clear,
    ensures
        exists,
        !locked,
        name_depth(components(path)) >= 2,
        !comps_prefix(components(path), components(home)),
        comps_prefix(components(root), components(path)),
{
}

/// Every guard passing is enough: a present, unlocked path at least two names
/// deep, not `$HOME` or above it, and at or under its root, is passed. In
/// particular a candidate confined to itself (its root is the path, as for
/// every home-dir location) is passed.
pub proof fn lemma_every_guard_passed_means_ok(path: Seq<char>, root: Seq<char>, home: Seq<char>)
    requires
        name_depth(components(path)) >= 2,
        !comps_prefix(components(path), components(home)),
    ensures
        comps_prefix(components(root), components(path)) ==> guard_of(path, root, home, true, false)
            == Guard::Clear,
        guard_of(path, path, home, true, false) == Guard::Clear,
{
    let c = components(path);
    assert(c.subrange(0, c.len() as int) =~= c);
}

/// Each guard refuses for its own reason: an absent path is missing whatever
/// else holds; a present protected path is protected; a present, unprotected
/// path outside its root is outside; and a present, unprotected, in-root path
/// is in use exactly when locked.
pub proof fn lemma_each_guard_its_reason(
    path: Seq<char>,
    root: Seq<char>,
    home: Seq<char>,
    exists: bool,
    locked: bool,
)
    ensures
        !exists ==> guard_of(path, root, home, exists, locked) == Guard::Missing,
        exists && (name_depth(components(path)) < 2 || comps_prefix(components(path), components(home)))
            ==> guard_of(path, root, home, exists, locked) == Guard::Protected,
        exists && name_depth(components(path)) >= 2 && !comps_prefix(components(path), components(home))
            && !comps_prefix(components(root), components(path)) ==> guard_of(path, root, home, exists, locked)
            == Guard::OutsideRoot,
        exists && name_depth(components(path)) >= 2 && !comps_prefix(components(path), components(home))
            && comps_prefix(components(root), components(path)) ==> (guard_of(path, root, home, exists, locked)
            == Guard::InUse <==> locked),
{
}

} // verus!
