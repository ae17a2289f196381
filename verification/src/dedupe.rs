//! Dropping deletion candidates that live inside other candidates.
//!
//! Targets are resolved independently, so one candidate can sit inside
//! another (`.next/standalone/node_modules` inside `.next`, `__pycache__`
//! inside `.venv`). Counting both would report the same bytes twice. The outer
//! path wins: deleting it removes the inner one anyway.
use vstd::prelude::*;

use crate::paths::{
    comps_le, comps_prefix, components, lemma_comps_order_props,
    lemma_comps_order_trans, lemma_prefix_le, lemma_prefix_trans, parts_order, parts_prefix,
    parts_view, path_parts, Component, PathPart,
};

verus! {

/// A resolved deletion candidate, before it has been sized or judged.
pub struct Candidate {
    /// Index of the catalog target that produced it.
    pub target_idx: usize,
    /// The candidate path.
    pub path: String,
    /// The root it must stay confined to.
    pub root: String,
}

impl Candidate {
    /// A candidate of target `target_idx` at `path`, confined to `root`.
    pub fn new(target_idx: usize, path: &str, root: &str) -> (r: Candidate)
        ensures
            r.target_idx == target_idx,
            r.path@ == path@,
            r.root@ == root@,
    {
        Candidate { target_idx, path: path.to_string(), root: root.to_string() }
    }
}

/// The component sequence by which a candidate is ordered and nested.
pub open spec fn key(c: Candidate) -> Seq<Component> {
    components(c.path@)
}

/// Stable insertion of `x` into `s`: after every element that sorts no later than it.
pub open spec fn insert_sorted(s: Seq<Candidate>, x: Candidate) -> Seq<Candidate>
    decreases s.len(),
{
    if s.len() == 0 {
        seq![x]
    } else if comps_le(key(s.last()), key(x)) {
        s.push(x)
    } else {
        insert_sorted(s.drop_last(), x).push(s.last())
    }
}

/// `s` stably sorted by path.
pub open spec fn sort_by_path(s: Seq<Candidate>) -> Seq<Candidate>
    decreases s.len(),
{
    if s.len() == 0 {
        seq![]
    } else {
        insert_sorted(sort_by_path(s.drop_last()), s.last())
    }
}

/// Some element before position `i` is the path at `i` or one of its ancestors.
pub open spec fn nested_in_earlier(s: Seq<Candidate>, i: int) -> bool {
    exists|j: int| 0 <= j < i && comps_prefix(key(s[j]), key(s[i]))
}

/// The elements of `s` that no earlier element contains (or equals).
pub open spec fn outermost(s: Seq<Candidate>) -> Seq<Candidate>
    decreases s.len(),
{
    if s.len() == 0 {
        seq![]
    } else {
        let r = outermost(s.drop_last());
        if nested_in_earlier(s, s.len() - 1) {
            r
        } else {
            r.push(s.last())
        }
    }
}

pub open spec fn sorted_by_path(s: Seq<Candidate>) -> bool {
    forall|a: int, b: int| 0 <= a < b < s.len() ==> comps_le(key(s[a]), key(s[b]))
}

pub open spec fn nesting_free(s: Seq<Candidate>) -> bool {
    forall|a: int, b: int|
        0 <= a < s.len() && 0 <= b < s.len() && a != b ==> !comps_prefix(key(s[a]), key(s[b]))
}

/// Every element of `s` is the path of, or lies inside, some element of `r`.
pub open spec fn covers(r: Seq<Candidate>, s: Seq<Candidate>) -> bool {
    forall|j: int|
        #![trigger s[j]]
        0 <= j < s.len() ==> exists|m: int|
            #![trigger r[m]]
            0 <= m < r.len() && comps_prefix(key(r[m]), key(s[j]))
}

proof fn lemma_insert_sorted_at(s: Seq<Candidate>, x: Candidate, p: int)
    requires
        0 <= p <= s.len(),
        forall|q: int| p <= q < s.len() ==> !comps_le(key(s[q]), key(x)),
        p == 0 || comps_le(key(s[p - 1]), key(x)),
    ensures
        insert_sorted(s, x) =~= s.subrange(0, p).push(x) + s.subrange(p, s.len() as int),
    decreases s.len(),
{
    if s.len() == 0 {
    } else if s.len() == p {
        assert(s.subrange(0, p) =~= s);
    } else {
        lemma_insert_sorted_at(s.drop_last(), x, p);
        assert(s.drop_last().subrange(0, p) =~= s.subrange(0, p));
        assert(s.drop_last().subrange(p, s.len() - 1).push(s.last()) =~= s.subrange(
            p,
            s.len() as int,
        ));
    }
}

/// What holds of the kept list after the first `i` sorted candidates.
pub open spec fn kept_invariant(s: Seq<Candidate>, i: int, kept: Seq<Candidate>) -> bool {
    &&& 0 <= i <= s.len()
    &&& kept == outermost(s.subrange(0, i))
    &&& forall|m: int| 0 <= m < kept.len() ==> exists|j: int| 0 <= j < i && #[trigger] kept[m] == s[j]
    &&& covers(kept, s.subrange(0, i))
    &&& nesting_free(kept)
    &&& sorted_by_path(kept)
}

proof fn lemma_keep_step(s: Seq<Candidate>, i: int, kept: Seq<Candidate>)
    requires
        sorted_by_path(s),
        0 <= i < s.len(),
        kept_invariant(s, i, kept),
    ensures
        nested_in_earlier(s.subrange(0, i + 1), i) <==> exists|q: int|
            0 <= q < kept.len() && comps_prefix(key(kept[q]), key(s[i])),
        nested_in_earlier(s.subrange(0, i + 1), i) ==> kept_invariant(s, i + 1, kept),
        !nested_in_earlier(s.subrange(0, i + 1), i) ==> kept_invariant(s, i + 1, kept.push(s[i])),
{
    let pre = s.subrange(0, i);
    let post = s.subrange(0, i + 1);
    let c = s[i];
    assert(post.drop_last() =~= pre);
    assert(post.last() == c);
    assert(post[i] == c);
    let nested = nested_in_earlier(post, i);
    if exists|q: int| 0 <= q < kept.len() && comps_prefix(key(kept[q]), key(c)) {
        let q = choose|q: int| 0 <= q < kept.len() && comps_prefix(key(kept[q]), key(c));
        let j = choose|j: int| 0 <= j < i && kept[q] == s[j];
        assert(post[j] == s[j]);
        assert(nested);
    } else {
        assert(!nested) by {
            if nested {
                let j = choose|j: int| 0 <= j < i && comps_prefix(key(post[j]), key(post[i]));
                assert(pre[j] == s[j]);
                assert(post[j] == s[j]);
                let q = choose|q: int| 0 <= q < kept.len() && comps_prefix(key(kept[q]), key(pre[j]));
                lemma_prefix_trans(key(kept[q]), key(s[j]), key(c));
            }
        }
    }
    let nk = if nested { kept } else { kept.push(c) };
    assert(nk == outermost(post));
    assert forall|m: int| 0 <= m < nk.len() implies exists|j: int| 0 <= j < i + 1 && #[trigger] nk[m] == s[j] by {
        if m < kept.len() {
            assert(nk[m] == kept[m]);
            let j = choose|j: int| 0 <= j < i && kept[m] == s[j];
        } else {
            assert(nk[m] == s[i]);
        }
    }
    assert forall|j: int| 0 <= j < post.len() implies exists|q: int|
        0 <= q < nk.len() && comps_prefix(key(nk[q]), key(#[trigger] post[j])) by {
        if j < i {
            assert(pre[j] == post[j]);
            let q = choose|q: int| 0 <= q < kept.len() && comps_prefix(key(kept[q]), key(pre[j]));
            assert(nk[q] == kept[q]);
        } else if !nested {
            assert(nk[kept.len() as int] == c);
            assert(key(c).subrange(0, key(c).len() as int) =~= key(c));
        } else {
            let q = choose|q: int| 0 <= q < kept.len() && comps_prefix(key(kept[q]), key(c));
            assert(nk[q] == kept[q]);
        }
    }
    if !nested {
        assert forall|a: int, b: int|
            0 <= a < nk.len() && 0 <= b < nk.len() && a != b implies !comps_prefix(
            key(nk[a]),
            key(nk[b]),
        ) by {
            let last = kept.len() as int;
            if a == last {
                assert(nk[b] == kept[b]);
                let j = choose|j: int| 0 <= j < i && kept[b] == s[j];
                assert(comps_le(key(s[j]), key(s[i])));
                if comps_prefix(key(c), key(nk[b])) {
                    lemma_prefix_le(key(c), key(nk[b]));
                    lemma_comps_order_props(key(c), key(nk[b]));
                    assert(key(c) == key(nk[b]));
                    assert(key(c).subrange(0, key(c).len() as int) =~= key(c));
                    assert(comps_prefix(key(kept[b]), key(c)));
                }
            } else if b == last {
                assert(nk[a] == kept[a]);
            } else {
                assert(nk[a] == kept[a]);
                assert(nk[b] == kept[b]);
            }
        }
        assert forall|a: int, b: int| 0 <= a < b < nk.len() implies comps_le(
            key(nk[a]),
            key(nk[b]),
        ) by {
            assert(nk[a] == kept[a]);
            if b == kept.len() {
                let j = choose|j: int| 0 <= j < i && kept[a] == s[j];
                assert(comps_le(key(s[j]), key(s[i])));
            } else {
                assert(nk[b] == kept[b]);
            }
        }
    }
}

/// Stably sorts candidates by path, keeping each one's components beside it.
fn sort_candidates(candidates: Vec<Candidate>) -> (r: (Vec<Vec<PathPart>>, Vec<Candidate>))
    ensures
        r.1@ == sort_by_path(candidates@),
        r.0.len() == r.1.len(),
        forall|q: int| 0 <= q < r.1.len() ==> parts_view(#[trigger] r.0@[q]@) == key(r.1@[q]),
        sorted_by_path(r.1@),
        forall|q: int| 0 <= q < r.1.len() ==> candidates@.contains(#[trigger] r.1@[q]),
        forall|j: int| 0 <= j < candidates.len() ==> r.1@.contains(#[trigger] candidates@[j]),
{
    let ghost orig = candidates@;
    let n = candidates.len();
    let mut input = candidates;
    let mut rev: Vec<Candidate> = Vec::new();
    while input.len() > 0
        invariant
            input.len() + rev.len() == n,
            n == orig.len(),
            input@ =~= orig.subrange(0, input.len() as int),
            forall|k: int| 0 <= k < rev.len() ==> rev@[k] == orig[n - 1 - k],
        decreases input.len(),
    {
        let c = input.pop().unwrap();
        rev.push(c);
    }
    let mut keys: Vec<Vec<PathPart>> = Vec::new();
    let mut sorted: Vec<Candidate> = Vec::new();
    let mut i: usize = 0;
    while rev.len() > 0
        invariant
            i + rev.len() == n,
            n == orig.len(),
            forall|k: int| 0 <= k < rev.len() ==> rev@[k] == orig[n - 1 - k],
            sorted@ == sort_by_path(orig.subrange(0, i as int)),
            keys.len() == sorted.len(),
            forall|q: int| 0 <= q < sorted.len() ==> parts_view(#[trigger] keys@[q]@) == key(sorted@[q]),
            sorted_by_path(sorted@),
            forall|q: int| 0 <= q < sorted.len() ==> orig.subrange(0, i as int).contains(#[trigger] sorted@[q]),
            forall|j: int| 0 <= j < i ==> sorted@.contains(#[trigger] orig[j]),
        decreases rev.len(),
    {
        let c = rev.pop().unwrap();
        assert(c == orig[i as int]);
        let k = path_parts(c.path.as_str());
        let mut p = sorted.len();
        while p > 0 && parts_order(&keys[p - 1], &k) > 0
            invariant
                p <= sorted.len(),
                keys.len() == sorted.len(),
                forall|q: int| 0 <= q < sorted.len() ==> parts_view(#[trigger] keys@[q]@) == key(sorted@[q]),
                parts_view(k@) == key(c),
                forall|q: int| p <= q < sorted.len() ==> !comps_le(key(sorted@[q]), key(c)),
            decreases p,
        {
            p = p - 1;
        }
        let ghost s = sorted@;
        proof {
            let pre = orig.subrange(0, i as int);
            let post = orig.subrange(0, i + 1);
            assert(post.drop_last() =~= pre);
            assert(post.last() == c);
            lemma_insert_sorted_at(s, c, p as int);
        }
        keys.insert(p, k);
        sorted.insert(p, c);
        proof {
            let post = orig.subrange(0, i + 1);
            let pre = orig.subrange(0, i as int);
            assert(sorted@ =~= s.subrange(0, p as int).push(c) + s.subrange(p as int, s.len() as int));
            // sortedness is kept
            assert forall|a: int, b: int| 0 <= a < b < sorted@.len() implies comps_le(
                key(sorted@[a]),
                key(sorted@[b]),
            ) by {
                if b < p {
                } else if a < p && b == p {
                    if a < p - 1 {
                        assert(comps_le(key(s[a]), key(s[p - 1])));
                        lemma_comps_order_trans(key(s[a]), key(s[p - 1]), key(c));
                    }
                } else if a < p && b > p {
                    assert(sorted@[b] == s[b - 1]);
                } else if a == p {
                    assert(sorted@[b] == s[b - 1]);
                    lemma_comps_order_props(key(s[b - 1]), key(c));
                } else {
                    assert(sorted@[a] == s[a - 1]);
                    assert(sorted@[b] == s[b - 1]);
                }
            }
            assert forall|q: int| 0 <= q < sorted.len() implies post.contains(#[trigger] sorted@[q]) by {
                if q < p {
                    assert(pre.contains(s[q]));
                    let w = choose|w: int| 0 <= w < pre.len() && pre[w] == s[q];
                    assert(post[w] == s[q]);
                } else if q == p {
                    assert(post[i as int] == c);
                } else {
                    assert(sorted@[q] == s[q - 1]);
                    assert(pre.contains(s[q - 1]));
                    let w = choose|w: int| 0 <= w < pre.len() && pre[w] == s[q - 1];
                    assert(post[w] == s[q - 1]);
                }
            }
            assert forall|j: int| 0 <= j < i + 1 implies sorted@.contains(#[trigger] orig[j]) by {
                if j == i {
                    assert(sorted@[p as int] == c);
                } else {
                    assert(s.contains(orig[j]));
                    let w = choose|w: int| 0 <= w < s.len() && s[w] == orig[j];
                    if w < p {
                        assert(sorted@[w] == orig[j]);
                    } else {
                        assert(sorted@[w + 1] == orig[j]);
                    }
                }
            }
        }
        i = i + 1;
    }
    proof {
        assert(orig.subrange(0, n as int) =~= orig);
    }
    (keys, sorted)
}

/// Every input candidate lies at or under a kept one.
proof fn lemma_final_covers(orig: Seq<Candidate>, s: Seq<Candidate>, kept: Seq<Candidate>)
    requires
        kept_invariant(s, s.len() as int, kept),
        forall|j: int| 0 <= j < orig.len() ==> s.contains(#[trigger] orig[j]),
    ensures
        covers(kept, orig),
        kept == outermost(s),
{
    assert(s.subrange(0, s.len() as int) =~= s);
    assert forall|j: int|
        #![trigger orig[j]]
        0 <= j < orig.len() implies exists|m: int|
            #![trigger kept[m]]
            0 <= m < kept.len() && comps_prefix(key(kept[m]), key(orig[j])) by {
        assert(s.contains(orig[j]));
        let w = choose|w: int| 0 <= w < s.len() && s[w] == orig[j];
        let m = choose|m: int| 0 <= m < kept.len() && comps_prefix(key(kept[m]), key(s[w]));
        assert(0 <= m < kept.len() && comps_prefix(key(kept[m]), key(orig[j])));
    }
}

/// Every kept candidate is one of the input candidates.
proof fn lemma_final_members(orig: Seq<Candidate>, s: Seq<Candidate>, kept: Seq<Candidate>)
    requires
        kept_invariant(s, s.len() as int, kept),
        forall|q: int| 0 <= q < s.len() ==> orig.contains(#[trigger] s[q]),
    ensures
        forall|m: int| 0 <= m < kept.len() ==> orig.contains(#[trigger] kept[m]),
{
    assert forall|m: int| 0 <= m < kept.len() implies orig.contains(#[trigger] kept[m]) by {
        let j = choose|j: int| 0 <= j < s.len() && kept[m] == s[j];
        assert(orig.contains(s[j]));
    }
}

/// Drop any candidate that lives inside another candidate.
///
/// Candidates are ordered by path (a stable sort), and a candidate is kept
/// when no candidate before it in that order is the same path or one of its
/// ancestors. So an outer path wins over what it contains, and of two
/// candidates with the same path the first one stays.
pub fn dedupe_nested(candidates: Vec<Candidate>) -> (r: Vec<Candidate>)
    ensures
        r@ == outermost(sort_by_path(candidates@)),
        sorted_by_path(r@),
        nesting_free(r@),
        covers(r@, candidates@),
        forall|m: int| 0 <= m < r.len() ==> candidates@.contains(#[trigger] r@[m]),
{
    let ghost orig = candidates@;
    let (keys, sorted) = sort_candidates(candidates);
    let ghost s = sorted@;
    let n = sorted.len();
    let mut in_keys = keys;
    let mut in_cands = sorted;
    let mut rev_keys: Vec<Vec<PathPart>> = Vec::new();
    let mut rev_cands: Vec<Candidate> = Vec::new();
    while in_cands.len() > 0
        invariant
            in_keys.len() == in_cands.len(),
            in_cands.len() + rev_cands.len() == n,
            rev_keys.len() == rev_cands.len(),
            n == s.len(),
            in_cands@ =~= s.subrange(0, in_cands.len() as int),
            forall|q: int| 0 <= q < in_cands.len() ==> parts_view(#[trigger] in_keys@[q]@) == key(s[q]),
            forall|k: int| 0 <= k < rev_cands.len() ==> rev_cands@[k] == s[n - 1 - k],
            forall|k: int| 0 <= k < rev_cands.len() ==> parts_view(#[trigger] rev_keys@[k]@) == key(s[n - 1 - k]),
        decreases in_cands.len(),
    {
        let c = in_cands.pop().unwrap();
        let k = in_keys.pop().unwrap();
        rev_cands.push(c);
        rev_keys.push(k);
    }
    let mut kept_keys: Vec<Vec<PathPart>> = Vec::new();
    let mut kept: Vec<Candidate> = Vec::new();
    let mut i: usize = 0;
    proof {
        assert(s.subrange(0, 0) =~= Seq::<Candidate>::empty());
    }
    while rev_cands.len() > 0
        invariant
            i + rev_cands.len() == n,
            rev_keys.len() == rev_cands.len(),
            n == s.len(),
            sorted_by_path(s),
            forall|k: int| 0 <= k < rev_cands.len() ==> rev_cands@[k] == s[n - 1 - k],
            forall|k: int| 0 <= k < rev_cands.len() ==> parts_view(#[trigger] rev_keys@[k]@) == key(s[n - 1 - k]),
            kept_keys.len() == kept.len(),
            forall|m: int| 0 <= m < kept.len() ==> parts_view(#[trigger] kept_keys@[m]@) == key(kept@[m]),
            kept_invariant(s, i as int, kept@),
        decreases rev_cands.len(),
    {
        let c = rev_cands.pop().unwrap();
        let k = rev_keys.pop().unwrap();
        assert(c == s[i as int]);
        let mut found = false;
        let mut m: usize = 0;
        while m < kept.len() && !found
            invariant
                m <= kept.len(),
                kept_keys.len() == kept.len(),
                forall|q: int| 0 <= q < kept.len() ==> parts_view(#[trigger] kept_keys@[q]@) == key(kept@[q]),
                parts_view(k@) == key(c),
                found ==> exists|q: int| 0 <= q < kept.len() && comps_prefix(key(kept@[q]), key(c)),
                !found ==> forall|q: int| 0 <= q < m ==> !comps_prefix(key(#[trigger] kept@[q]), key(c)),
            decreases kept.len() - m,
        {
            if parts_prefix(&kept_keys[m], &k) {
                found = true;
            }
            m = m + 1;
        }
        proof {
            lemma_keep_step(s, i as int, kept@);
        }
        if !found {
            kept_keys.push(k);
            kept.push(c);
        }
        i = i + 1;
    }
    proof {
        lemma_final_covers(orig, s, kept@);
        lemma_final_members(orig, s, kept@);
    }
    kept
}

proof fn lemma_insert_sorted_contents(t: Seq<Candidate>, x: Candidate)
    ensures
        insert_sorted(t, x).len() == t.len() + 1,
        forall|q: int|
            0 <= q < insert_sorted(t, x).len() ==> #[trigger] insert_sorted(t, x)[q] == x || t.contains(
                insert_sorted(t, x)[q],
            ),
    decreases t.len(),
{
    if t.len() > 0 && !comps_le(key(t.last()), key(x)) {
        lemma_insert_sorted_contents(t.drop_last(), x);
        let r = insert_sorted(t.drop_last(), x);
        assert forall|q: int| 0 <= q < insert_sorted(t, x).len() implies #[trigger] insert_sorted(t, x)[q] == x
            || t.contains(insert_sorted(t, x)[q]) by {
            if q < r.len() {
                if r[q] != x {
                    let w = choose|w: int| 0 <= w < t.drop_last().len() && t.drop_last()[w] == r[q];
                    assert(t[w] == r[q]);
                }
            } else {
                assert(t[t.len() - 1] == t.last());
            }
        }
    } else if t.len() > 0 {
        assert forall|q: int| 0 <= q < insert_sorted(t, x).len() implies #[trigger] insert_sorted(t, x)[q] == x
            || t.contains(insert_sorted(t, x)[q]) by {
            if q < t.len() {
                assert(t[q] == insert_sorted(t, x)[q]);
            }
        }
    }
}

proof fn lemma_insert_sorted_keeps_sorted(t: Seq<Candidate>, x: Candidate)
    requires
        sorted_by_path(t),
    ensures
        sorted_by_path(insert_sorted(t, x)),
    decreases t.len(),
{
    if t.len() == 0 {
    } else if comps_le(key(t.last()), key(x)) {
        let r = t.push(x);
        assert forall|a: int, b: int| 0 <= a < b < r.len() implies comps_le(key(r[a]), key(r[b])) by {
            if b == t.len() && a < t.len() - 1 {
                assert(comps_le(key(t[a]), key(t[t.len() - 1])));
                lemma_comps_order_trans(key(t[a]), key(t.last()), key(x));
            }
        }
    } else {
        let d = t.drop_last();
        assert(sorted_by_path(d)) by {
            assert forall|a: int, b: int| 0 <= a < b < d.len() implies comps_le(key(d[a]), key(d[b])) by {
                assert(d[a] == t[a] && d[b] == t[b]);
            }
        }
        lemma_insert_sorted_keeps_sorted(d, x);
        lemma_insert_sorted_contents(d, x);
        lemma_comps_order_props(key(t.last()), key(x));
        let r0 = insert_sorted(d, x);
        let r = r0.push(t.last());
        assert forall|a: int, b: int| 0 <= a < b < r.len() implies comps_le(key(r[a]), key(r[b])) by {
            if b == r0.len() {
                assert(r[a] == r0[a]);
                if r0[a] != x {
                    let w = choose|w: int| 0 <= w < d.len() && d[w] == r0[a];
                    assert(t[w] == d[w]);
                    assert(comps_le(key(t[w]), key(t[t.len() - 1])));
                }
            } else {
                assert(r[a] == r0[a] && r[b] == r0[b]);
            }
        }
    }
}

proof fn lemma_sort_is_sorted(s: Seq<Candidate>)
    ensures
        sorted_by_path(sort_by_path(s)),
    decreases s.len(),
{
    if s.len() > 0 {
        lemma_sort_is_sorted(s.drop_last());
        lemma_insert_sorted_keeps_sorted(sort_by_path(s.drop_last()), s.last());
    }
}

proof fn lemma_sorting_sorted_is_identity(t: Seq<Candidate>)
    requires
        sorted_by_path(t),
    ensures
        sort_by_path(t) == t,
    decreases t.len(),
{
    if t.len() > 0 {
        let d = t.drop_last();
        assert(sorted_by_path(d)) by {
            assert forall|a: int, b: int| 0 <= a < b < d.len() implies comps_le(key(d[a]), key(d[b])) by {
                assert(d[a] == t[a] && d[b] == t[b]);
            }
        }
        lemma_sorting_sorted_is_identity(d);
        if d.len() > 0 {
            assert(comps_le(key(t[d.len() - 1]), key(t[t.len() - 1])));
        }
        assert(d.push(t.last()) =~= t);
    }
}

proof fn lemma_outermost_invariant(s: Seq<Candidate>, i: int)
    requires
        sorted_by_path(s),
        0 <= i <= s.len(),
    ensures
        kept_invariant(s, i, outermost(s.subrange(0, i))),
    decreases i,
{
    if i == 0 {
        assert(s.subrange(0, 0) =~= Seq::<Candidate>::empty());
    } else {
        lemma_outermost_invariant(s, i - 1);
        lemma_keep_step(s, i - 1, outermost(s.subrange(0, i - 1)));
    }
}

proof fn lemma_outermost_of_nesting_free(t: Seq<Candidate>)
    requires
        nesting_free(t),
    ensures
        outermost(t) == t,
    decreases t.len(),
{
    if t.len() > 0 {
        let d = t.drop_last();
        assert(nesting_free(d)) by {
            assert forall|a: int, b: int|
                0 <= a < d.len() && 0 <= b < d.len() && a != b implies !comps_prefix(key(d[a]), key(d[b])) by {
                assert(d[a] == t[a] && d[b] == t[b]);
            }
        }
        lemma_outermost_of_nesting_free(d);
        assert(!nested_in_earlier(t, t.len() - 1));
        assert(d.push(t.last()) =~= t);
    }
}

/// Dropping nested candidates a second time changes nothing.
pub proof fn lemma_dedupe_idempotent(s: Seq<Candidate>)
    ensures
        outermost(sort_by_path(outermost(sort_by_path(s)))) == outermost(sort_by_path(s)),
{
    let t = sort_by_path(s);
    lemma_sort_is_sorted(s);
    lemma_outermost_invariant(t, t.len() as int);
    assert(t.subrange(0, t.len() as int) =~= t);
    let r = outermost(t);
    lemma_sorting_sorted_is_identity(r);
    lemma_outermost_of_nesting_free(r);
}

proof fn lemma_insert_sorted_has(t: Seq<Candidate>, x: Candidate)
    ensures
        forall|y: Candidate| #[trigger] insert_sorted(t, x).contains(y) <==> (y == x || t.contains(y)),
    decreases t.len(),
{
    let r = insert_sorted(t, x);
    if t.len() == 0 {
        assert forall|y: Candidate| #[trigger] r.contains(y) <==> (y == x || t.contains(y)) by {
            if y == x {
                assert(r[0] == x);
            }
        }
    } else if comps_le(key(t.last()), key(x)) {
        assert forall|y: Candidate| #[trigger] r.contains(y) <==> (y == x || t.contains(y)) by {
            if r.contains(y) {
                let w = choose|w: int| 0 <= w < r.len() && r[w] == y;
                if w < t.len() {
                    assert(t[w] == y);
                }
            }
            if y == x {
                assert(r[t.len() as int] == x);
            }
            if t.contains(y) {
                let w = choose|w: int| 0 <= w < t.len() && t[w] == y;
                assert(r[w] == y);
            }
        }
    } else {
        let d = t.drop_last();
        lemma_insert_sorted_has(d, x);
        let r0 = insert_sorted(d, x);
        assert(r == r0.push(t.last()));
        assert forall|y: Candidate| #[trigger] r.contains(y) <==> (y == x || t.contains(y)) by {
            if r.contains(y) {
                let w = choose|w: int| 0 <= w < r.len() && r[w] == y;
                if w < r0.len() {
                    assert(r0[w] == y);
                    assert(r0.contains(y));
                    if d.contains(y) {
                        let v = choose|v: int| 0 <= v < d.len() && d[v] == y;
                        assert(t[v] == y);
                    }
                } else {
                    assert(t[t.len() - 1] == y);
                }
            }
            if y == x || (t.contains(y) && y != t.last()) {
                if y != x {
                    let v = choose|v: int| 0 <= v < t.len() && t[v] == y;
                    assert(v != t.len() - 1);
                    assert(d[v] == y);
                }
                assert(r0.contains(y));
                let w = choose|w: int| 0 <= w < r0.len() && r0[w] == y;
                assert(r[w] == y);
            }
            if y == t.last() {
                assert(r[r.len() - 1] == y);
            }
        }
    }
}

proof fn lemma_sort_has(s: Seq<Candidate>)
    ensures
        forall|y: Candidate| #[trigger] sort_by_path(s).contains(y) <==> s.contains(y),
    decreases s.len(),
{
    if s.len() == 0 {
    } else {
        let d = s.drop_last();
        lemma_sort_has(d);
        lemma_insert_sorted_has(sort_by_path(d), s.last());
        assert forall|y: Candidate| #[trigger] sort_by_path(s).contains(y) <==> s.contains(y) by {
            assert(sort_by_path(s) == insert_sorted(sort_by_path(d), s.last()));
            if s.contains(y) && y != s.last() {
                let v = choose|v: int| 0 <= v < s.len() && s[v] == y;
                assert(d[v] == y);
                assert(d.contains(y));
            }
            if d.contains(y) {
                let v = choose|v: int| 0 <= v < d.len() && d[v] == y;
                assert(s[v] == y);
            }
            if y == s.last() {
                assert(s[s.len() - 1] == y);
            }
        }
    }
}

/// `k` is the path of a candidate of `s` that no candidate of `s` lies above.
pub open spec fn outermost_key(s: Seq<Candidate>, k: Seq<Component>) -> bool {
    &&& exists|i: int| 0 <= i < s.len() && #[trigger] key(s[i]) == k
    &&& !exists|j: int| 0 <= j < s.len() && comps_prefix(#[trigger] key(s[j]), k) && key(s[j]) != k
}

pub open spec fn has_key(r: Seq<Candidate>, k: Seq<Component>) -> bool {
    exists|m: int| 0 <= m < r.len() && #[trigger] key(r[m]) == k
}

proof fn lemma_prefix_antisym(a: Seq<Component>, b: Seq<Component>)
    requires
        comps_prefix(a, b),
        comps_prefix(b, a),
    ensures
        a == b,
{
    assert(a.len() == b.len());
    assert(b.subrange(0, a.len() as int) =~= b);
}

/// The kept paths are exactly the outermost paths of the input.
proof fn lemma_kept_keys(s: Seq<Candidate>)
    ensures
        forall|k: Seq<Component>| #[trigger] has_key(outermost(sort_by_path(s)), k) <==> outermost_key(s, k),
{
    let t = sort_by_path(s);
    lemma_sort_is_sorted(s);
    lemma_sort_has(s);
    lemma_outermost_invariant(t, t.len() as int);
    assert(t.subrange(0, t.len() as int) =~= t);
    let r = outermost(t);
    assert(kept_invariant(t, t.len() as int, r));
    assert forall|k: Seq<Component>| #[trigger] has_key(r, k) <==> outermost_key(s, k) by {
        if has_key(r, k) {
            let m = choose|m: int| 0 <= m < r.len() && #[trigger] key(r[m]) == k;
            let j = choose|j: int| 0 <= j < t.len() && #[trigger] r[m] == t[j];
            assert(t.contains(t[j]));
            assert(s.contains(r[m]));
            let i = choose|i: int| 0 <= i < s.len() && s[i] == r[m];
            assert(key(s[i]) == k);
            if exists|j2: int| 0 <= j2 < s.len() && comps_prefix(#[trigger] key(s[j2]), k) && key(s[j2]) != k {
                let j2 = choose|j2: int| 0 <= j2 < s.len() && comps_prefix(#[trigger] key(s[j2]), k) && key(s[j2]) != k;
                assert(s.contains(s[j2]));
                assert(t.contains(s[j2]));
                let w = choose|w: int| 0 <= w < t.len() && t[w] == s[j2];
                assert(covers(r, t));
                let m2 = choose|m2: int| 0 <= m2 < r.len() && comps_prefix(key(r[m2]), key(#[trigger] t[w]));
                lemma_prefix_trans(key(r[m2]), key(s[j2]), k);
                assert(m2 == m);
                lemma_prefix_antisym(key(s[j2]), k);
            }
        }
        if outermost_key(s, k) {
            let i = choose|i: int| 0 <= i < s.len() && #[trigger] key(s[i]) == k;
            assert(s.contains(s[i]));
            assert(t.contains(s[i]));
            let w = choose|w: int| 0 <= w < t.len() && t[w] == s[i];
            let m = choose|m: int| 0 <= m < r.len() && comps_prefix(key(r[m]), key(#[trigger] t[w]));
            let j = choose|j: int| 0 <= j < t.len() && #[trigger] r[m] == t[j];
            assert(t.contains(t[j]));
            assert(s.contains(r[m]));
            let i2 = choose|i2: int| 0 <= i2 < s.len() && s[i2] == r[m];
            assert(key(s[i2]) == key(r[m]));
            assert(key(r[m]) == k);
        }
    }
}

proof fn lemma_sorted_keys_agree(r: Seq<Candidate>, q: Seq<Candidate>)
    requires
        sorted_by_path(r),
        nesting_free(r),
        sorted_by_path(q),
        nesting_free(q),
        forall|k: Seq<Component>| #[trigger] has_key(r, k) <==> has_key(q, k),
    ensures
        r.len() == q.len(),
        forall|m: int| 0 <= m < r.len() ==> key(#[trigger] r[m]) == key(q[m]),
    decreases r.len() + q.len(),
{
    if r.len() == 0 || q.len() == 0 {
        if r.len() > 0 {
            assert(has_key(r, key(r[0])));
        }
        if q.len() > 0 {
            assert(has_key(q, key(q[0])));
            assert(!has_key(r, key(q[0])));
        }
    } else {
        let lr = key(r.last());
        let lq = key(q.last());
        assert(has_key(r, lr)) by {
            assert(key(r[r.len() - 1]) == lr);
        }
        assert(has_key(q, lq)) by {
            assert(key(q[q.len() - 1]) == lq);
        }
        assert(has_key(q, lr));
        assert(has_key(r, lq));
        let m0 = choose|m: int| 0 <= m < q.len() && #[trigger] key(q[m]) == lr;
        let m1 = choose|m: int| 0 <= m < r.len() && #[trigger] key(r[m]) == lq;
        if m0 < q.len() - 1 {
            assert(comps_le(key(q[m0]), key(q[q.len() - 1])));
        } else {
            lemma_comps_order_props(lr, lq);
        }
        if m1 < r.len() - 1 {
            assert(comps_le(key(r[m1]), key(r[r.len() - 1])));
        } else {
            lemma_comps_order_props(lr, lq);
        }
        lemma_comps_order_props(lr, lq);
        assert(lr == lq);
        let rd = r.drop_last();
        let qd = q.drop_last();
        assert(sorted_by_path(rd) && nesting_free(rd)) by {
            assert forall|a: int, b: int| 0 <= a < b < rd.len() implies comps_le(key(rd[a]), key(rd[b])) by {
                assert(rd[a] == r[a] && rd[b] == r[b]);
            }
            assert forall|a: int, b: int|
                0 <= a < rd.len() && 0 <= b < rd.len() && a != b implies !comps_prefix(key(rd[a]), key(rd[b])) by {
                assert(rd[a] == r[a] && rd[b] == r[b]);
            }
        }
        assert(sorted_by_path(qd) && nesting_free(qd)) by {
            assert forall|a: int, b: int| 0 <= a < b < qd.len() implies comps_le(key(qd[a]), key(qd[b])) by {
                assert(qd[a] == q[a] && qd[b] == q[b]);
            }
            assert forall|a: int, b: int|
                0 <= a < qd.len() && 0 <= b < qd.len() && a != b implies !comps_prefix(key(qd[a]), key(qd[b])) by {
                assert(qd[a] == q[a] && qd[b] == q[b]);
            }
        }
        assert forall|k: Seq<Component>| #[trigger] has_key(rd, k) <==> has_key(qd, k) by {
            assert(k.subrange(0, k.len() as int) =~= k);
            if has_key(rd, k) {
                let m = choose|m: int| 0 <= m < rd.len() && #[trigger] key(rd[m]) == k;
                assert(rd[m] == r[m]);
                assert(has_key(r, k));
                assert(k != lr) by {
                    assert(!comps_prefix(key(r[m]), key(r[r.len() - 1])));
                }
                let w = choose|w: int| 0 <= w < q.len() && #[trigger] key(q[w]) == k;
                assert(w != q.len() - 1);
                assert(qd[w] == q[w]);
            }
            if has_key(qd, k) {
                let m = choose|m: int| 0 <= m < qd.len() && #[trigger] key(qd[m]) == k;
                assert(qd[m] == q[m]);
                assert(has_key(q, k));
                assert(k != lq) by {
                    assert(!comps_prefix(key(q[m]), key(q[q.len() - 1])));
                }
                assert(has_key(r, k));
                let w = choose|w: int| 0 <= w < r.len() && #[trigger] key(r[w]) == k;
                assert(w != r.len() - 1);
                assert(rd[w] == r[w]);
            }
        }
        lemma_sorted_keys_agree(rd, qd);
        assert forall|m: int| 0 <= m < r.len() implies key(#[trigger] r[m]) == key(q[m]) by {
            if m < r.len() - 1 {
                assert(rd[m] == r[m] && qd[m] == q[m]);
            }
        }
    }
}

/// The paths kept do not depend on the order the candidates came in: inputs
/// with the same candidates keep the same paths, in the same order, path
/// compared component by component (as paths compare).
pub proof fn lemma_dedupe_order_independent(xs: Seq<Candidate>, ys: Seq<Candidate>)
    requires
        forall|c: Candidate| xs.contains(c) <==> ys.contains(c),
    ensures
        outermost(sort_by_path(xs)).map_values(|c: Candidate| key(c)) == outermost(sort_by_path(ys)).map_values(
            |c: Candidate| key(c),
        ),
{
    let r = outermost(sort_by_path(xs));
    let q = outermost(sort_by_path(ys));
    lemma_kept_keys(xs);
    lemma_kept_keys(ys);
    lemma_sort_is_sorted(xs);
    lemma_sort_is_sorted(ys);
    let tx = sort_by_path(xs);
    let ty = sort_by_path(ys);
    lemma_outermost_invariant(tx, tx.len() as int);
    lemma_outermost_invariant(ty, ty.len() as int);
    assert(tx.subrange(0, tx.len() as int) =~= tx);
    assert(ty.subrange(0, ty.len() as int) =~= ty);
    assert forall|k: Seq<Component>| #[trigger] has_key(r, k) <==> has_key(q, k) by {
        if exists|i: int| 0 <= i < xs.len() && #[trigger] key(xs[i]) == k {
            let i = choose|i: int| 0 <= i < xs.len() && #[trigger] key(xs[i]) == k;
            assert(xs.contains(xs[i]));
            let i2 = choose|i2: int| 0 <= i2 < ys.len() && ys[i2] == xs[i];
            assert(key(ys[i2]) == k);
        }
        if exists|i: int| 0 <= i < ys.len() && #[trigger] key(ys[i]) == k {
            let i = choose|i: int| 0 <= i < ys.len() && #[trigger] key(ys[i]) == k;
            assert(ys.contains(ys[i]));
            let i2 = choose|i2: int| 0 <= i2 < xs.len() && xs[i2] == ys[i];
            assert(key(xs[i2]) == k);
        }
        if exists|j: int| 0 <= j < xs.len() && comps_prefix(#[trigger] key(xs[j]), k) && key(xs[j]) != k {
            let j = choose|j: int| 0 <= j < xs.len() && comps_prefix(#[trigger] key(xs[j]), k) && key(xs[j]) != k;
            assert(xs.contains(xs[j]));
            let j2 = choose|j2: int| 0 <= j2 < ys.len() && ys[j2] == xs[j];
            assert(comps_prefix(key(ys[j2]), k) && key(ys[j2]) != k);
        }
        if exists|j: int| 0 <= j < ys.len() && comps_prefix(#[trigger] key(ys[j]), k) && key(ys[j]) != k {
            let j = choose|j: int| 0 <= j < ys.len() && comps_prefix(#[trigger] key(ys[j]), k) && key(ys[j]) != k;
            assert(ys.contains(ys[j]));
            let j2 = choose|j2: int| 0 <= j2 < xs.len() && xs[j2] == ys[j];
            assert(comps_prefix(key(xs[j2]), k) && key(xs[j2]) != k);
        }
        assert(outermost_key(xs, k) == outermost_key(ys, k));
    }
    lemma_sorted_keys_agree(r, q);
    let kr = r.map_values(|c: Candidate| key(c));
    let kq = q.map_values(|c: Candidate| key(c));
    assert forall|m: int| 0 <= m < kr.len() implies kr[m] == kq[m] by {
        assert(key(r[m]) == key(q[m]));
    }
    assert(kr =~= kq);
}

/// Where the input spells each path one way, even the text of the kept paths
/// does not depend on the input order. (Two spellings of one path, such as
/// `/a//b` and `/a/b`, are one path to the ordering, and which spelling is
/// kept then follows the input order.)
pub proof fn lemma_dedupe_order_independent_text(xs: Seq<Candidate>, ys: Seq<Candidate>)
    requires
        forall|c: Candidate| xs.contains(c) <==> ys.contains(c),
        forall|i: int, j: int|
            0 <= i < xs.len() && 0 <= j < xs.len() && key(#[trigger] xs[i]) == key(#[trigger] xs[j])
                ==> xs[i].path@ == xs[j].path@,
    ensures
        outermost(sort_by_path(xs)).map_values(|c: Candidate| c.path@) == outermost(sort_by_path(ys)).map_values(
            |c: Candidate| c.path@,
        ),
{
    let r = outermost(sort_by_path(xs));
    let q = outermost(sort_by_path(ys));
    lemma_dedupe_order_independent(xs, ys);
    lemma_sort_is_sorted(xs);
    lemma_sort_is_sorted(ys);
    lemma_sort_has(xs);
    lemma_sort_has(ys);
    let tx = sort_by_path(xs);
    let ty = sort_by_path(ys);
    lemma_outermost_invariant(tx, tx.len() as int);
    lemma_outermost_invariant(ty, ty.len() as int);
    assert(tx.subrange(0, tx.len() as int) =~= tx);
    assert(ty.subrange(0, ty.len() as int) =~= ty);
    let kr = r.map_values(|c: Candidate| key(c));
    let kq = q.map_values(|c: Candidate| key(c));
    let pr = r.map_values(|c: Candidate| c.path@);
    let pq = q.map_values(|c: Candidate| c.path@);
    assert(kr.len() == kq.len());
    assert forall|m: int| 0 <= m < pr.len() implies pr[m] == pq[m] by {
        assert(kr[m] == kq[m]);
        let j = choose|j: int| 0 <= j < tx.len() && #[trigger] r[m] == tx[j];
        assert(tx.contains(tx[j]));
        let a = choose|a: int| 0 <= a < xs.len() && xs[a] == r[m];
        let j2 = choose|j2: int| 0 <= j2 < ty.len() && #[trigger] q[m] == ty[j2];
        assert(ty.contains(ty[j2]));
        assert(ys.contains(q[m]));
        let b = choose|b: int| 0 <= b < xs.len() && xs[b] == q[m];
        assert(key(xs[a]) == key(xs[b]));
    }
    assert(pr =~= pq);
}

} // verus!
