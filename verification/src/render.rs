//! The human-readable report.
//!
//! A raw per-path list is unreadable on a real machine, so the report leads
//! with one line per target (largest first), then the largest individual
//! paths (capped), what is held back behind a flag, what was skipped, and how
//! many targets were absent, and ends with the totals.
use vstd::prelude::*;

use crate::report::{is_opt_in, reason_text, Item, Reason, Report, Verdict};
use crate::text::{pad_left, pad_right, push_dashes, push_padded_left, push_padded_right, repeat, text_eq};
use crate::units::{decimal, human, human_text, push_decimal};

verus! {

/// One target's share of what is reclaimable.
pub struct Rollup {
    pub id: String,
    pub bytes: u64,
    pub paths: usize,
}

#[verifier::ext_equal]
pub struct RowModel {
    pub id: Seq<char>,
    pub bytes: u64,
    pub paths: nat,
}

impl View for Rollup {
    type V = RowModel;

    open spec fn view(&self) -> RowModel {
        RowModel { id: self.id@, bytes: self.bytes, paths: self.paths as nat }
    }
}

pub open spec fn sat_add(a: u64, b: u64) -> u64 {
    if a + b <= u64::MAX {
        (a + b) as u64
    } else {
        u64::MAX
    }
}

/// Position of the row of `id`, or -1.
pub open spec fn row_of(rows: Seq<RowModel>, id: Seq<char>) -> int
    decreases rows.len(),
{
    if rows.len() == 0 {
        -1
    } else if rows.last().id == id {
        rows.len() - 1
    } else {
        row_of(rows.drop_last(), id)
    }
}

/// The reclaimable items summed per target, in order of first appearance.
pub open spec fn rollups(items: Seq<Item>) -> Seq<RowModel>
    decreases items.len(),
{
    if items.len() == 0 {
        seq![]
    } else {
        let r = rollups(items.drop_last());
        let it = items.last();
        if it.verdict != Verdict::Reclaimable {
            r
        } else {
            let p = row_of(r, it.id@);
            if p < 0 {
                r.push(RowModel { id: it.id@, bytes: it.bytes, paths: 1 })
            } else {
                r.update(p, RowModel { id: r[p].id, bytes: sat_add(r[p].bytes, it.bytes), paths: r[p].paths + 1 })
            }
        }
    }
}

/// Row `a` is listed no later than row `b`: more bytes, or as many and an id no later.
pub open spec fn row_before(a: RowModel, b: RowModel) -> bool {
    a.bytes > b.bytes || (a.bytes == b.bytes && crate::paths::chars_order(a.id, b.id) <= 0)
}

pub open spec fn insert_row(s: Seq<RowModel>, x: RowModel) -> Seq<RowModel>
    decreases s.len(),
{
    if s.len() == 0 {
        seq![x]
    } else if row_before(s.last(), x) {
        s.push(x)
    } else {
        insert_row(s.drop_last(), x).push(s.last())
    }
}

pub open spec fn sort_rows(s: Seq<RowModel>) -> Seq<RowModel>
    decreases s.len(),
{
    if s.len() == 0 {
        seq![]
    } else {
        insert_row(sort_rows(s.drop_last()), s.last())
    }
}

/// Stable insertion by size, largest first.
pub open spec fn insert_big(s: Seq<Item>, x: Item) -> Seq<Item>
    decreases s.len(),
{
    if s.len() == 0 {
        seq![x]
    } else if s.last().bytes >= x.bytes {
        s.push(x)
    } else {
        insert_big(s.drop_last(), x).push(s.last())
    }
}

/// The reclaimable items of nonzero size, largest first (stable).
pub open spec fn largest(items: Seq<Item>) -> Seq<Item>
    decreases items.len(),
{
    if items.len() == 0 {
        seq![]
    } else {
        let r = largest(items.drop_last());
        let it = items.last();
        if it.verdict == Verdict::Reclaimable && it.bytes > 0 {
            insert_big(r, it)
        } else {
            r
        }
    }
}

/// Items of `items` that satisfy `keep`, in order.
pub open spec fn items_where(items: Seq<Item>, keep: spec_fn(Item) -> bool) -> Seq<Item>
    decreases items.len(),
{
    if items.len() == 0 {
        seq![]
    } else {
        let r = items_where(items.drop_last(), keep);
        if keep(items.last()) {
            r.push(items.last())
        } else {
            r
        }
    }
}

pub open spec fn is_held_back(it: Item) -> bool {
    is_opt_in(it.reason)
}

/// Skipped for a reason worth showing (not absence, not a flag).
pub open spec fn is_shown_skip(it: Item) -> bool {
    it.verdict == Verdict::Skipped && !(it.reason is NotPresent) && !is_opt_in(it.reason)
}

pub open spec fn is_absent(it: Item) -> bool {
    it.reason is NotPresent
}

pub open spec fn lines_of<T>(s: Seq<T>, line: spec_fn(T) -> Seq<char>) -> Seq<char>
    decreases s.len(),
{
    if s.len() == 0 {
        seq![]
    } else {
        lines_of(s.drop_last(), line) + line(s.last())
    }
}

pub open spec fn rollup_line(row: RowModel) -> Seq<char> {
    "  "@ + pad_left(human_text(row.bytes), 9) + "  "@ + pad_right(row.id, 20) + (if row.paths > 1 {
        "  ("@ + decimal(row.paths) + " paths)"@
    } else {
        seq![]
    }) + "\n"@
}

pub open spec fn big_line(it: Item) -> Seq<char> {
    "    "@ + pad_left(human_text(it.bytes), 9) + "  "@ + it.path@ + "\n"@
}

pub open spec fn held_line(it: Item) -> Seq<char> {
    "    "@ + pad_left(human_text(it.bytes), 9) + "  "@ + pad_right(it.id@, 20) + " "@ + reason_text(
        it.reason,
    ) + "\n"@
}

pub open spec fn skip_line(it: Item) -> Seq<char> {
    "    "@ + pad_right(it.id@, 20) + " "@ + it.path@ + "  ("@ + reason_text(it.reason) + ")\n"@
}

pub open spec fn rule_line() -> Seq<char> {
    repeat('-', 72) + "\n"@
}

pub open spec fn header_text(r: Report) -> Seq<char> {
    "diskzap "@ + (if r.dry_run {
        "(dry-run — nothing deleted)"@
    } else {
        "(APPLY — deleting)"@
    }) + "\n"@ + match r.free_bytes_before {
        Some(before) => "free on data volume: "@ + human_text(before) + match r.free_bytes_after {
            Some(after) => " → "@ + human_text(after) + "\n"@,
            None => "\n"@,
        },
        None => seq![],
    } + rule_line()
}

pub open spec fn largest_text(items: Seq<Item>, top: nat) -> Seq<char> {
    let big = largest(items);
    if big.len() == 0 {
        seq![]
    } else {
        "\n  largest:\n"@ + lines_of(big.take(if big.len() < top { big.len() as int } else { top as int }), |it: Item| big_line(it)) + if big.len() > top {
            "    … and "@ + decimal((big.len() - top) as nat) + " more (--top N, or --json)\n"@
        } else {
            seq![]
        }
    }
}

pub open spec fn held_text(items: Seq<Item>) -> Seq<char> {
    let held = items_where(items, |it: Item| is_held_back(it));
    if held.len() == 0 {
        seq![]
    } else {
        "\n  held back (needs a flag):\n"@ + lines_of(held, |it: Item| held_line(it))
    }
}

pub open spec fn skipped_text(items: Seq<Item>) -> Seq<char> {
    let skipped = items_where(items, |it: Item| is_shown_skip(it));
    if skipped.len() == 0 {
        seq![]
    } else {
        "\n  skipped:\n"@ + lines_of(skipped, |it: Item| skip_line(it))
    }
}

pub open spec fn absent_text(items: Seq<Item>) -> Seq<char> {
    let n = items_where(items, |it: Item| is_absent(it)).len();
    if n == 0 {
        seq![]
    } else {
        "\n  "@ + decimal(n) + " target(s) not present on this machine\n"@
    }
}

pub open spec fn footer_text(r: Report) -> Seq<char> {
    rule_line() + (if r.dry_run {
        "Reclaimable: "@ + human_text(r.total_reclaimable_bytes) + "   (run again with --apply to delete)\n"@
    } else {
        "Deleted: "@ + human_text(r.total_deleted_bytes) + "\n"@
    }) + if r.total_opt_in_bytes > 0 {
        "Held back: "@ + human_text(r.total_opt_in_bytes)
            + "   (opt in with --include-vm-disks / --include-os-caches)\n"@
    } else {
        seq![]
    }
}

/// The whole human-readable report.
pub open spec fn human_report(r: Report, top: nat) -> Seq<char> {
    header_text(r) + lines_of(sort_rows(rollups(r.items@)), |row: RowModel| rollup_line(row))
        + largest_text(r.items@, top) + held_text(r.items@) + skipped_text(r.items@)
        + absent_text(r.items@) + footer_text(r)
}

proof fn lemma_lines_push<T>(s: Seq<T>, x: T, line: spec_fn(T) -> Seq<char>)
    ensures
        lines_of(s.push(x), line) == lines_of(s, line) + line(x),
{
    assert(s.push(x).drop_last() =~= s);
}

fn rollup_rows(items: &Vec<Item>) -> (r: Vec<Rollup>)
    ensures
        r@.map_values(|row: Rollup| row@) == rollups(items@),
{
    let mut rows: Vec<Rollup> = Vec::new();
    let mut i: usize = 0;
    while i < items.len()
        invariant
            i <= items.len(),
            rows@.map_values(|row: Rollup| row@) == rollups(items@.subrange(0, i as int)),
            forall|q: int| 0 <= q < rows.len() ==> (#[trigger] rows@[q]).paths <= i,
        decreases items.len() - i,
    {
        let ghost pre = items@.subrange(0, i as int);
        let ghost post = items@.subrange(0, i + 1);
        let ghost old_view = rows@.map_values(|row: Rollup| row@);
        proof {
            assert(post.drop_last() =~= pre);
            assert(post.last() == items@[i as int]);
        }
        let it = &items[i];
        if it.verdict == Verdict::Reclaimable {
            let id = it.id.as_str();
            let mut p = rows.len();
            assert(old_view.subrange(0, old_view.len() as int) =~= old_view);
            while p > 0 && !text_eq(rows[p - 1].id.as_str(), id)
                invariant
                    p <= rows.len(),
                    old_view == rows@.map_values(|row: Rollup| row@),
                    row_of(old_view, id@) == row_of(old_view.subrange(0, p as int), id@),
                decreases p,
            {
                proof {
                    assert(old_view.subrange(0, p as int).drop_last() =~= old_view.subrange(0, p - 1));
                }
                p = p - 1;
            }
            proof {
                if p > 0 {
                    assert(old_view.subrange(0, p as int).last() == old_view[p - 1]);
                } else {
                    assert(old_view.subrange(0, 0) =~= Seq::<RowModel>::empty());
                }
                assert(old_view.subrange(0, old_view.len() as int) =~= old_view);
            }
            if p == 0 {
                rows.push(Rollup { id: it.id.clone(), bytes: it.bytes, paths: 1 });
                assert(rows@.map_values(|row: Rollup| row@) =~= old_view.push(
                    RowModel { id: it.id@, bytes: it.bytes, paths: 1 },
                ));
            } else {
                let old_bytes = rows[p - 1].bytes;
                let old_paths = rows[p - 1].paths;
                let new_id = rows[p - 1].id.clone();
                rows.set(p - 1, Rollup { id: new_id, bytes: old_bytes.saturating_add(it.bytes), paths: old_paths + 1 });
                assert(rows@.map_values(|row: Rollup| row@) =~= old_view.update(
                    p - 1,
                    RowModel {
                        id: old_view[p - 1].id,
                        bytes: sat_add(old_view[p - 1].bytes, it.bytes),
                        paths: old_view[p - 1].paths + 1,
                    },
                ));
            }
        }
        i = i + 1;
    }
    assert(items@.subrange(0, items.len() as int) =~= items@);
    rows
}

fn row_before_exec(a: &Rollup, b: &Rollup) -> (r: bool)
    ensures
        r == row_before(a@, b@),
{
    a.bytes > b.bytes || (a.bytes == b.bytes && crate::paths::text_order(a.id.as_str(), b.id.as_str()) <= 0)
}

proof fn lemma_insert_row_at(s: Seq<RowModel>, x: RowModel, p: int)
    requires
        0 <= p <= s.len(),
        forall|q: int| p <= q < s.len() ==> !row_before(#[trigger] s[q], x),
        p == 0 || row_before(s[p - 1], x),
    ensures
        insert_row(s, x) =~= s.subrange(0, p).push(x) + s.subrange(p, s.len() as int),
    decreases s.len(),
{
    if s.len() == 0 {
    } else if s.len() == p {
        assert(s.subrange(0, p) =~= s);
    } else {
        lemma_insert_row_at(s.drop_last(), x, p);
        assert(s.drop_last().subrange(0, p) =~= s.subrange(0, p));
        assert(s.drop_last().subrange(p, s.len() - 1).push(s.last()) =~= s.subrange(p, s.len() as int));
    }
}

fn sort_rollups(rows: Vec<Rollup>) -> (r: Vec<Rollup>)
    ensures
        r@.map_values(|row: Rollup| row@) == sort_rows(rows@.map_values(|row: Rollup| row@)),
{
    let ghost orig = rows@.map_values(|row: Rollup| row@);
    let n = rows.len();
    let mut input = rows;
    let mut rev: Vec<Rollup> = Vec::new();
    while input.len() > 0
        invariant
            input.len() + rev.len() == n,
            n == orig.len(),
            input@.map_values(|row: Rollup| row@) =~= orig.subrange(0, input.len() as int),
            forall|k: int| 0 <= k < rev.len() ==> (#[trigger] rev@[k])@ == orig[n - 1 - k],
        decreases input.len(),
    {
        let ghost before = input@.map_values(|row: Rollup| row@);
        let row = input.pop().unwrap();
        proof {
            assert(row@ == before[before.len() - 1]);
            assert(input@.map_values(|row: Rollup| row@) =~= before.drop_last());
        }
        rev.push(row);
    }
    let mut sorted: Vec<Rollup> = Vec::new();
    let mut i: usize = 0;
    proof {
        assert(orig.subrange(0, 0) =~= Seq::<RowModel>::empty());
        assert(sorted@.map_values(|row: Rollup| row@) =~= Seq::<RowModel>::empty());
    }
    while rev.len() > 0
        invariant
            i + rev.len() == n,
            n == orig.len(),
            forall|k: int| 0 <= k < rev.len() ==> (#[trigger] rev@[k])@ == orig[n - 1 - k],
            sorted@.map_values(|row: Rollup| row@) == sort_rows(orig.subrange(0, i as int)),
        decreases rev.len(),
    {
        let x = rev.pop().unwrap();
        let ghost s = sorted@.map_values(|row: Rollup| row@);
        let mut p = sorted.len();
        while p > 0 && !row_before_exec(&sorted[p - 1], &x)
            invariant
                p <= sorted.len(),
                s == sorted@.map_values(|row: Rollup| row@),
                forall|q: int| p <= q < sorted.len() ==> !row_before(#[trigger] s[q], x@),
            decreases p,
        {
            p = p - 1;
        }
        proof {
            let pre = orig.subrange(0, i as int);
            let post = orig.subrange(0, i + 1);
            assert(post.drop_last() =~= pre);
            assert(post.last() == x@);
            lemma_insert_row_at(s, x@, p as int);
        }
        sorted.insert(p, x);
        assert(sorted@.map_values(|row: Rollup| row@) =~= s.subrange(0, p as int).push(x@) + s.subrange(p as int, s.len() as int));
        i = i + 1;
    }
    assert(orig.subrange(0, n as int) =~= orig);
    sorted
}

proof fn lemma_insert_big_at(s: Seq<Item>, x: Item, p: int)
    requires
        0 <= p <= s.len(),
        forall|q: int| p <= q < s.len() ==> (#[trigger] s[q]).bytes < x.bytes,
        p == 0 || s[p - 1].bytes >= x.bytes,
    ensures
        insert_big(s, x) =~= s.subrange(0, p).push(x) + s.subrange(p, s.len() as int),
    decreases s.len(),
{
    if s.len() == 0 {
    } else if s.len() == p {
        assert(s.subrange(0, p) =~= s);
    } else {
        lemma_insert_big_at(s.drop_last(), x, p);
        assert(s.drop_last().subrange(0, p) =~= s.subrange(0, p));
        assert(s.drop_last().subrange(p, s.len() - 1).push(s.last()) =~= s.subrange(p, s.len() as int));
    }
}

pub open spec fn picked(items: Seq<Item>, idx: Seq<usize>) -> Seq<Item> {
    Seq::new(idx.len(), |q: int| items[idx[q] as int])
}

/// Positions of the reclaimable items of nonzero size, largest first (stable).
fn largest_positions(items: &Vec<Item>) -> (r: Vec<usize>)
    ensures
        forall|q: int| 0 <= q < r.len() ==> (#[trigger] r@[q]) < items.len(),
        picked(items@, r@) == largest(items@),
{
    let mut big: Vec<usize> = Vec::new();
    let mut i: usize = 0;
    while i < items.len()
        invariant
            i <= items.len(),
            forall|q: int| 0 <= q < big.len() ==> (#[trigger] big@[q]) < i,
            picked(items@, big@) == largest(items@.subrange(0, i as int)),
        decreases items.len() - i,
    {
        let ghost pre = items@.subrange(0, i as int);
        let ghost post = items@.subrange(0, i + 1);
        let ghost s = picked(items@, big@);
        proof {
            assert(post.drop_last() =~= pre);
            assert(post.last() == items@[i as int]);
        }
        if items[i].verdict == Verdict::Reclaimable && items[i].bytes > 0 {
            let b = items[i].bytes;
            let mut p = big.len();
            while p > 0 && items[big[p - 1]].bytes < b
                invariant
                    p <= big.len(),
                    i < items.len(),
                    b == items@[i as int].bytes,
                    forall|q: int| 0 <= q < big.len() ==> (#[trigger] big@[q]) < i,
                    s == picked(items@, big@),
                    forall|q: int| p <= q < s.len() ==> (#[trigger] s[q]).bytes < b,
                decreases p,
            {
                p = p - 1;
            }
            proof {
                lemma_insert_big_at(s, items@[i as int], p as int);
            }
            big.insert(p, i);
            assert(picked(items@, big@) =~= s.subrange(0, p as int).push(items@[i as int]) + s.subrange(p as int, s.len() as int));
        }
        i = i + 1;
    }
    assert(items@.subrange(0, items.len() as int) =~= items@);
    big
}

fn push_human(s: &mut String, bytes: u64)
    ensures
        final(s)@ == old(s)@ + human_text(bytes),
{
    let h = human(bytes);
    s.append(h.as_str());
}

#[verifier::rlimit(40)]
fn push_header(s: &mut String, r: &Report)
    ensures
        final(s)@ == old(s)@ + header_text(*r),
{
    s.append("diskzap ");
    if r.dry_run {
        s.append("(dry-run — nothing deleted)");
    } else {
        s.append("(APPLY — deleting)");
    }
    s.append("\n");
    match r.free_bytes_before {
        Some(before) => {
            s.append("free on data volume: ");
            push_human(s, before);
            match r.free_bytes_after {
                Some(after) => {
                    s.append(" → ");
                    push_human(s, after);
                    s.append("\n");
                },
                None => {
                    s.append("\n");
                },
            }
        },
        None => {},
    }
    push_dashes(s, 72);
    s.append("\n");
    assert(final(s)@ =~= old(s)@ + header_text(*r));
}

fn push_rollup_lines(s: &mut String, rows: &Vec<Rollup>)
    ensures
        final(s)@ == old(s)@ + lines_of(rows@.map_values(|row: Rollup| row@), |row: RowModel| rollup_line(row)),
{
    let ghost v = rows@.map_values(|row: Rollup| row@);
    let mut i: usize = 0;
    while i < rows.len()
        invariant
            i <= rows.len(),
            v == rows@.map_values(|row: Rollup| row@),
            s@ == old(s)@ + lines_of(v.subrange(0, i as int), |row: RowModel| rollup_line(row)),
        decreases rows.len() - i,
    {
        let row = &rows[i];
        let ghost before = s@;
        s.append("  ");
        let h = human(row.bytes);
        push_padded_left(s, h.as_str(), 9);
        s.append("  ");
        push_padded_right(s, row.id.as_str(), 20);
        if row.paths > 1 {
            s.append("  (");
            push_decimal(s, row.paths as u128);
            s.append(" paths)");
        }
        s.append("\n");
        proof {
            assert(s@ =~= before + rollup_line(v[i as int]));
            assert(v.subrange(0, i + 1) =~= v.subrange(0, i as int).push(v[i as int]));
            lemma_lines_push(v.subrange(0, i as int), v[i as int], |row: RowModel| rollup_line(row));
        }
        i = i + 1;
    }
    assert(v.subrange(0, rows.len() as int) =~= v);
}

fn push_largest(s: &mut String, items: &Vec<Item>, top: usize)
    ensures
        final(s)@ == old(s)@ + largest_text(items@, top as nat),
{
    let big = largest_positions(items);
    let ghost bv = picked(items@, big@);
    if big.len() == 0 {
        return;
    }
    s.append("\n  largest:\n");
    let shown = if big.len() < top {
        big.len()
    } else {
        top
    };
    let ghost base = s@;
    let mut i: usize = 0;
    while i < shown
        invariant
            i <= shown,
            shown <= big.len(),
            bv == picked(items@, big@),
            forall|q: int| 0 <= q < big.len() ==> (#[trigger] big@[q]) < items.len(),
            s@ == base + lines_of(bv.subrange(0, i as int), |it: Item| big_line(it)),
        decreases shown - i,
    {
        let it = &items[big[i]];
        let ghost before = s@;
        s.append("    ");
        let h = human(it.bytes);
        push_padded_left(s, h.as_str(), 9);
        s.append("  ");
        s.append(it.path.as_str());
        s.append("\n");
        proof {
            assert(*it == bv[i as int]);
            assert(s@ =~= before + big_line(bv[i as int]));
            assert(bv.subrange(0, i + 1) =~= bv.subrange(0, i as int).push(bv[i as int]));
            lemma_lines_push(bv.subrange(0, i as int), bv[i as int], |it: Item| big_line(it));
        }
        i = i + 1;
    }
    if big.len() > top {
        s.append("    … and ");
        push_decimal(s, (big.len() - top) as u128);
        s.append(" more (--top N, or --json)\n");
    }
    assert(bv.take(shown as int) =~= bv.subrange(0, shown as int));
    assert(final(s)@ =~= old(s)@ + largest_text(items@, top as nat));
}

fn push_held(s: &mut String, items: &Vec<Item>)
    ensures
        final(s)@ == old(s)@ + held_text(items@),
{
    let ghost keep = |it: Item| is_held_back(it);
    let ghost line = |it: Item| held_line(it);
    let mut body = String::new();
    let mut n: usize = 0;
    let mut i: usize = 0;
    while i < items.len()
        invariant
            i <= items.len(),
            keep == (|it: Item| is_held_back(it)),
            line == (|it: Item| held_line(it)),
            n as nat == items_where(items@.subrange(0, i as int), keep).len(),
            n <= i,
            body@ == lines_of(items_where(items@.subrange(0, i as int), keep), line),
        decreases items.len() - i,
    {
        let it = &items[i];
        let ghost pre = items@.subrange(0, i as int);
        proof {
            assert(items@.subrange(0, i + 1).drop_last() =~= pre);
            assert(items@.subrange(0, i + 1).last() == *it);
        }
        let held = match &it.reason {
            Reason::NeedsVmDisks => true,
            Reason::NeedsOsCaches => true,
            _ => false,
        };
        if held {
            let ghost before = body@;
            body.append("    ");
            let h = human(it.bytes);
            push_padded_left(&mut body, h.as_str(), 9);
            body.append("  ");
            push_padded_right(&mut body, it.id.as_str(), 20);
            body.append(" ");
            let reason = it.reason.text();
            body.append(reason.as_str());
            body.append("\n");
            proof {
                assert(body@ =~= before + held_line(*it));
                lemma_lines_push(items_where(pre, keep), *it, line);
            }
            n = n + 1;
        }
        i = i + 1;
    }
    assert(items@.subrange(0, items.len() as int) =~= items@);
    if n > 0 {
        s.append("\n  held back (needs a flag):\n");
        s.append(body.as_str());
    }
    assert(final(s)@ =~= old(s)@ + held_text(items@));
}

fn push_skipped(s: &mut String, items: &Vec<Item>)
    ensures
        final(s)@ == old(s)@ + skipped_text(items@),
{
    let ghost keep = |it: Item| is_shown_skip(it);
    let ghost line = |it: Item| skip_line(it);
    let mut body = String::new();
    let mut n: usize = 0;
    let mut i: usize = 0;
    while i < items.len()
        invariant
            i <= items.len(),
            keep == (|it: Item| is_shown_skip(it)),
            line == (|it: Item| skip_line(it)),
            n as nat == items_where(items@.subrange(0, i as int), keep).len(),
            n <= i,
            body@ == lines_of(items_where(items@.subrange(0, i as int), keep), line),
        decreases items.len() - i,
    {
        let it = &items[i];
        let ghost pre = items@.subrange(0, i as int);
        proof {
            assert(items@.subrange(0, i + 1).drop_last() =~= pre);
            assert(items@.subrange(0, i + 1).last() == *it);
        }
        let quiet = match &it.reason {
            Reason::NotPresent => true,
            Reason::NeedsVmDisks => true,
            Reason::NeedsOsCaches => true,
            _ => false,
        };
        if it.verdict == Verdict::Skipped && !quiet {
            let ghost before = body@;
            body.append("    ");
            push_padded_right(&mut body, it.id.as_str(), 20);
            body.append(" ");
            body.append(it.path.as_str());
            body.append("  (");
            let reason = it.reason.text();
            body.append(reason.as_str());
            body.append(")\n");
            proof {
                assert(body@ =~= before + skip_line(*it));
                lemma_lines_push(items_where(pre, keep), *it, line);
            }
            n = n + 1;
        }
        i = i + 1;
    }
    assert(items@.subrange(0, items.len() as int) =~= items@);
    if n > 0 {
        s.append("\n  skipped:\n");
        s.append(body.as_str());
    }
    assert(final(s)@ =~= old(s)@ + skipped_text(items@));
}

fn push_absent(s: &mut String, items: &Vec<Item>)
    ensures
        final(s)@ == old(s)@ + absent_text(items@),
{
    let ghost keep = |it: Item| is_absent(it);
    let mut n: usize = 0;
    let mut i: usize = 0;
    while i < items.len()
        invariant
            i <= items.len(),
            keep == (|it: Item| is_absent(it)),
            n as nat == items_where(items@.subrange(0, i as int), keep).len(),
            n <= i,
        decreases items.len() - i,
    {
        proof {
            assert(items@.subrange(0, i + 1).drop_last() =~= items@.subrange(0, i as int));
            assert(items@.subrange(0, i + 1).last() == items@[i as int]);
        }
        let absent = match &items[i].reason {
            Reason::NotPresent => true,
            _ => false,
        };
        if absent {
            n = n + 1;
        }
        i = i + 1;
    }
    assert(items@.subrange(0, items.len() as int) =~= items@);
    if n > 0 {
        s.append("\n  ");
        push_decimal(s, n as u128);
        s.append(" target(s) not present on this machine\n");
    }
    assert(final(s)@ =~= old(s)@ + absent_text(items@));
}

fn push_footer(s: &mut String, r: &Report)
    ensures
        final(s)@ == old(s)@ + footer_text(*r),
{
    push_dashes(s, 72);
    s.append("\n");
    if r.dry_run {
        s.append("Reclaimable: ");
        push_human(s, r.total_reclaimable_bytes);
        s.append("   (run again with --apply to delete)\n");
    } else {
        s.append("Deleted: ");
        push_human(s, r.total_deleted_bytes);
        s.append("\n");
    }
    if r.total_opt_in_bytes > 0 {
        s.append("Held back: ");
        push_human(s, r.total_opt_in_bytes);
        s.append("   (opt in with --include-vm-disks / --include-os-caches)\n");
    }
    assert(final(s)@ =~= old(s)@ + footer_text(*r));
}

/// The human-readable report, listing at most `top` individual paths.
pub fn render_human(r: &Report, top: usize) -> (out: String)
    ensures
        out@ == human_report(*r, top as nat),
{
    let mut s = String::new();
    push_header(&mut s, r);
    let rows = sort_rollups(rollup_rows(&r.items));
    push_rollup_lines(&mut s, &rows);
    push_largest(&mut s, &r.items, top);
    push_held(&mut s, &r.items);
    push_skipped(&mut s, &r.items);
    push_absent(&mut s, &r.items);
    push_footer(&mut s, r);
    assert(s@ =~= human_report(*r, top as nat));
    s
}

/// `t` stands somewhere in `s`, as one stretch.
pub open spec fn has_text(s: Seq<char>, t: Seq<char>) -> bool {
    exists|i: int| 0 <= i && i + t.len() <= s.len() && #[trigger] s.subrange(i, i + t.len()) == t
}

proof fn lemma_has_text_in_front(a: Seq<char>, b: Seq<char>, t: Seq<char>)
    requires
        has_text(b, t),
    ensures
        has_text(a + b, t),
{
    let i = choose|i: int| 0 <= i && i + t.len() <= b.len() && #[trigger] b.subrange(i, i + t.len()) == t;
    assert((a + b).subrange(a.len() + i, a.len() + i + t.len()) =~= b.subrange(i, i + t.len()));
}

proof fn lemma_has_text_behind(a: Seq<char>, b: Seq<char>, t: Seq<char>)
    requires
        has_text(a, t),
    ensures
        has_text(a + b, t),
{
    let i = choose|i: int| 0 <= i && i + t.len() <= a.len() && #[trigger] a.subrange(i, i + t.len()) == t;
    assert((a + b).subrange(i, i + t.len()) =~= a.subrange(i, i + t.len()));
}

proof fn lemma_kept_item(items: Seq<Item>, keep: spec_fn(Item) -> bool, k: int)
    requires
        0 <= k < items.len(),
        keep(items[k]),
    ensures
        items_where(items, keep).contains(items[k]),
    decreases items.len(),
{
    let d = items.drop_last();
    if k == items.len() - 1 {
        let r = items_where(d, keep);
        assert(items_where(items, keep)[r.len() as int] == items[k]);
    } else {
        assert(d[k] == items[k]);
        lemma_kept_item(d, keep, k);
        let r = items_where(d, keep);
        let j = choose|j: int| 0 <= j < r.len() && r[j] == items[k];
        if keep(items.last()) {
            assert(items_where(items, keep)[j] == items[k]);
        } else {
            assert(items_where(items, keep)[j] == items[k]);
        }
    }
}

proof fn lemma_line_listed<T>(s: Seq<T>, line: spec_fn(T) -> Seq<char>, x: T)
    requires
        s.contains(x),
    ensures
        has_text(lines_of(s, line), line(x)),
    decreases s.len(),
{
    let d = s.drop_last();
    if s.last() == x {
        let pre = lines_of(d, line);
        assert((pre + line(x)).subrange(pre.len() as int, pre.len() + line(x).len() as int) =~= line(x));
        assert(lines_of(s, line) == pre + line(x));
    } else {
        let j = choose|j: int| 0 <= j < s.len() && s[j] == x;
        assert(j != s.len() - 1);
        assert(d[j] == x);
        lemma_line_listed(d, line, x);
        lemma_has_text_behind(lines_of(d, line), line(s.last()), line(x));
    }
}

/// Every line skipped for a reason worth telling is listed with that reason:
/// for each item of the report that was skipped, is present, and was not held
/// back behind a flag, the rendered report holds its line under "skipped:" —
/// its id, its path and its reason (a guard's refusal, the age gate, a failed
/// removal).
pub proof fn lemma_skipped_items_are_listed(r: Report, top: nat, k: int)
    requires
        0 <= k < r.items@.len(),
        r.items@[k].verdict == Verdict::Skipped,
        !(r.items@[k].reason is NotPresent),
        !is_opt_in(r.items@[k].reason),
    ensures
        has_text(
            human_report(r, top),
            "    "@ + pad_right(r.items@[k].id@, 20) + " "@ + r.items@[k].path@ + "  ("@ + reason_text(
                r.items@[k].reason,
            ) + ")\n"@,
        ),
        has_text(human_report(r, top), "\n  skipped:\n"@),
{
    let items = r.items@;
    let it = items[k];
    let keep = |i: Item| is_shown_skip(i);
    let line = |i: Item| skip_line(i);
    lemma_kept_item(items, keep, k);
    let shown = items_where(items, keep);
    lemma_line_listed(shown, line, it);
    assert(shown.len() > 0);
    let body = lines_of(shown, line);
    let head = "\n  skipped:\n"@;
    assert(skipped_text(items) == head + body);
    lemma_has_text_in_front(head, body, skip_line(it));
    assert(head.subrange(0, 0 + head.len() as int) =~= head);
    assert(has_text(head, head));
    lemma_has_text_behind(head, body, head);
    let before = header_text(r) + lines_of(sort_rows(rollups(items)), |row: RowModel| rollup_line(row))
        + largest_text(items, top) + held_text(items);
    let after = absent_text(items) + footer_text(r);
    assert(human_report(r, top) == before + skipped_text(items) + after);
    lemma_has_text_in_front(before, skipped_text(items), skip_line(it));
    lemma_has_text_behind(before + skipped_text(items), after, skip_line(it));
    lemma_has_text_in_front(before, skipped_text(items), head);
    lemma_has_text_behind(before + skipped_text(items), after, head);
}

/// Every line held back behind a flag is listed under "held back": for each
/// item of the report whose reason names an opt-in flag, the rendered report
/// holds its size, id and that reason.
pub proof fn lemma_held_back_items_are_listed(r: Report, top: nat, k: int)
    requires
        0 <= k < r.items@.len(),
        is_opt_in(r.items@[k].reason),
    ensures
        has_text(
            human_report(r, top),
            "    "@ + pad_left(human_text(r.items@[k].bytes), 9) + "  "@ + pad_right(r.items@[k].id@, 20) + " "@
                + reason_text(r.items@[k].reason) + "\n"@,
        ),
        has_text(human_report(r, top), "\n  held back (needs a flag):\n"@),
{
    let items = r.items@;
    let it = items[k];
    let keep = |i: Item| is_held_back(i);
    let line = |i: Item| held_line(i);
    lemma_kept_item(items, keep, k);
    let held = items_where(items, keep);
    lemma_line_listed(held, line, it);
    let body = lines_of(held, line);
    let head = "\n  held back (needs a flag):\n"@;
    assert(held_text(items) == head + body);
    lemma_has_text_in_front(head, body, held_line(it));
    assert(head.subrange(0, 0 + head.len() as int) =~= head);
    assert(has_text(head, head));
    lemma_has_text_behind(head, body, head);
    let before = header_text(r) + lines_of(sort_rows(rollups(items)), |row: RowModel| rollup_line(row))
        + largest_text(items, top);
    let after = skipped_text(items) + absent_text(items) + footer_text(r);
    assert(human_report(r, top) == before + held_text(items) + after);
    lemma_has_text_in_front(before, held_text(items), held_line(it));
    lemma_has_text_behind(before + held_text(items), after, held_line(it));
    lemma_has_text_in_front(before, held_text(items), head);
    lemma_has_text_behind(before + held_text(items), after, head);
}

} // verus!
