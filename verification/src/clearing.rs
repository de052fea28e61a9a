//! The clearing pass on a vector of settled blocks.

use std::collections::HashMap;
use vstd::prelude::*;
use crate::cell::{cells_of, Block, Cell, SETTLED_LIMIT, STEP_LIMIT};
use crate::compaction::{
    lemma_clear_rows_in_grid, lemma_compact_nothing, lemma_compact_push, lemma_row_count_push,
    lemma_row_count_witness, lemma_rows_below_bound,
};
use crate::rows::{
    below, clear_rows, compact, full_rows, grid_ok, in_grid, lemma_row_index_bounds,
    lemma_row_index_fits, row_count, row_index, row_is_full, row_of, rows_below,
};

verus! {

/// Row indices as mathematical integers.
pub open spec fn as_ints(rows: Seq<i64>) -> Seq<int> {
    rows.map_values(|k: i64| k as int)
}

/// A list of rows holds a row exactly if the list read as integers does.
proof fn lemma_as_ints_contains(rows: Seq<i64>, row: i64)
    ensures
        as_ints(rows).contains(row as int) <==> rows.contains(row),
{
    if rows.contains(row) {
        let t = choose|t: int| 0 <= t < rows.len() && rows[t] == row;
        assert(as_ints(rows)[t] == row as int);
    }
    if as_ints(rows).contains(row as int) {
        let t = choose|t: int| 0 <= t < as_ints(rows).len() && as_ints(rows)[t] == row as int;
        assert(rows[t] == row);
    }
}

/// Taking one more block extends the positions by that block's position.
proof fn lemma_cells_take_next(blocks: Seq<Block>, i: int)
    requires
        0 <= i < blocks.len(),
    ensures
        cells_of(blocks).take(i + 1) == cells_of(blocks).take(i).push(blocks[i]@),
        cells_of(blocks).take(i) == cells_of(blocks.take(i)),
{
    assert(cells_of(blocks).take(i + 1) =~= cells_of(blocks).take(i).push(blocks[i]@));
    assert(cells_of(blocks).take(i) =~= cells_of(blocks.take(i)));
}

/// With no duplicates in `rows`, filtering the sequence and filtering its
/// set of elements keep equally many.
proof fn lemma_distinct_filter_len(rows: Seq<int>, p: spec_fn(int) -> bool)
    requires
        rows.no_duplicates(),
    ensures
        rows.to_set().finite(),
        rows.filter(p).len() == rows.to_set().filter(p).len(),
    decreases rows.len(),
{
    if rows.len() == 0 {
        reveal(Seq::filter);
        assert(rows.to_set() =~= Set::<int>::empty());
        assert(rows.to_set().filter(p) =~= Set::<int>::empty());
    } else {
        let rest = rows.drop_last();
        let last = rows.last();
        assert(rows =~= rest.push(last));
        lemma_distinct_filter_len(rest, p);
        rest.lemma_filter_push(last, p);
        rest.lemma_push_to_set_commute(last);
        rest.to_set().lemma_len_filter(p);
        assert(!rest.to_set().contains(last)) by {
            if rest.contains(last) {
                let j = choose|j: int| 0 <= j < rest.len() && rest[j] == last;
                assert(rows[j] == rows[rows.len() - 1]);
            }
        }
        if p(last) {
            assert(rows.to_set().filter(p) =~= rest.to_set().filter(p).insert(last));
        } else {
            assert(rows.to_set().filter(p) =~= rest.to_set().filter(p));
        }
    }
}

/// The table holds every occupied row with the number of its cells, and no
/// other row.
spec fn is_tally(counts: Map<i64, usize>, cells: Seq<Cell>, row_height: int) -> bool {
    forall|k: i64|
        {
            &&& #[trigger] counts.contains_key(k) <==> row_count(cells, k as int, row_height) >= 1
            &&& counts.contains_key(k) ==> counts[k] == row_count(cells, k as int, row_height)
        }
}

/// Counts the blocks of each occupied row.
fn tally_rows(blocks: &Vec<Block>, row_height: i64) -> (counts: HashMap<i64, usize>)
    requires
        row_height >= 1,
    ensures
        is_tally(counts@, cells_of(blocks@), row_height as int),
{
    broadcast use vstd::std_specs::hash::group_hash_axioms;

    let ghost cells = cells_of(blocks@);
    let ghost h = row_height as int;
    let mut counts: HashMap<i64, usize> = HashMap::new();
    let mut i: usize = 0;
    assert(cells.take(0) =~= Seq::<Cell>::empty());
    assert forall|k: i64| row_count(cells.take(0), k as int, h) == 0 by {
        reveal(Seq::filter);
    }
    while i < blocks.len()
        invariant
            i <= blocks.len(),
            row_height >= 1,
            h == row_height as int,
            cells == cells_of(blocks@),
            is_tally(counts@, cells.take(i as int), h),
        decreases blocks.len() - i,
    {
        let row = row_of(blocks[i].y, row_height);
        let seen: usize = match counts.get(&row) {
            Some(n) => *n,
            None => 0,
        };
        proof {
            lemma_cells_take_next(blocks@, i as int);
            assert(seen == row_count(cells.take(i as int), row as int, h));
            assert forall|k: i64|
                row_count(cells.take(i + 1), k as int, h) == row_count(
                    cells.take(i as int),
                    k as int,
                    h,
                ) + (if k == row {
                    1nat
                } else {
                    0nat
                }) && row_count(cells.take(i as int), k as int, h) <= i by {
                lemma_row_count_push(cells.take(i as int), blocks@[i as int]@, k as int, h);
            }
        }
        counts.insert(row, seen + 1);
        i += 1;
    }
    assert(cells.take(blocks.len() as int) =~= cells);
    counts
}

/// Whether `rows` holds `row`.
fn has_row(rows: &Vec<i64>, row: i64) -> (found: bool)
    ensures
        found == rows@.contains(row),
{
    let mut j: usize = 0;
    while j < rows.len()
        invariant
            j <= rows.len(),
            forall|t: int| 0 <= t < j ==> rows@[t] != row,
        decreases rows.len() - j,
    {
        if rows[j] == row {
            return true;
        }
        j += 1;
    }
    false
}

/// Some cell among the first `upto` lies in row `row`.
spec fn row_seen(cells: Seq<Cell>, upto: int, row: int, row_height: int) -> bool {
    exists|j: int| 0 <= j < upto && row_index((#[trigger] cells[j]).y, row_height) == row
}

/// Lists every full row once, in order of first appearance.
fn collect_full_rows(
    blocks: &Vec<Block>,
    counts: &HashMap<i64, usize>,
    row_height: i64,
    width: usize,
) -> (full: Vec<i64>)
    requires
        row_height >= 1,
        width >= 1,
        is_tally(counts@, cells_of(blocks@), row_height as int),
    ensures
        full@.no_duplicates(),
        as_ints(full@).to_set() == full_rows(cells_of(blocks@), row_height as int, width as nat),
{
    broadcast use vstd::std_specs::hash::group_hash_axioms;

    let ghost cells = cells_of(blocks@);
    let ghost h = row_height as int;
    let ghost w = width as nat;
    let mut full: Vec<i64> = Vec::new();
    let mut i: usize = 0;
    while i < blocks.len()
        invariant
            i <= blocks.len(),
            row_height >= 1,
            width >= 1,
            h == row_height as int,
            w == width as nat,
            cells == cells_of(blocks@),
            is_tally(counts@, cells, h),
            full@.no_duplicates(),
            forall|k: i64| #[trigger]
                full@.contains(k) <==> row_is_full(cells, k as int, h, w) && row_seen(
                    cells,
                    i as int,
                    k as int,
                    h,
                ),
        decreases blocks.len() - i,
    {
        let row = row_of(blocks[i].y, row_height);
        let enough = match counts.get(&row) {
            Some(n) => *n >= width,
            None => false,
        };
        let ghost before = full@;
        assert(cells[i as int] == blocks@[i as int]@);
        assert(enough == row_is_full(cells, row as int, h, w));
        if enough && !has_row(&full, row) {
            full.push(row);
        }
        proof {
            assert(row_seen(cells, i + 1, row as int, h));
            assert forall|k: i64| #[trigger]
                full@.contains(k) <==> row_is_full(cells, k as int, h, w) && row_seen(
                    cells,
                    i + 1,
                    k as int,
                    h,
                ) by {
                if k != row {
                    if row_seen(cells, i + 1, k as int, h) {
                        let j = choose|j: int|
                            0 <= j < i + 1 && row_index((#[trigger] cells[j]).y, h) == k as int;
                        assert(j < i);
                        assert(row_seen(cells, i as int, k as int, h));
                    }
                    if row_seen(cells, i as int, k as int, h) {
                        let j = choose|j: int|
                            0 <= j < i && row_index((#[trigger] cells[j]).y, h) == k as int;
                        assert(row_seen(cells, i + 1, k as int, h));
                    }
                    if full@ != before {
                        assert(full@ == before.push(row));
                        if before.contains(k) {
                            let t = choose|t: int| 0 <= t < before.len() && before[t] == k;
                            assert(full@[t] == k);
                        }
                        if full@.contains(k) {
                            let t = choose|t: int| 0 <= t < full@.len() && full@[t] == k;
                            assert(before[t] == k);
                        }
                    }
                } else {
                    if full@ != before {
                        assert(full@[before.len() as int] == row);
                    }
                }
            }
        }
        i += 1;
    }
    proof {
        let ints = as_ints(full@);
        assert forall|k: int| ints.to_set().contains(k) <==> full_rows(cells, h, w).contains(
            k,
        ) by {
            if ints.contains(k) {
                let t = choose|t: int| 0 <= t < ints.len() && ints[t] == k;
                assert(full@.contains(full@[t]));
            }
            if row_is_full(cells, k, h, w) {
                let j = lemma_row_count_witness(cells, k, h);
                assert(cells[j] == blocks@[j]@);
                lemma_row_index_fits(blocks@[j].y, h);
                assert(row_seen(cells, blocks.len() as int, k, h));
                let k64 = k as i64;
                assert(full@.contains(k64));
                let t = choose|t: int| 0 <= t < full@.len() && full@[t] == k64;
                assert(ints[t] == k);
            }
        }
        assert(ints.to_set() =~= full_rows(cells, h, w));
    }
    full
}

/// How many of the listed rows lie below `row`.
fn count_below(full: &Vec<i64>, row: i64) -> (n: usize)
    requires
        full@.no_duplicates(),
    ensures
        n == rows_below(as_ints(full@).to_set(), row as int),
{
    let ghost ints = as_ints(full@);
    let ghost p = below(row as int);
    let mut n: usize = 0;
    let mut j: usize = 0;
    assert(ints.take(0).filter(p).len() == 0) by {
        reveal(Seq::filter);
    }
    while j < full.len()
        invariant
            j <= full.len(),
            n <= j,
            ints == as_ints(full@),
            p == below(row as int),
            n == ints.take(j as int).filter(p).len(),
        decreases full.len() - j,
    {
        proof {
            assert(ints.take(j + 1) =~= ints.take(j as int).push(full@[j as int] as int));
            ints.take(j as int).lemma_filter_push(full@[j as int] as int, p);
        }
        if full[j] < row {
            n += 1;
        }
        j += 1;
    }
    proof {
        assert(ints.take(full.len() as int) =~= ints);
        assert(ints.no_duplicates());
        lemma_distinct_filter_len(ints, p);
    }
    n
}

/// Whether every block is one a settled grid with this row height can hold,
/// which is what `clear_full_rows` asks of its input.
pub fn fits_grid(blocks: &Vec<Block>, row_height: i64) -> (ok: bool)
    requires
        row_height >= 1,
    ensures
        ok == grid_ok(cells_of(blocks@), row_height as int),
{
    let mut i: usize = 0;
    while i < blocks.len()
        invariant
            i <= blocks.len(),
            row_height >= 1,
            forall|t: int|
                0 <= t < i ==> in_grid(#[trigger] cells_of(blocks@)[t], row_height as int),
        decreases blocks.len() - i,
    {
        let b = blocks[i];
        assert(cells_of(blocks@)[i as int] == b@);
        if b.x < -SETTLED_LIMIT || b.x > SETTLED_LIMIT || b.y > SETTLED_LIMIT || row_of(
            b.y,
            row_height,
        ) < -SETTLED_LIMIT {
            return false;
        }
        i += 1;
    }
    true
}

/// Removes every full row of the settled grid in one pass and lowers each
/// remaining block by one row height for every cleared row beneath it. The
/// surviving blocks keep their order. A grid without a full row is left
/// exactly as it is.
pub fn clear_full_rows(blocks: &mut Vec<Block>, row_height: i64, width: usize)
    requires
        1 <= row_height <= STEP_LIMIT,
        width >= 1,
        grid_ok(cells_of(old(blocks)@), row_height as int),
    ensures
        cells_of(final(blocks)@) == clear_rows(
            cells_of(old(blocks)@),
            row_height as int,
            width as nat,
        ),
        grid_ok(cells_of(final(blocks)@), row_height as int),
        full_rows(cells_of(old(blocks)@), row_height as int, width as nat).is_empty()
            ==> final(blocks)@ == old(blocks)@,
{
    let ghost cells = cells_of(blocks@);
    let ghost h = row_height as int;
    let ghost full_set = full_rows(cells, h, width as nat);
    proof {
        lemma_clear_rows_in_grid(cells, h, width as nat);
    }
    let counts = tally_rows(blocks, row_height);
    let full = collect_full_rows(blocks, &counts, row_height, width);
    if full.len() == 0 {
        proof {
            assert(full_set =~= Set::<int>::empty());
            lemma_compact_nothing(cells, h);
        }
        return ;
    }
    proof {
        assert(as_ints(full@)[0] == full@[0] as int);
        assert(full_set.contains(full@[0] as int));
        assert forall|k: int| full_set.contains(k) implies k >= -SETTLED_LIMIT by {
            let j = lemma_row_count_witness(cells, k, h);
            assert(in_grid(cells[j], h));
        }
        reveal(Seq::filter);
        assert(compact(cells.take(0), full_set, h) =~= Seq::<Cell>::empty());
    }
    let mut kept: Vec<Block> = Vec::new();
    let mut i: usize = 0;
    while i < blocks.len()
        invariant
            i <= blocks.len(),
            1 <= row_height <= STEP_LIMIT,
            h == row_height as int,
            blocks@ == old(blocks)@,
            cells == cells_of(blocks@),
            grid_ok(cells, h),
            full@.no_duplicates(),
            as_ints(full@).to_set() == full_set,
            forall|k: int| full_set.contains(k) ==> k >= -SETTLED_LIMIT,
            cells_of(kept@) == compact(cells.take(i as int), full_set, h),
        decreases blocks.len() - i,
    {
        let b = blocks[i];
        let row = row_of(b.y, row_height);
        proof {
            lemma_cells_take_next(blocks@, i as int);
            lemma_compact_push(cells.take(i as int), b@, full_set, h);
            assert(cells[i as int] == b@);
            assert(in_grid(cells[i as int], h));
            lemma_as_ints_contains(full@, row);
        }
        if !has_row(&full, row) {
            let shift = count_below(&full, row);
            proof {
                lemma_rows_below_bound(full_set, -SETTLED_LIMIT as int, row as int);
                lemma_row_index_bounds(b.y as int, h);
                assert(shift * h <= 2 * SETTLED_LIMIT * STEP_LIMIT && b.y >= -SETTLED_LIMIT
                    * STEP_LIMIT - STEP_LIMIT) by (nonlinear_arith)
                    requires
                        1 <= h <= STEP_LIMIT,
                        b.y <= SETTLED_LIMIT,
                        -SETTLED_LIMIT <= row,
                        0 <= shift <= row + SETTLED_LIMIT,
                        2 * h * row <= 2 * b.y + h < 2 * h * (row + 1),
                ;
            }
            let drop: i64 = (shift as i64) * row_height;
            let lower = Block { x: b.x, y: b.y - drop };
            let ghost prior = kept@;
            kept.push(lower);
            assert(cells_of(kept@) =~= cells_of(prior).push(lower@));
        }
        i += 1;
    }
    assert(cells.take(blocks.len() as int) =~= cells);
    *blocks = kept;
}

} // verus!
