//! What one clearing pass does to the settled grid.

use vstd::prelude::*;
use vstd::set_lib::{lemma_int_range, lemma_len_subset, lemma_set_disjoint_lens, set_int_range};
use crate::cell::{Cell, SETTLED_LIMIT};
use crate::rows::{
    below, clear_rows, compact, full_rows, grid_ok, in_grid, in_row, lemma_row_index_drop, lowered,
    no_full_row, row_count, row_index, row_is_full, rows_below, survives,
};

verus! {

/// Appending a cell raises the count of its own row by one and no other.
pub proof fn lemma_row_count_push(cells: Seq<Cell>, c: Cell, row: int, row_height: int)
    ensures
        row_count(cells.push(c), row, row_height) == row_count(cells, row, row_height) + (
        if row_index(c.y, row_height) == row {
            1nat
        } else {
            0nat
        }),
        row_count(cells, row, row_height) <= cells.len(),
{
    cells.lemma_filter_push(c, in_row(row, row_height));
    cells.lemma_filter_len(in_row(row, row_height));
}

/// A row with a positive count holds some cell of the sequence.
pub proof fn lemma_row_count_witness(cells: Seq<Cell>, row: int, row_height: int) -> (i: int)
    requires
        row_count(cells, row, row_height) >= 1,
    ensures
        0 <= i < cells.len(),
        row_index(cells[i].y, row_height) == row,
{
    let p = in_row(row, row_height);
    let kept = cells.filter(p);
    cells.lemma_filter_pred(p, 0);
    assert(kept.contains(kept[0]));
    cells.lemma_filter_contains_rev(p, kept[0]);
    choose|i: int| 0 <= i < cells.len() && cells[i] == kept[0]
}

/// The row a cell lies in.
pub open spec fn row_of_cell(row_height: int) -> spec_fn(Cell) -> int {
    |c: Cell| row_index(c.y, row_height)
}

/// Only rows that hold a cell can be full, so there are finitely many.
pub proof fn lemma_full_rows_finite(cells: Seq<Cell>, row_height: int, width: nat)
    requires
        width >= 1,
    ensures
        full_rows(cells, row_height, width).finite(),
{
    let occupied = cells.map_values(row_of_cell(row_height)).to_set();
    vstd::seq_lib::seq_to_set_is_finite(cells.map_values(row_of_cell(row_height)));
    assert forall|k: int| full_rows(cells, row_height, width).contains(k) implies occupied.contains(
        k,
    ) by {
        let j = lemma_row_count_witness(cells, k, row_height);
        assert(cells.map_values(row_of_cell(row_height))[j] == k);
    }
    lemma_len_subset(full_rows(cells, row_height, width), occupied);
}

/// A set of rows none of which is under `lowest` has at most `row - lowest`
/// members below `row`.
pub proof fn lemma_rows_below_bound(full: Set<int>, lowest: int, row: int)
    requires
        forall|k: int| full.contains(k) ==> k >= lowest,
        lowest <= row,
    ensures
        rows_below(full, row) <= row - lowest,
{
    lemma_int_range(lowest, row);
    assert(full.filter(below(row)).subset_of(set_int_range(lowest, row)));
    lemma_len_subset(full.filter(below(row)), set_int_range(lowest, row));
}

/// Between a row that is not in `full` and a higher row, fewer rows of
/// `full` lie than the two are apart.
pub proof fn lemma_rows_below_gap(full: Set<int>, low: int, high: int)
    requires
        full.finite(),
        low < high,
        !full.contains(low),
    ensures
        rows_below(full, low) <= rows_below(full, high),
        rows_below(full, high) - rows_below(full, low) <= high - low - 1,
{
    let under_low = full.filter(below(low));
    let under_high = full.filter(below(high));
    let between = under_high.difference(under_low);
    full.lemma_len_filter(below(low));
    full.lemma_len_filter(below(high));
    lemma_int_range(low + 1, high);
    assert(between.subset_of(set_int_range(low + 1, high)));
    lemma_len_subset(between, set_int_range(low + 1, high));
    assert(under_low + between =~= under_high);
    assert(under_low.disjoint(between));
    lemma_set_disjoint_lens(under_low, between);
}

/// A lowered cell keeps its column and lies as many rows lower as there are
/// rows of `full` beneath it.
pub proof fn lemma_lowered_row(full: Set<int>, row_height: int, c: Cell)
    requires
        row_height >= 1,
    ensures
        lowered(full, row_height)(c).x == c.x,
        row_index(lowered(full, row_height)(c).y, row_height) == row_index(c.y, row_height)
            - rows_below(full, row_index(c.y, row_height)),
{
    lemma_row_index_drop(c.y, row_height, rows_below(full, row_index(c.y, row_height)) as int);
}

/// Lowering keeps surviving rows in order: of two cells in different
/// surviving rows, the one that was lower is still lower.
pub proof fn lemma_lowered_rows_ordered(full: Set<int>, row_height: int, a: Cell, b: Cell)
    requires
        full.finite(),
        row_height >= 1,
        !full.contains(row_index(a.y, row_height)),
        row_index(a.y, row_height) < row_index(b.y, row_height),
    ensures
        row_index(lowered(full, row_height)(a).y, row_height) < row_index(
            lowered(full, row_height)(b).y,
            row_height,
        ),
{
    lemma_lowered_row(full, row_height, a);
    lemma_lowered_row(full, row_height, b);
    lemma_rows_below_gap(full, row_index(a.y, row_height), row_index(b.y, row_height));
}

/// Appending a cell to the input appends its lowered copy to the compacted
/// output when the cell survives, and changes nothing otherwise.
pub proof fn lemma_compact_push(cells: Seq<Cell>, c: Cell, full: Set<int>, row_height: int)
    ensures
        compact(cells.push(c), full, row_height) == if full.contains(row_index(c.y, row_height)) {
            compact(cells, full, row_height)
        } else {
            compact(cells, full, row_height).push(
                Cell { x: c.x, y: c.y - rows_below(full, row_index(c.y, row_height)) * row_height },
            )
        },
{
    let keep = survives(full, row_height);
    let fall = lowered(full, row_height);
    cells.lemma_filter_push(c, keep);
    if keep(c) {
        assert(cells.filter(keep).push(c).map_values(fall) =~= cells.filter(keep).map_values(
            fall,
        ).push(fall(c)));
    }
}

/// With no row to clear, compaction returns its input.
pub proof fn lemma_compact_nothing(cells: Seq<Cell>, row_height: int)
    ensures
        compact(cells, Set::<int>::empty(), row_height) == cells,
    decreases cells.len(),
{
    let none = Set::<int>::empty();
    if cells.len() == 0 {
        reveal(Seq::filter);
        assert(compact(cells, none, row_height) =~= cells);
    } else {
        let rest = cells.drop_last();
        let last = cells.last();
        let row = row_index(last.y, row_height);
        assert(cells =~= rest.push(last));
        lemma_compact_nothing(rest, row_height);
        lemma_compact_push(rest, last, none, row_height);
        assert(none.filter(below(row)) =~= none);
        let beneath = rows_below(none, row);
        assert(beneath * row_height == 0) by (nonlinear_arith)
            requires
                beneath == 0,
        ;
        assert(Cell { x: last.x, y: last.y - rows_below(none, row) * row_height } == last);
        assert(compact(cells, none, row_height) == compact(rest, none, row_height).push(last));
    }
}

/// With no full row, a clearing pass leaves the grid as it is.
pub proof fn law_clear_without_full_row(cells: Seq<Cell>, row_height: int, width: nat)
    requires
        no_full_row(cells, row_height, width),
    ensures
        clear_rows(cells, row_height, width) == cells,
{
    assert(full_rows(cells, row_height, width) =~= Set::<int>::empty());
    lemma_compact_nothing(cells, row_height);
}

/// Every cell that survives compaction is a cell of the input.
pub proof fn lemma_survivor_is_member(cells: Seq<Cell>, full: Set<int>, row_height: int, t: int)
    requires
        0 <= t < compact(cells, full, row_height).len(),
    ensures
        t < cells.filter(survives(full, row_height)).len(),
        cells.contains(cells.filter(survives(full, row_height))[t]),
        !full.contains(row_index(cells.filter(survives(full, row_height))[t].y, row_height)),
        compact(cells, full, row_height)[t] == lowered(full, row_height)(
            cells.filter(survives(full, row_height))[t],
        ),
{
    let keep = survives(full, row_height);
    let kept = cells.filter(keep);
    cells.lemma_filter_pred(keep, t);
    assert(kept.contains(kept[t]));
    cells.lemma_filter_contains_rev(keep, kept[t]);
}

/// A clearing pass keeps the grid within its limits.
pub proof fn lemma_clear_rows_in_grid(cells: Seq<Cell>, row_height: int, width: nat)
    requires
        row_height >= 1,
        width >= 1,
        grid_ok(cells, row_height),
    ensures
        grid_ok(clear_rows(cells, row_height, width), row_height),
{
    let full = full_rows(cells, row_height, width);
    let out = clear_rows(cells, row_height, width);
    assert forall|k: int| full.contains(k) implies k >= -SETTLED_LIMIT by {
        let j = lemma_row_count_witness(cells, k, row_height);
        assert(in_grid(cells[j], row_height));
    }
    assert forall|t: int| 0 <= t < out.len() implies in_grid(#[trigger] out[t], row_height) by {
        lemma_survivor_is_member(cells, full, row_height, t);
        let c = cells.filter(survives(full, row_height))[t];
        let j = choose|j: int| 0 <= j < cells.len() && cells[j] == c;
        assert(in_grid(cells[j], row_height));
        lemma_lowered_row(full, row_height, c);
        lemma_rows_below_bound(full, -SETTLED_LIMIT as int, row_index(c.y, row_height));
        assert(rows_below(full, row_index(c.y, row_height)) * row_height >= 0)
            by (nonlinear_arith)
            requires
                row_height >= 1,
        ;
    }
}

/// A non-empty filter result has a source: some element of the sequence
/// satisfies the predicate.
pub proof fn lemma_filter_witness<A>(s: Seq<A>, p: spec_fn(A) -> bool) -> (i: int)
    requires
        s.filter(p).len() >= 1,
    ensures
        0 <= i < s.len(),
        p(s[i]),
{
    let kept = s.filter(p);
    s.lemma_filter_pred(p, 0);
    assert(kept.contains(kept[0]));
    s.lemma_filter_contains_rev(p, kept[0]);
    choose|i: int| 0 <= i < s.len() && s[i] == kept[0]
}

/// A predicate that implies another on every element keeps no more elements.
pub proof fn lemma_filter_len_implies<A>(s: Seq<A>, p: spec_fn(A) -> bool, q: spec_fn(A) -> bool)
    requires
        forall|i: int| 0 <= i < s.len() && p(#[trigger] s[i]) ==> q(s[i]),
    ensures
        s.filter(p).len() <= s.filter(q).len(),
    decreases s.len(),
{
    if s.len() == 0 {
        reveal(Seq::filter);
    } else {
        let rest = s.drop_last();
        assert(s =~= rest.push(s.last()));
        assert forall|i: int| 0 <= i < rest.len() && p(#[trigger] rest[i]) implies q(rest[i]) by {
            assert(rest[i] == s[i]);
        }
        lemma_filter_len_implies(rest, p, q);
        rest.lemma_filter_push(s.last(), p);
        rest.lemma_filter_push(s.last(), q);
        assert(s[s.len() - 1] == s.last());
    }
}

/// Two predicates that never hold of the same element keep, together, no
/// more elements than there are.
pub proof fn lemma_filter_len_disjoint<A>(s: Seq<A>, p: spec_fn(A) -> bool, q: spec_fn(A) -> bool)
    requires
        forall|i: int| 0 <= i < s.len() ==> !(p(#[trigger] s[i]) && q(s[i])),
    ensures
        s.filter(p).len() + s.filter(q).len() <= s.len(),
    decreases s.len(),
{
    if s.len() == 0 {
        reveal(Seq::filter);
    } else {
        let rest = s.drop_last();
        assert(s =~= rest.push(s.last()));
        assert forall|i: int| 0 <= i < rest.len() implies !(p(#[trigger] rest[i]) && q(
            rest[i],
        )) by {
            assert(rest[i] == s[i]);
        }
        lemma_filter_len_disjoint(rest, p, q);
        rest.lemma_filter_push(s.last(), p);
        rest.lemma_filter_push(s.last(), q);
        assert(s[s.len() - 1] == s.last());
    }
}

/// Filtering a sequence without duplicates leaves no duplicates.
pub proof fn lemma_filter_distinct<A>(s: Seq<A>, p: spec_fn(A) -> bool)
    requires
        s.no_duplicates(),
    ensures
        s.filter(p).no_duplicates(),
    decreases s.len(),
{
    if s.len() == 0 {
        reveal(Seq::filter);
    } else {
        let rest = s.drop_last();
        let last = s.last();
        assert(s =~= rest.push(last));
        assert(rest.no_duplicates()) by {
            assert forall|i: int, j: int|
                0 <= i < rest.len() && 0 <= j < rest.len() && i != j implies rest[i] != rest[j] by {
                assert(rest[i] == s[i] && rest[j] == s[j]);
            }
        }
        lemma_filter_distinct(rest, p);
        rest.lemma_filter_push(last, p);
        if p(last) {
            let kept = rest.filter(p);
            if kept.contains(last) {
                rest.lemma_filter_contains_rev(p, last);
                let j = choose|j: int| 0 <= j < rest.len() && rest[j] == last;
                assert(s[j] == s[s.len() - 1]);
            }
            assert forall|i: int, j: int|
                0 <= i < kept.push(last).len() && 0 <= j < kept.push(last).len() && i
                    != j implies kept.push(last)[i] != kept.push(last)[j] by {
                if i < kept.len() {
                    assert(kept.contains(kept[i]));
                }
                if j < kept.len() {
                    assert(kept.contains(kept[j]));
                }
            }
        }
    }
}

/// The predicate "this cell survives and, once lowered, lies in row `row`".
pub open spec fn lands_in(full: Set<int>, row_height: int, row: int) -> spec_fn(Cell) -> bool {
    |c: Cell|
        !full.contains(row_index(c.y, row_height)) && row_index(
            lowered(full, row_height)(c).y,
            row_height,
        ) == row
}

/// A row of the compacted grid holds exactly the survivors that land in it.
pub proof fn lemma_compact_row_count(cells: Seq<Cell>, full: Set<int>, row_height: int, row: int)
    ensures
        row_count(compact(cells, full, row_height), row, row_height) == cells.filter(
            lands_in(full, row_height, row),
        ).len(),
    decreases cells.len(),
{
    let lands = lands_in(full, row_height, row);
    if cells.len() == 0 {
        reveal(Seq::filter);
        assert(compact(cells, full, row_height) =~= Seq::<Cell>::empty());
    } else {
        let rest = cells.drop_last();
        let last = cells.last();
        assert(cells =~= rest.push(last));
        lemma_compact_row_count(rest, full, row_height, row);
        lemma_compact_push(rest, last, full, row_height);
        rest.lemma_filter_push(last, lands);
        if !full.contains(row_index(last.y, row_height)) {
            compact(rest, full, row_height).lemma_filter_push(
                lowered(full, row_height)(last),
                in_row(row, row_height),
            );
        }
    }
}

/// After a clearing pass the given row is not full.
proof fn lemma_cleared_row_not_full(cells: Seq<Cell>, row_height: int, width: nat, row: int)
    requires
        row_height >= 1,
        width >= 1,
    ensures
        !row_is_full(clear_rows(cells, row_height, width), row, row_height, width),
{
    let full = full_rows(cells, row_height, width);
    let lands = lands_in(full, row_height, row);
    lemma_full_rows_finite(cells, row_height, width);
    lemma_compact_row_count(cells, full, row_height, row);
    if cells.filter(lands).len() >= 1 {
        let j = lemma_filter_witness(cells, lands);
        let source = row_index(cells[j].y, row_height);
        assert forall|i: int| 0 <= i < cells.len() && lands(#[trigger] cells[i]) implies in_row(
            source,
            row_height,
        )(cells[i]) by {
            let other = row_index(cells[i].y, row_height);
            if other < source {
                lemma_lowered_rows_ordered(full, row_height, cells[i], cells[j]);
            }
            if source < other {
                lemma_lowered_rows_ordered(full, row_height, cells[j], cells[i]);
            }
        }
        lemma_filter_len_implies(cells, lands, in_row(source, row_height));
        assert(!row_is_full(cells, source, row_height, width));
    }
}

/// After a clearing pass the grid has no full row.
pub proof fn law_clear_leaves_no_full_row(cells: Seq<Cell>, row_height: int, width: nat)
    requires
        row_height >= 1,
        width >= 1,
    ensures
        no_full_row(clear_rows(cells, row_height, width), row_height, width),
{
    assert forall|row: int|
        !row_is_full(clear_rows(cells, row_height, width), row, row_height, width) by {
        lemma_cleared_row_not_full(cells, row_height, width, row);
    }
}

/// An empty grid has no full row.
pub proof fn lemma_empty_grid_no_full_row(row_height: int, width: nat)
    requires
        width >= 1,
    ensures
        no_full_row(Seq::<Cell>::empty(), row_height, width),
{
    reveal(Seq::filter);
}

/// Clearing twice is clearing once.
pub proof fn law_clear_rows_idempotent(cells: Seq<Cell>, row_height: int, width: nat)
    requires
        row_height >= 1,
        width >= 1,
    ensures
        clear_rows(clear_rows(cells, row_height, width), row_height, width) == clear_rows(
            cells,
            row_height,
            width,
        ),
{
    law_clear_leaves_no_full_row(cells, row_height, width);
    law_clear_without_full_row(clear_rows(cells, row_height, width), row_height, width);
}

/// Two different surviving cells are still different once lowered.
pub proof fn lemma_lowered_injective(full: Set<int>, row_height: int, a: Cell, b: Cell)
    requires
        full.finite(),
        row_height >= 1,
        !full.contains(row_index(a.y, row_height)),
        !full.contains(row_index(b.y, row_height)),
        a != b,
    ensures
        lowered(full, row_height)(a) != lowered(full, row_height)(b),
{
    let ra = row_index(a.y, row_height);
    let rb = row_index(b.y, row_height);
    if ra < rb {
        lemma_lowered_rows_ordered(full, row_height, a, b);
    } else if rb < ra {
        lemma_lowered_rows_ordered(full, row_height, b, a);
    }
}

/// A clearing pass puts no two cells on the same position: a grid without
/// duplicates has none afterwards.
pub proof fn law_clear_keeps_cells_distinct(cells: Seq<Cell>, row_height: int, width: nat)
    requires
        row_height >= 1,
        width >= 1,
        cells.no_duplicates(),
    ensures
        clear_rows(cells, row_height, width).no_duplicates(),
{
    let full = full_rows(cells, row_height, width);
    let kept = cells.filter(survives(full, row_height));
    let out = clear_rows(cells, row_height, width);
    lemma_full_rows_finite(cells, row_height, width);
    lemma_filter_distinct(cells, survives(full, row_height));
    assert forall|i: int, j: int| 0 <= i < out.len() && 0 <= j < out.len() && i != j implies out[i]
        != out[j] by {
        lemma_survivor_is_member(cells, full, row_height, i);
        lemma_survivor_is_member(cells, full, row_height, j);
        lemma_lowered_injective(full, row_height, kept[i], kept[j]);
    }
}

/// Every cell of a full row is removed: what is left and the row's cells
/// together are no more than the grid held.
pub proof fn law_full_row_removed(cells: Seq<Cell>, row_height: int, width: nat, row: int)
    requires
        row_is_full(cells, row, row_height, width),
    ensures
        clear_rows(cells, row_height, width).len() + row_count(cells, row, row_height)
            <= cells.len(),
{
    let full = full_rows(cells, row_height, width);
    lemma_filter_len_disjoint(cells, survives(full, row_height), in_row(row, row_height));
}

/// A grid that is one full row is empty after the clearing pass.
pub proof fn law_full_row_alone(cells: Seq<Cell>, row_height: int, width: nat, row: int)
    requires
        row_is_full(cells, row, row_height, width),
        forall|i: int|
            0 <= i < cells.len() ==> row_index((#[trigger] cells[i]).y, row_height) == row,
    ensures
        clear_rows(cells, row_height, width) == Seq::<Cell>::empty(),
{
    let full = full_rows(cells, row_height, width);
    let keep = survives(full, row_height);
    if cells.filter(keep).len() >= 1 {
        let j = lemma_filter_witness(cells, keep);
        assert(row_index(cells[j].y, row_height) == row);
    }
    assert(clear_rows(cells, row_height, width) =~= Seq::<Cell>::empty());
}

/// The predicate "this cell is not in row `row`".
pub open spec fn outside_row(row: int, row_height: int) -> spec_fn(Cell) -> bool {
    |c: Cell| row_index(c.y, row_height) != row
}

/// Lowers the cells above row `row` by one row height and leaves the others.
pub open spec fn drop_above(row: int, row_height: int) -> spec_fn(Cell) -> Cell {
    |c: Cell|
        if row_index(c.y, row_height) > row {
            Cell { x: c.x, y: c.y - row_height }
        } else {
            c
        }
}

/// With exactly one full row, the clearing pass removes that row's cells,
/// lowers every cell above it by exactly one row height, and leaves the
/// cells below it where they are.
pub proof fn law_one_full_row(cells: Seq<Cell>, row_height: int, width: nat, row: int)
    requires
        full_rows(cells, row_height, width) == set![row],
    ensures
        clear_rows(cells, row_height, width) == cells.filter(
            outside_row(row, row_height),
        ).map_values(drop_above(row, row_height)),
{
    let full = set![row];
    assert forall|c: Cell| #[trigger]
        lowered(full, row_height)(c) == drop_above(row, row_height)(c) by {
        let r = row_index(c.y, row_height);
        if r > row {
            assert(full.filter(below(r)) =~= full);
            assert(1 * row_height == row_height);
        } else {
            assert(full.filter(below(r)) =~= Set::<int>::empty());
            assert(0 * row_height == 0);
        }
    }
    assert(lowered(full, row_height) =~= drop_above(row, row_height));
    assert(survives(full, row_height) =~= outside_row(row, row_height));
}

} // verus!
