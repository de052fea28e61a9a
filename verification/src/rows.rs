//! Rows of the settled grid: which row a height belongs to, when a row is
//! full, and what a clearing pass makes of a grid.

use vstd::prelude::*;
use crate::cell::{Cell, SETTLED_LIMIT};

verus! {

/// The row a height `y` belongs to: `y / row_height` rounded to the nearest
/// integer, with exact halves rounded up. Row `k` therefore spans the heights
/// `k * row_height - row_height / 2 <= y < k * row_height + row_height / 2`.
pub open spec fn row_index(y: int, row_height: int) -> int {
    (2 * y + row_height) / (2 * row_height)
}

/// The predicate "this cell lies in row `row`".
pub open spec fn in_row(row: int, row_height: int) -> spec_fn(Cell) -> bool {
    |c: Cell| row_index(c.y, row_height) == row
}

/// How many of `cells` lie in row `row`.
pub open spec fn row_count(cells: Seq<Cell>, row: int, row_height: int) -> nat {
    cells.filter(in_row(row, row_height)).len()
}

/// A row is full once it holds at least `width` cells.
pub open spec fn row_is_full(cells: Seq<Cell>, row: int, row_height: int, width: nat) -> bool {
    row_count(cells, row, row_height) >= width
}

/// The indices of all full rows.
pub open spec fn full_rows(cells: Seq<Cell>, row_height: int, width: nat) -> Set<int> {
    Set::new(|row: int| row_is_full(cells, row, row_height, width))
}

/// The predicate "this row index is below `row`".
pub open spec fn below(row: int) -> spec_fn(int) -> bool {
    |k: int| k < row
}

/// How many of the rows in `full` lie strictly below `row`.
pub open spec fn rows_below(full: Set<int>, row: int) -> nat {
    full.filter(below(row)).len()
}

/// The predicate "this cell is in none of the rows in `full`".
pub open spec fn survives(full: Set<int>, row_height: int) -> spec_fn(Cell) -> bool {
    |c: Cell| !full.contains(row_index(c.y, row_height))
}

/// Moves a cell down by one row height for every row of `full` beneath it.
pub open spec fn lowered(full: Set<int>, row_height: int) -> spec_fn(Cell) -> Cell {
    |c: Cell|
        Cell { x: c.x, y: c.y - rows_below(full, row_index(c.y, row_height)) * row_height }
}

/// Removes from `cells` every cell in a row of `full` and lowers the others,
/// keeping their order.
pub open spec fn compact(cells: Seq<Cell>, full: Set<int>, row_height: int) -> Seq<Cell> {
    cells.filter(survives(full, row_height)).map_values(lowered(full, row_height))
}

/// The settled grid after one clearing pass: all full rows are removed at
/// once, and each remaining cell drops by one row height per cleared row
/// beneath it.
pub open spec fn clear_rows(cells: Seq<Cell>, row_height: int, width: nat) -> Seq<Cell> {
    compact(cells, full_rows(cells, row_height, width), row_height)
}

/// No row of the grid is full.
pub open spec fn no_full_row(cells: Seq<Cell>, row_height: int, width: nat) -> bool {
    forall|row: int| !row_is_full(cells, row, row_height, width)
}

/// A position that a settled grid with this row height can hold: within
/// `SETTLED_LIMIT` of the origin horizontally, not above it vertically, and
/// in a row not below `-SETTLED_LIMIT`.
pub open spec fn in_grid(c: Cell, row_height: int) -> bool {
    &&& -SETTLED_LIMIT <= c.x <= SETTLED_LIMIT
    &&& c.y <= SETTLED_LIMIT
    &&& row_index(c.y, row_height) >= -SETTLED_LIMIT
}

/// Every cell of the sequence is `in_grid`.
pub open spec fn grid_ok(cells: Seq<Cell>, row_height: int) -> bool {
    forall|i: int| 0 <= i < cells.len() ==> in_grid(#[trigger] cells[i], row_height)
}

/// Row `row_index(y, h)` is the one whose span contains `y`.
pub proof fn lemma_row_index_bounds(y: int, row_height: int)
    by (nonlinear_arith)
    requires
        row_height >= 1,
    ensures
        2 * row_height * row_index(y, row_height) <= 2 * y + row_height,
        2 * y + row_height < 2 * row_height * (row_index(y, row_height) + 1),
{
    let n = 2 * y + row_height;
    let d = 2 * row_height;
    assert(n == d * (n / d) + n % d && 0 <= n % d < d);
}

/// A height inside the span of row `row` has row index `row`.
pub proof fn lemma_row_index_unique(y: int, row_height: int, row: int)
    by (nonlinear_arith)
    requires
        row_height >= 1,
        2 * row_height * row <= 2 * y + row_height < 2 * row_height * (row + 1),
    ensures
        row_index(y, row_height) == row,
{
    let n = 2 * y + row_height;
    let d = 2 * row_height;
    let q = n / d;
    assert(n == d * q + n % d && 0 <= n % d < d);
    assert(q < row + 1) by {
        if q >= row + 1 {
            assert(d * q >= d * (row + 1));
        }
    }
    assert(q > row - 1) by {
        if q <= row - 1 {
            assert(d * (q + 1) <= d * row);
        }
    }
}

/// Dropping by whole row heights lowers the row index by as many rows.
pub proof fn lemma_row_index_drop(y: int, row_height: int, rows: int)
    requires
        row_height >= 1,
    ensures
        row_index(y - rows * row_height, row_height) == row_index(y, row_height) - rows,
{
    let r = row_index(y, row_height);
    lemma_row_index_bounds(y, row_height);
    assert(2 * row_height * (r - rows) == 2 * row_height * r - 2 * (rows * row_height)
        && 2 * row_height * (r - rows + 1) == 2 * row_height * (r + 1) - 2 * (rows * row_height))
        by (nonlinear_arith);
    lemma_row_index_unique(y - rows * row_height, row_height, r - rows);
}

/// A height is never in a row below itself, nor, if positive, below row zero.
pub proof fn lemma_row_index_low(y: int, row_height: int)
    requires
        row_height >= 1,
    ensures
        y <= 0 ==> row_index(y, row_height) >= y,
        y >= 0 ==> row_index(y, row_height) >= 0,
{
    let r = row_index(y, row_height);
    lemma_row_index_bounds(y, row_height);
    assert((y <= 0 ==> r >= y) && (y >= 0 ==> r >= 0)) by (nonlinear_arith)
        requires
            row_height >= 1,
            2 * y + row_height < 2 * row_height * (r + 1),
    ;
}

/// The row index of a machine-sized height is machine-sized.
pub proof fn lemma_row_index_fits(y: i64, row_height: int)
    requires
        row_height >= 1,
    ensures
        i64::MIN <= row_index(y as int, row_height) <= i64::MAX,
{
    let r = row_index(y as int, row_height);
    lemma_row_index_bounds(y as int, row_height);
    assert(i64::MIN <= r <= i64::MAX) by (nonlinear_arith)
        requires
            row_height >= 1,
            2 * row_height * r <= 2 * y + row_height < 2 * row_height * (r + 1),
            i64::MIN <= y <= i64::MAX,
    ;
}

/// The row of a height, computed without overflow for every `i64` height.
pub fn row_of(y: i64, row_height: i64) -> (row: i64)
    requires
        row_height >= 1,
    ensures
        row == row_index(y as int, row_height as int),
{
    let n: i128 = 2 * (y as i128) + (row_height as i128);
    let d: i128 = 2 * (row_height as i128);
    let q: i128 = if n >= 0 {
        n / d
    } else {
        -((-n + d - 1) / d)
    };
    proof {
        let (yi, hi, ni, di, qi): (int, int, int, int, int) = (
            y as int,
            row_height as int,
            n as int,
            d as int,
            q as int,
        );
        let r = row_index(yi, hi);
        lemma_row_index_bounds(yi, hi);
        assert(qi == r) by (nonlinear_arith)
            requires
                di > 0,
                di * r <= ni < di * (r + 1),
                ni >= 0 ==> qi == ni / di,
                ni < 0 ==> qi == -((-ni + di - 1) / di),
        {
            if ni >= 0 {
                assert(ni == di * qi + (ni % di) && 0 <= ni % di < di);
            } else {
                let m = -ni + di - 1;
                let c = m / di;
                assert(m == di * c + (m % di) && 0 <= m % di < di);
            }
        }
        lemma_row_index_fits(y, hi);
    }
    q as i64
}

} // verus!
