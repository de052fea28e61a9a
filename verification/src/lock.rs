//! The lock condition: when a falling piece comes to rest.

use vstd::prelude::*;
use crate::cell::{cells_of, Block, Cell};
use crate::config::Rules;

verus! {

/// Whether a settled cell holds a falling one: closer than `tolerance`
/// horizontally, and higher than the falling cell by more than zero and less
/// than `tolerance`. A settled cell at the same height or lower holds nothing.
pub open spec fn holds(settled: Cell, falling: Cell, tolerance: int) -> bool {
    &&& -tolerance < settled.x - falling.x < tolerance
    &&& 0 < settled.y - falling.y < tolerance
}

/// Some cell is at or under the floor.
pub open spec fn reaches_floor(cells: Seq<Cell>, floor: int) -> bool {
    exists|i: int| 0 <= i < cells.len() && (#[trigger] cells[i]).y <= floor
}

/// The settled cell holds some cell of the piece.
pub open spec fn held_by(cells: Seq<Cell>, settled: Cell, tolerance: int) -> bool {
    exists|i: int| 0 <= i < cells.len() && holds(settled, #[trigger] cells[i], tolerance)
}

/// Some settled cell holds some cell of the piece.
pub open spec fn collides(cells: Seq<Cell>, settled: Seq<Cell>, tolerance: int) -> bool {
    exists|j: int| 0 <= j < settled.len() && held_by(cells, #[trigger] settled[j], tolerance)
}

/// The lock condition for a piece whose cells are `cells`: it has reached the
/// floor or is held by a settled cell.
pub open spec fn must_lock(cells: Seq<Cell>, settled: Seq<Cell>, rules: Rules) -> bool {
    reaches_floor(cells, rules.floor) || collides(cells, settled, rules.tolerance)
}

/// Whether any of the cells is at or under the floor.
pub fn hit_bottom(cells: &Vec<Block>, floor: i64) -> (hit: bool)
    ensures
        hit == reaches_floor(cells_of(cells@), floor as int),
{
    let mut i: usize = 0;
    while i < cells.len()
        invariant
            i <= cells.len(),
            forall|t: int| 0 <= t < i ==> (#[trigger] cells_of(cells@)[t]).y > floor,
        decreases cells.len() - i,
    {
        if cells[i].y <= floor {
            assert(cells_of(cells@)[i as int] == cells@[i as int]@);
            return true;
        }
        assert(cells_of(cells@)[i as int] == cells@[i as int]@);
        i += 1;
    }
    false
}

/// Whether the settled block holds any of the cells.
fn holds_any(cells: &Vec<Block>, settled: Block, tolerance: i64) -> (hit: bool)
    ensures
        hit == held_by(cells_of(cells@), settled@, tolerance as int),
{
    let mut i: usize = 0;
    while i < cells.len()
        invariant
            i <= cells.len(),
            forall|t: int|
                0 <= t < i ==> !holds(settled@, #[trigger] cells_of(cells@)[t], tolerance as int),
        decreases cells.len() - i,
    {
        let dx: i128 = settled.x as i128 - cells[i].x as i128;
        let dy: i128 = settled.y as i128 - cells[i].y as i128;
        assert(cells_of(cells@)[i as int] == cells@[i as int]@);
        if -(tolerance as i128) < dx && dx < tolerance as i128 && 0 < dy && dy < tolerance as i128 {
            return true;
        }
        i += 1;
    }
    false
}

/// Whether any settled block holds any of the cells.
pub fn check_collision(cells: &Vec<Block>, settled: &Vec<Block>, tolerance: i64) -> (hit: bool)
    ensures
        hit == collides(cells_of(cells@), cells_of(settled@), tolerance as int),
{
    let mut j: usize = 0;
    while j < settled.len()
        invariant
            j <= settled.len(),
            forall|t: int|
                0 <= t < j ==> !held_by(
                    cells_of(cells@),
                    #[trigger] cells_of(settled@)[t],
                    tolerance as int,
                ),
        decreases settled.len() - j,
    {
        assert(cells_of(settled@)[j as int] == settled@[j as int]@);
        if holds_any(cells, settled[j], tolerance) {
            return true;
        }
        j += 1;
    }
    false
}

} // verus!
