//! Board positions: the executable `Block` and its mathematical view `Cell`.

use vstd::prelude::*;

verus! {

/// Largest gravity step, movement step, row height and tolerance a board may be configured with.
pub const STEP_LIMIT: i64 = 1_048_576;

/// Largest magnitude of either coordinate of a falling piece's position.
pub const COORD_LIMIT: i64 = 1_099_511_627_776;

/// Largest offset of a cell of a piece from the piece's position, on either axis.
pub const SHAPE_LIMIT: i64 = 3_145_728;

/// Largest magnitude of a settled cell's horizontal coordinate and of its row index.
pub const SETTLED_LIMIT: i64 = 2_199_023_255_552;

/// A position on the board in unbounded integer coordinates.
pub struct Cell {
    pub x: int,
    pub y: int,
}

impl Cell {
    /// This cell moved by `(dx, dy)`.
    pub open spec fn shifted(self, dx: int, dy: int) -> Cell {
        Cell { x: self.x + dx, y: self.y + dy }
    }

    /// Component-wise sum of two positions.
    pub open spec fn plus(self, other: Cell) -> Cell {
        Cell { x: self.x + other.x, y: self.y + other.y }
    }
}

/// A unit cell of the board, in board units.
#[derive(Clone, Copy, Debug, PartialEq, Eq, Structural)]
pub struct Block {
    pub x: i64,
    pub y: i64,
}

impl View for Block {
    type V = Cell;

    open spec fn view(&self) -> Cell {
        Cell { x: self.x as int, y: self.y as int }
    }
}

/// The positions held by a sequence of blocks, in the same order.
pub open spec fn cells_of(blocks: Seq<Block>) -> Seq<Cell> {
    blocks.map_values(|b: Block| b@)
}

} // verus!
