//! Board configuration: the constants one board plays by.

use vstd::prelude::*;
use crate::cell::{Block, Cell, COORD_LIMIT, STEP_LIMIT};

verus! {

/// The constants of one board, in board units.
#[derive(Clone, Copy, Debug, PartialEq, Eq, Structural)]
pub struct Config {
    /// Number of cells that make a row full.
    pub width: usize,
    /// Distance a piece falls per tick.
    pub fall_step: i64,
    /// Distance of one horizontal move and of one soft drop.
    pub move_step: i64,
    /// Height of a row; also the edge length of a cell of a piece.
    pub row_height: i64,
    /// Reach within which a settled cell holds a falling one.
    pub tolerance: i64,
    /// Height at or under which a cell rests on the floor.
    pub floor: i64,
    /// Position at which every new piece appears.
    pub spawn: Block,
    /// Whether a player move evaluates the lock condition at once, as a
    /// tick does. When unset, only ticks lock pieces.
    pub lock_on_move: bool,
}

/// The constants of a board as mathematical integers.
pub struct Rules {
    pub width: nat,
    pub fall_step: int,
    pub move_step: int,
    pub row_height: int,
    pub tolerance: int,
    pub floor: int,
    pub spawn: Cell,
    pub lock_on_move: bool,
}

impl Rules {
    /// The constants a board accepts: a positive width, steps and row height
    /// from one up to `STEP_LIMIT`, a tolerance up to `STEP_LIMIT`, and a
    /// floor and spawn point far enough inside the coordinate range that a
    /// piece above the floor is always representable.
    pub open spec fn wf(self) -> bool {
        &&& self.width >= 1
        &&& 1 <= self.fall_step <= STEP_LIMIT
        &&& 1 <= self.move_step <= STEP_LIMIT
        &&& 1 <= self.row_height <= STEP_LIMIT
        &&& 0 <= self.tolerance <= STEP_LIMIT
        &&& 4 * STEP_LIMIT - COORD_LIMIT <= self.floor <= COORD_LIMIT
        &&& -COORD_LIMIT <= self.spawn.x <= COORD_LIMIT
        &&& -COORD_LIMIT <= self.spawn.y <= COORD_LIMIT
    }
}

impl View for Config {
    type V = Rules;

    open spec fn view(&self) -> Rules {
        Rules {
            width: self.width as nat,
            fall_step: self.fall_step as int,
            move_step: self.move_step as int,
            row_height: self.row_height as int,
            tolerance: self.tolerance as int,
            floor: self.floor as int,
            spawn: self.spawn@,
            lock_on_move: self.lock_on_move,
        }
    }
}

impl Config {
    /// The constants of the default board: ten cells to a row, rows five
    /// units high, gravity of one unit per tick, moves of five units, a
    /// tolerance of twenty, the floor at -90, pieces appearing at (0, 100),
    /// and pieces locked by ticks only.
    pub open spec fn default_rules() -> Rules {
        Rules {
            width: 10,
            fall_step: 1,
            move_step: 5,
            row_height: 5,
            tolerance: 20,
            floor: -90,
            spawn: Cell { x: 0, y: 100 },
            lock_on_move: false,
        }
    }

    /// Whether a board can be built from these constants.
    pub fn is_valid(&self) -> (ok: bool)
        ensures
            ok == self@.wf(),
    {
        self.width >= 1 && 1 <= self.fall_step && self.fall_step <= STEP_LIMIT && 1
            <= self.move_step && self.move_step <= STEP_LIMIT && 1 <= self.row_height
            && self.row_height <= STEP_LIMIT && 0 <= self.tolerance && self.tolerance <= STEP_LIMIT
            && 4 * STEP_LIMIT - COORD_LIMIT <= self.floor && self.floor <= COORD_LIMIT
            && -COORD_LIMIT <= self.spawn.x && self.spawn.x <= COORD_LIMIT && -COORD_LIMIT
            <= self.spawn.y && self.spawn.y <= COORD_LIMIT
    }
}

impl Default for Config {
    /// The default board, in hundredths of a screen unit.
    fn default() -> (config: Config)
        ensures
            config@ == Config::default_rules(),
            config@.wf(),
    {
        Config {
            width: 10,
            fall_step: 1,
            move_step: 5,
            row_height: 5,
            tolerance: 20,
            floor: -90,
            spawn: Block { x: 0, y: 100 },
            lock_on_move: false,
        }
    }
}

} // verus!
