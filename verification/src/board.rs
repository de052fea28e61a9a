//! The board as a state machine: the settled grid, the falling piece, and
//! the transitions between boards.

use vstd::prelude::*;
use crate::cell::{Cell, STEP_LIMIT};
use crate::compaction::{
    lemma_clear_rows_in_grid, law_clear_leaves_no_full_row, lemma_empty_grid_no_full_row,
};
use crate::config::Rules;
use crate::lock::must_lock;
use crate::piece::{lemma_shape_of, next_kind, shape_of, spawn_piece, PieceKind, PieceModel};
use crate::rows::{clear_rows, grid_ok, in_grid, lemma_row_index_low, no_full_row};

verus! {

/// The state of a game as a mathematical value.
pub struct Board {
    pub rules: Rules,
    /// The falling piece.
    pub piece: PieceModel,
    /// The settled cells, oldest first.
    pub settled: Seq<Cell>,
    /// Set once a fresh piece is locked in place where it appears.
    pub game_over: bool,
}

impl Board {
    /// A fresh piece of `kind` over the settled cells. The game is over if
    /// the piece meets the lock condition where it appears.
    pub open spec fn respawn(rules: Rules, kind: PieceKind, settled: Seq<Cell>) -> Board {
        let piece = spawn_piece(kind, rules);
        Board { rules, piece, settled, game_over: must_lock(piece.world_cells(), settled, rules) }
    }

    /// The board a game starts from: an empty grid and a piece of kind I.
    pub open spec fn start(rules: Rules) -> Board {
        Board::respawn(rules, PieceKind::I, Seq::empty())
    }

    /// The falling piece after one step of gravity.
    pub open spec fn fallen(self) -> PieceModel {
        self.piece.translated(0, -self.rules.fall_step)
    }

    /// Whether a piece standing as `piece` does meets the lock condition
    /// against the settled cells of this board.
    pub open spec fn rests(self, piece: PieceModel) -> bool {
        must_lock(piece.world_cells(), self.settled, self.rules)
    }

    /// Whether the next tick locks the piece: after one step of gravity it
    /// meets the lock condition.
    pub open spec fn locks(self) -> bool {
        self.rests(self.fallen())
    }

    /// The lock event for a piece standing as `piece` does: all its cells
    /// join the settled cells, full rows are cleared, and a piece of the next
    /// kind appears at the spawn point.
    pub open spec fn land(self, piece: PieceModel) -> Board {
        Board::respawn(
            self.rules,
            next_kind(piece.kind),
            clear_rows(
                self.settled + piece.world_cells(),
                self.rules.row_height,
                self.rules.width,
            ),
        )
    }

    /// The board after one tick. A finished game stays as it is. Otherwise
    /// the piece falls one step; if it then meets the lock condition it is
    /// locked where it has fallen to, and else it stays there.
    pub open spec fn tick(self) -> Board {
        if self.game_over {
            self
        } else if self.locks() {
            self.land(self.fallen())
        } else {
            Board { piece: self.fallen(), ..self }
        }
    }

    /// The board after the player moves the piece by `(dx, dy)`. A finished
    /// game, and a move that would leave the coordinate range, change
    /// nothing. Otherwise the piece moves, through settled cells if need be.
    /// Only a board that locks on moves then evaluates the lock condition,
    /// and locks the piece where it has moved to if it is met.
    pub open spec fn shifted(self, dx: int, dy: int) -> Board {
        if self.game_over || !self.piece.can_translate(dx, dy) {
            self
        } else if self.rules.lock_on_move && self.rests(self.piece.translated(dx, dy)) {
            self.land(self.piece.translated(dx, dy))
        } else {
            Board { piece: self.piece.translated(dx, dy), ..self }
        }
    }

    /// What holds of every board a game can reach: valid constants, a piece
    /// of its kind's shape within the coordinate range, a settled grid within
    /// its limits in which no row is full, and a game that is over only with
    /// a fresh piece that meets the lock condition where it appeared.
    pub open spec fn wf(self) -> bool {
        &&& self.rules.wf()
        &&& self.piece.wf()
        &&& self.piece.shape == shape_of(self.piece.kind, self.rules.row_height)
        &&& grid_ok(self.settled, self.rules.row_height)
        &&& no_full_row(self.settled, self.rules.row_height, self.rules.width)
        &&& self.game_over ==> self == Board::respawn(self.rules, self.piece.kind, self.settled)
    }
}

/// The cells of a well-formed piece, possibly one gravity step lower, fit the grid.
pub proof fn lemma_piece_cells_in_grid(piece: PieceModel, drop: int, row_height: int)
    requires
        piece.wf(),
        0 <= drop <= STEP_LIMIT,
        row_height >= 1,
    ensures
        grid_ok(piece.translated(0, -drop).world_cells(), row_height),
{
    let world = piece.translated(0, -drop).world_cells();
    assert forall|i: int| 0 <= i < world.len() implies in_grid(#[trigger] world[i], row_height) by {
        assert(world[i] == piece.shape[i].plus(piece.position.shifted(0, -drop)));
        lemma_row_index_low(world[i].y, row_height);
    }
}

/// A freshly spawned piece is well formed.
pub proof fn lemma_spawn_piece_wf(kind: PieceKind, rules: Rules)
    requires
        rules.wf(),
    ensures
        spawn_piece(kind, rules).wf(),
        spawn_piece(kind, rules).world_cells().len() == 4,
{
    lemma_shape_of(kind, rules.row_height);
}

/// A fresh piece over a grid within its limits makes a well-formed board.
pub proof fn lemma_respawn_wf(rules: Rules, kind: PieceKind, settled: Seq<Cell>)
    requires
        rules.wf(),
        grid_ok(settled, rules.row_height),
        no_full_row(settled, rules.row_height, rules.width),
    ensures
        Board::respawn(rules, kind, settled).wf(),
{
    lemma_spawn_piece_wf(kind, rules);
}

/// The board a game starts from is well formed.
pub proof fn law_start_is_wf(rules: Rules)
    requires
        rules.wf(),
    ensures
        Board::start(rules).wf(),
{
    lemma_empty_grid_no_full_row(rules.row_height, rules.width);
    lemma_respawn_wf(rules, PieceKind::I, Seq::empty());
}

/// A piece that stays above the floor after a step of gravity is still
/// within the coordinate range.
pub proof fn lemma_fallen_wf(board: Board)
    requires
        board.wf(),
        !board.locks(),
    ensures
        board.fallen().wf(),
{
    let world = board.fallen().world_cells();
    lemma_shape_of(board.piece.kind, board.rules.row_height);
    assert(world[0] == board.piece.shape[0].plus(
        board.piece.position.shifted(0, -board.rules.fall_step),
    ));
    assert(world[0].y > board.rules.floor);
}

/// Locking a piece whose cells fit the grid gives a well-formed board.
pub proof fn lemma_land_wf(board: Board, piece: PieceModel)
    requires
        board.wf(),
        grid_ok(piece.world_cells(), board.rules.row_height),
    ensures
        board.land(piece).wf(),
{
    let merged = board.settled + piece.world_cells();
    assert forall|i: int| 0 <= i < merged.len() implies in_grid(
        #[trigger] merged[i],
        board.rules.row_height,
    ) by {
        if i < board.settled.len() {
            assert(merged[i] == board.settled[i]);
        } else {
            assert(merged[i] == piece.world_cells()[i - board.settled.len()]);
        }
    }
    lemma_clear_rows_in_grid(merged, board.rules.row_height, board.rules.width);
    law_clear_leaves_no_full_row(merged, board.rules.row_height, board.rules.width);
    lemma_respawn_wf(
        board.rules,
        next_kind(piece.kind),
        clear_rows(merged, board.rules.row_height, board.rules.width),
    );
}

/// Every tick takes a well-formed board to a well-formed board.
pub proof fn law_tick_keeps_wf(board: Board)
    requires
        board.wf(),
    ensures
        board.tick().wf(),
{
    if board.game_over {
    } else if board.locks() {
        lemma_piece_cells_in_grid(board.piece, board.rules.fall_step, board.rules.row_height);
        lemma_land_wf(board, board.fallen());
    } else {
        lemma_fallen_wf(board);
    }
}

/// Every move takes a well-formed board to a well-formed board.
pub proof fn law_move_keeps_wf(board: Board, dx: int, dy: int)
    requires
        board.wf(),
    ensures
        board.shifted(dx, dy).wf(),
{
    if !board.game_over && board.piece.can_translate(dx, dy) {
        let moved = board.piece.translated(dx, dy);
        lemma_piece_cells_in_grid(moved, 0, board.rules.row_height);
        assert(moved.translated(0, 0) == moved);
        if board.rules.lock_on_move && board.rests(moved) {
            lemma_land_wf(board, moved);
        }
    }
}

} // verus!
