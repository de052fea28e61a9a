//! Laws of the game that relate several operations.

use vstd::prelude::*;
use crate::board::Board;
use crate::cell::{cells_of, Block, Cell};
use vstd::seq_lib::lemma_no_dup_in_concat;
use crate::compaction::{
    law_clear_keeps_cells_distinct, law_clear_leaves_no_full_row, law_clear_without_full_row,
    law_full_row_removed,
};
use crate::lock::must_lock;
use crate::piece::{lemma_shape_of, next_kind, shape_of, spawn_piece, PieceModel};
use crate::rows::{clear_rows, no_full_row, row_count, row_is_full};

verus! {

/// The sum of a sequence of moves, as one move.
pub open spec fn total(deltas: Seq<(int, int)>) -> (int, int)
    decreases deltas.len(),
{
    if deltas.len() == 0 {
        (0, 0)
    } else {
        let before = total(deltas.drop_last());
        (before.0 + deltas.last().0, before.1 + deltas.last().1)
    }
}

/// The piece after a sequence of translations, applied first to last.
pub open spec fn translated_all(piece: PieceModel, deltas: Seq<(int, int)>) -> PieceModel
    decreases deltas.len(),
{
    if deltas.len() == 0 {
        piece
    } else {
        translated_all(piece, deltas.drop_last()).translated(deltas.last().0, deltas.last().1)
    }
}

/// The board after a sequence of player moves, applied first to last.
pub open spec fn shifted_all(board: Board, deltas: Seq<(int, int)>) -> Board
    decreases deltas.len(),
{
    if deltas.len() == 0 {
        board
    } else {
        shifted_all(board, deltas.drop_last()).shifted(deltas.last().0, deltas.last().1)
    }
}

/// Reading the cells of a piece is repeatable: two readings of a piece that
/// has not changed in between are the same sequence of blocks.
pub proof fn law_world_cells_repeatable(piece: PieceModel, first: Seq<Block>, second: Seq<Block>)
    requires
        cells_of(first) == piece.world_cells(),
        cells_of(second) == piece.world_cells(),
    ensures
        first == second,
{
    assert(first.len() == cells_of(first).len() && second.len() == cells_of(second).len());
    assert forall|i: int| 0 <= i < first.len() implies first[i] == second[i] by {
        assert(cells_of(first)[i] == first[i]@);
        assert(cells_of(second)[i] == second[i]@);
    }
    assert(first =~= second);
}

/// Translations add up: after any sequence of translations the position is
/// the starting position plus the sum of the deltas, and the shape and kind
/// are the ones the piece started with.
pub proof fn law_translations_add_up(piece: PieceModel, deltas: Seq<(int, int)>)
    ensures
        translated_all(piece, deltas) == piece.translated(total(deltas).0, total(deltas).1),
        translated_all(piece, deltas).position == (Cell {
            x: piece.position.x + total(deltas).0,
            y: piece.position.y + total(deltas).1,
        }),
        translated_all(piece, deltas).shape == piece.shape,
        translated_all(piece, deltas).kind == piece.kind,
    decreases deltas.len(),
{
    if deltas.len() > 0 {
        law_translations_add_up(piece, deltas.drop_last());
    }
}

/// Whether the piece of `board`, moved by the sum of `deltas`, is within the
/// coordinate range and, on a board that locks on moves, does not meet the
/// lock condition there.
pub open spec fn stays_free(board: Board, deltas: Seq<(int, int)>) -> bool {
    let sum = total(deltas);
    &&& board.piece.can_translate(sum.0, sum.1)
    &&& board.rules.lock_on_move ==> !board.rests(board.piece.translated(sum.0, sum.1))
}

/// Player moves add up: as long as the game is not over and no move on the
/// way is refused or locks the piece, a sequence of moves puts the piece at
/// its starting position plus the sum of the deltas and changes nothing else.
pub proof fn law_moves_add_up(board: Board, deltas: Seq<(int, int)>)
    requires
        !board.game_over,
        forall|n: int| 1 <= n <= deltas.len() ==> stays_free(board, #[trigger] deltas.take(n)),
    ensures
        shifted_all(board, deltas) == (Board {
            piece: board.piece.translated(total(deltas).0, total(deltas).1),
            ..board
        }),
    decreases deltas.len(),
{
    if deltas.len() == 0 {
        assert(board.piece.translated(0, 0) == board.piece);
    } else {
        let front = deltas.drop_last();
        assert forall|n: int| 1 <= n <= front.len() implies stays_free(
            board,
            #[trigger] front.take(n),
        ) by {
            assert(front.take(n) =~= deltas.take(n));
        }
        law_moves_add_up(board, front);
        assert(deltas.take(deltas.len() as int) =~= deltas);
        assert(stays_free(board, deltas.take(deltas.len() as int)));
        let sum = total(front);
        let last = deltas.last();
        assert(board.piece.translated(sum.0, sum.1).translated(last.0, last.1)
            == board.piece.translated(total(deltas).0, total(deltas).1));
    }
}

/// A lock that fills no row adds exactly the cells of the piece, at the
/// positions one gravity step below where the piece was, to the end of the
/// settled cells, and puts a fresh piece of the next kind at the spawn point.
pub proof fn law_lock_settles_piece(board: Board)
    requires
        !board.game_over,
        board.locks(),
        no_full_row(
            board.settled + board.fallen().world_cells(),
            board.rules.row_height,
            board.rules.width,
        ),
    ensures
        board.tick().settled == board.settled + board.fallen().world_cells(),
        board.tick().settled.len() == board.settled.len() + board.piece.shape.len(),
        board.tick().piece == spawn_piece(next_kind(board.piece.kind), board.rules),
        board.tick().piece.position == board.rules.spawn,
{
    law_clear_without_full_row(
        board.settled + board.fallen().world_cells(),
        board.rules.row_height,
        board.rules.width,
    );
}

/// Whatever a lock clears, the piece that follows is a fresh one of the next
/// kind at the spawn point, and the game is over exactly if that piece meets
/// the lock condition where it stands.
pub proof fn law_lock_respawns(board: Board)
    requires
        !board.game_over,
        board.locks(),
    ensures
        board.tick().piece == spawn_piece(next_kind(board.piece.kind), board.rules),
        board.tick().settled == clear_rows(
            board.settled + board.fallen().world_cells(),
            board.rules.row_height,
            board.rules.width,
        ),
        board.tick().game_over == must_lock(
            board.tick().piece.world_cells(),
            board.tick().settled,
            board.rules,
        ),
{
}

/// A tick that does not lock only lowers the piece by one gravity step.
pub proof fn law_fall_moves_piece_only(board: Board)
    requires
        !board.game_over,
        !board.locks(),
    ensures
        board.tick().settled == board.settled,
        board.tick().piece == board.piece.translated(0, -board.rules.fall_step),
        !board.tick().game_over,
{
}

/// A finished game is final: neither a tick nor a move changes the board.
pub proof fn law_game_over_is_final(board: Board, dx: int, dy: int)
    requires
        board.game_over,
    ensures
        board.tick() == board,
        board.shifted(dx, dy) == board,
{
}

/// The cells of a piece lie on pairwise different positions.
pub proof fn law_piece_cells_distinct(piece: PieceModel, size: int)
    requires
        size >= 1,
        piece.shape == shape_of(piece.kind, size),
    ensures
        piece.world_cells().len() == 4,
        piece.world_cells().no_duplicates(),
{
    let world = piece.world_cells();
    lemma_shape_of(piece.kind, size);
    assert forall|i: int, j: int| 0 <= i < world.len() && 0 <= j < world.len() && i
        != j implies world[i] != world[j] by {
        assert(world[i] == piece.shape[i].plus(piece.position));
        assert(world[j] == piece.shape[j].plus(piece.position));
    }
}

/// A lock puts no two settled cells on one position unless the piece lands
/// on a settled cell: if the settled cells are pairwise different and none
/// of them is where a cell of the piece comes to rest, the settled cells
/// after the lock are pairwise different.
pub proof fn law_lock_keeps_cells_distinct(board: Board)
    requires
        board.wf(),
        !board.game_over,
        board.locks(),
        board.settled.no_duplicates(),
        forall|i: int, j: int|
            0 <= i < board.settled.len() && 0 <= j < board.fallen().world_cells().len()
                ==> board.settled[i] != board.fallen().world_cells()[j],
    ensures
        board.tick().settled.no_duplicates(),
{
    law_piece_cells_distinct(board.fallen(), board.rules.row_height);
    lemma_no_dup_in_concat(board.settled, board.fallen().world_cells());
    law_clear_keeps_cells_distinct(
        board.settled + board.fallen().world_cells(),
        board.rules.row_height,
        board.rules.width,
    );
}

/// After a lock no row of the settled grid is full.
pub proof fn law_lock_leaves_no_full_row(board: Board)
    requires
        board.rules.row_height >= 1,
        board.rules.width >= 1,
        !board.game_over,
        board.locks(),
    ensures
        no_full_row(board.tick().settled, board.rules.row_height, board.rules.width),
{
    law_clear_leaves_no_full_row(
        board.settled + board.fallen().world_cells(),
        board.rules.row_height,
        board.rules.width,
    );
}

/// A lock removes every cell of a row it completes: the settled cells after
/// the lock and the cells of that row together are no more than the settled
/// cells and the piece held before.
pub proof fn law_lock_clears_completed_row(board: Board, row: int)
    requires
        !board.game_over,
        board.locks(),
        row_is_full(
            board.settled + board.fallen().world_cells(),
            row,
            board.rules.row_height,
            board.rules.width,
        ),
    ensures
        board.tick().settled.len() + row_count(
            board.settled + board.fallen().world_cells(),
            row,
            board.rules.row_height,
        ) <= board.settled.len() + board.piece.shape.len(),
{
    law_full_row_removed(
        board.settled + board.fallen().world_cells(),
        board.rules.row_height,
        board.rules.width,
        row,
    );
}

} // verus!
