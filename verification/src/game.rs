//! The game: the executable board and its operations.

use vstd::prelude::*;
use crate::board::{lemma_fallen_wf, lemma_piece_cells_in_grid, Board};
use crate::cell::{cells_of, Block, Cell, STEP_LIMIT};
use crate::config::Config;
use crate::lock::{check_collision, hit_bottom};
use crate::piece::{next_kind, Piece, PieceKind};
use crate::clearing::clear_full_rows;
use crate::compaction::{law_clear_leaves_no_full_row, lemma_empty_grid_no_full_row};
use crate::rows::{clear_rows, grid_ok, in_grid, no_full_row};

verus! {

/// A game in progress.
pub struct GameState {
    config: Config,
    current: Piece,
    blocks: Vec<Block>,
    game_over: bool,
}

impl View for GameState {
    type V = Board;

    closed spec fn view(&self) -> Board {
        Board {
            rules: self.config@,
            piece: self.current@,
            settled: cells_of(self.blocks@),
            game_over: self.game_over,
        }
    }
}

impl GameState {
    #[verifier::type_invariant]
    spec fn inv(self) -> bool {
        self@.wf()
    }

    /// A fresh piece of `kind` over the given settled blocks.
    fn spawn_over(config: Config, kind: PieceKind, blocks: Vec<Block>) -> (state: GameState)
        requires
            config@.wf(),
            grid_ok(cells_of(blocks@), config@.row_height),
            no_full_row(cells_of(blocks@), config@.row_height, config@.width),
        ensures
            state@ == Board::respawn(config@, kind, cells_of(blocks@)),
            state@.wf(),
    {
        let current = Piece::create(kind, &config);
        let cells = current.world_cells();
        let game_over = hit_bottom(&cells, config.floor) || check_collision(
            &cells,
            &blocks,
            config.tolerance,
        );
        GameState { config, current, blocks, game_over }
    }

    /// The first piece over an empty grid.
    fn start_with(config: Config) -> (state: GameState)
        requires
            config@.wf(),
        ensures
            state@ == Board::start(config@),
            state@.wf(),
    {
        let blocks: Vec<Block> = Vec::new();
        proof {
            assert(cells_of(blocks@) =~= Seq::<Cell>::empty());
            lemma_empty_grid_no_full_row(config@.row_height, config@.width);
        }
        GameState::spawn_over(config, PieceKind::I, blocks)
    }

    /// A game on the default board.
    pub fn new() -> (state: GameState)
        ensures
            state@ == Board::start(Config::default_rules()),
            state@.wf(),
    {
        GameState::start_with(Config::default())
    }

    /// A game on a board with the given constants, or `None` if the
    /// constants are not valid.
    pub fn with_config(config: Config) -> (made: Option<GameState>)
        ensures
            match made {
                Some(state) => config@.wf() && state@ == Board::start(config@) && state@.wf(),
                None => !config@.wf(),
            },
    {
        if config.is_valid() {
            Some(GameState::start_with(config))
        } else {
            None
        }
    }

    /// Locks a piece whose cells are `cells`: they join the settled blocks,
    /// full rows are cleared, and a piece of the next kind appears.
    fn settle(&mut self, cells: Vec<Block>)
        requires
            !old(self)@.game_over,
            grid_ok(cells_of(cells@), old(self)@.rules.row_height),
        ensures
            final(self)@ == Board::respawn(
                old(self)@.rules,
                next_kind(old(self)@.piece.kind),
                clear_rows(
                    old(self)@.settled + cells_of(cells@),
                    old(self)@.rules.row_height,
                    old(self)@.rules.width,
                ),
            ),
            final(self)@.wf(),
    {
        proof {
            use_type_invariant(&*self);
        }
        let mut grid: Vec<Block> = Vec::new();
        proof {
            assert(cells_of(grid@) =~= Seq::<Cell>::empty());
            lemma_empty_grid_no_full_row(self.config@.row_height, self.config@.width);
        }
        core::mem::swap(&mut grid, &mut self.blocks);
        let ghost before = grid@;
        let mut i: usize = 0;
        while i < cells.len()
            invariant
                i <= cells.len(),
                grid@ == before + cells@.take(i as int),
            decreases cells.len() - i,
        {
            grid.push(cells[i]);
            assert(cells@.take(i + 1) =~= cells@.take(i as int).push(cells@[i as int]));
            assert(grid@ =~= before + cells@.take(i + 1));
            i += 1;
        }
        proof {
            assert(cells@.take(cells.len() as int) =~= cells@);
            assert(cells_of(grid@) =~= cells_of(before) + cells_of(cells@));
            assert forall|t: int| 0 <= t < grid@.len() implies in_grid(
                #[trigger] cells_of(grid@)[t],
                self.config@.row_height,
            ) by {
                if t < before.len() {
                    assert(cells_of(grid@)[t] == cells_of(before)[t]);
                } else {
                    assert(cells_of(grid@)[t] == cells_of(cells@)[t - before.len()]);
                }
            }
        }
        proof {
            law_clear_leaves_no_full_row(
                cells_of(grid@),
                self.config@.row_height,
                self.config@.width,
            );
        }
        clear_full_rows(&mut grid, self.config.row_height, self.config.width);
        *self = GameState::spawn_over(self.config, self.current.kind().next(), grid);
    }

    /// Advances the game by one tick: the piece falls one gravity step and
    /// is locked if it then rests on the floor or is held by a settled block.
    /// A lock adds all cells of the piece to the settled blocks, clears the
    /// full rows, and brings the next piece. A finished game stays as it is.
    pub fn update(&mut self)
        ensures
            final(self)@ == old(self)@.tick(),
            final(self)@.wf(),
    {
        proof {
            use_type_invariant(&*self);
        }
        if self.game_over {
            return ;
        }
        let fall: i64 = self.config.fall_step;
        let cells = self.current.cells_if_moved(0, -fall);
        let hit_bottom = hit_bottom(&cells, self.config.floor);
        let hit_block = check_collision(&cells, &self.blocks, self.config.tolerance);
        if hit_bottom || hit_block {
            proof {
                lemma_piece_cells_in_grid(old(self)@.piece, fall as int, self.config@.row_height);
            }
            self.settle(cells);
        } else {
            proof {
                lemma_fallen_wf(old(self)@);
            }
            self.current.translate(0, -fall);
        }
    }

    /// Moves the piece by `(dx, dy)` unless the game is over or the move
    /// would leave the coordinate range; on a board that locks on moves,
    /// locks the piece if it then meets the lock condition.
    fn nudge(&mut self, dx: i64, dy: i64)
        requires
            -STEP_LIMIT <= dx <= STEP_LIMIT,
            -STEP_LIMIT <= dy <= STEP_LIMIT,
        ensures
            final(self)@ == old(self)@.shifted(dx as int, dy as int),
            final(self)@.wf(),
    {
        proof {
            use_type_invariant(&*self);
        }
        if self.game_over || !self.current.can_translate(dx, dy) {
            return ;
        }
        if self.config.lock_on_move {
            let cells = self.current.cells_if_moved(dx, dy);
            let hit_bottom = hit_bottom(&cells, self.config.floor);
            let hit_block = check_collision(&cells, &self.blocks, self.config.tolerance);
            if hit_bottom || hit_block {
                proof {
                    let moved = old(self)@.piece.translated(dx as int, dy as int);
                    lemma_piece_cells_in_grid(moved, 0, self.config@.row_height);
                    assert(moved.translated(0, 0) == moved);
                }
                self.settle(cells);
                return ;
            }
        }
        self.current.translate(dx, dy);
    }

    /// Moves the piece one step to the left, through settled blocks if need
    /// be. Only a board that locks on moves evaluates the lock condition.
    pub fn move_left(&mut self)
        ensures
            final(self)@ == old(self)@.shifted(-old(self)@.rules.move_step, 0),
            final(self)@.wf(),
    {
        proof {
            use_type_invariant(&*self);
        }
        let step: i64 = self.config.move_step;
        self.nudge(-step, 0);
    }

    /// Moves the piece one step to the right, through settled blocks if need
    /// be. Only a board that locks on moves evaluates the lock condition.
    pub fn move_right(&mut self)
        ensures
            final(self)@ == old(self)@.shifted(old(self)@.rules.move_step, 0),
            final(self)@.wf(),
    {
        proof {
            use_type_invariant(&*self);
        }
        let step: i64 = self.config.move_step;
        self.nudge(step, 0);
    }

    /// Drops the piece by one step, independently of gravity. Only a board
    /// that locks on moves evaluates the lock condition here; otherwise that
    /// is left to the next tick.
    pub fn move_down(&mut self)
        ensures
            final(self)@ == old(self)@.shifted(0, -old(self)@.rules.move_step),
            final(self)@.wf(),
    {
        proof {
            use_type_invariant(&*self);
        }
        let step: i64 = self.config.move_step;
        self.nudge(0, -step);
    }

    /// The position of the falling piece.
    pub fn current(&self) -> (position: Block)
        ensures
            position@ == self@.piece.position,
    {
        self.current.position()
    }

    /// The kind of the falling piece.
    pub fn current_kind(&self) -> (kind: PieceKind)
        ensures
            kind == self@.piece.kind,
    {
        self.current.kind()
    }

    /// The cells of the falling piece, in template order.
    pub fn active_cells(&self) -> (cells: Vec<Block>)
        ensures
            cells_of(cells@) == self@.piece.world_cells(),
    {
        self.current.world_cells()
    }

    /// The settled blocks, oldest first.
    pub fn blocks(&self) -> (settled: Vec<Block>)
        ensures
            cells_of(settled@) == self@.settled,
    {
        let settled = self.blocks.clone();
        assert(settled@ =~= self.blocks@);
        settled
    }

    /// Whether a fresh piece was locked in place where it appeared. Once
    /// this holds no operation changes the game any more.
    pub fn is_game_over(&self) -> (over: bool)
        ensures
            over == self@.game_over,
    {
        self.game_over
    }

    /// The constants this game is played with.
    pub fn config(&self) -> (config: Config)
        ensures
            config@ == self@.rules,
    {
        self.config
    }
}

} // verus!
