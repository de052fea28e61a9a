//! The falling piece: a rigid shape and the position it has been moved to.

use vstd::prelude::*;
use crate::cell::{cells_of, Block, Cell, COORD_LIMIT, SHAPE_LIMIT, STEP_LIMIT};
use crate::config::{Config, Rules};

verus! {

/// The kinds of piece.
#[derive(Clone, Copy, Debug, PartialEq, Eq, Structural)]
pub enum PieceKind {
    /// Four cells in a horizontal line.
    I,
    /// A column of three cells with a foot to the right of its base.
    L,
    /// Three cells in a horizontal line with one cell on top of the middle.
    T,
}

/// The kind that follows `kind` in the fixed rotation I, L, T, I, ...
pub open spec fn next_kind(kind: PieceKind) -> PieceKind {
    match kind {
        PieceKind::I => PieceKind::L,
        PieceKind::L => PieceKind::T,
        PieceKind::T => PieceKind::I,
    }
}

/// The cells of a kind, relative to its origin, in units of one cell.
pub open spec fn template(kind: PieceKind) -> Seq<Cell> {
    match kind {
        PieceKind::I => seq![
            Cell { x: 0, y: 0 },
            Cell { x: 1, y: 0 },
            Cell { x: 2, y: 0 },
            Cell { x: 3, y: 0 },
        ],
        PieceKind::L => seq![
            Cell { x: 0, y: 0 },
            Cell { x: 0, y: 1 },
            Cell { x: 0, y: 2 },
            Cell { x: 1, y: 0 },
        ],
        PieceKind::T => seq![
            Cell { x: 0, y: 0 },
            Cell { x: 1, y: 0 },
            Cell { x: 2, y: 0 },
            Cell { x: 1, y: 1 },
        ],
    }
}

/// The template of a kind scaled to cells of edge length `size`.
pub open spec fn shape_of(kind: PieceKind, size: int) -> Seq<Cell> {
    template(kind).map_values(|c: Cell| Cell { x: c.x * size, y: c.y * size })
}

/// The scaled template of each kind, cell by cell.
pub proof fn lemma_shape_of(kind: PieceKind, size: int)
    ensures
        shape_of(kind, size).len() == 4,
        shape_of(kind, size)[0] == (Cell { x: 0, y: 0 }),
        kind == PieceKind::I ==> shape_of(kind, size)[1] == (Cell { x: size, y: 0 })
            && shape_of(kind, size)[2] == (Cell { x: 2 * size, y: 0 }) && shape_of(kind, size)[3]
            == (Cell { x: 3 * size, y: 0 }),
        kind == PieceKind::L ==> shape_of(kind, size)[1] == (Cell { x: 0, y: size })
            && shape_of(kind, size)[2] == (Cell { x: 0, y: 2 * size }) && shape_of(kind, size)[3]
            == (Cell { x: size, y: 0 }),
        kind == PieceKind::T ==> shape_of(kind, size)[1] == (Cell { x: size, y: 0 })
            && shape_of(kind, size)[2] == (Cell { x: 2 * size, y: 0 }) && shape_of(kind, size)[3]
            == (Cell { x: size, y: size }),
{
    let unit = template(kind);
    let scaled = shape_of(kind, size);
    assert(unit.len() == 4);
    assert forall|i: int| 0 <= i < 4 implies #[trigger] scaled[i] == (Cell {
        x: unit[i].x * size,
        y: unit[i].y * size,
    }) by {}
    assert(0 * size == 0 && 1 * size == size);
    assert(unit[0] == Cell { x: 0, y: 0 });
    match kind {
        PieceKind::I => {
            assert(unit[1] == Cell { x: 1, y: 0 });
            assert(unit[2] == Cell { x: 2, y: 0 });
            assert(unit[3] == Cell { x: 3, y: 0 });
        },
        PieceKind::L => {
            assert(unit[1] == Cell { x: 0, y: 1 });
            assert(unit[2] == Cell { x: 0, y: 2 });
            assert(unit[3] == Cell { x: 1, y: 0 });
        },
        PieceKind::T => {
            assert(unit[1] == Cell { x: 1, y: 0 });
            assert(unit[2] == Cell { x: 2, y: 0 });
            assert(unit[3] == Cell { x: 1, y: 1 });
        },
    }
}

/// A piece as a mathematical value.
pub struct PieceModel {
    pub kind: PieceKind,
    /// Cell offsets relative to `position`, in template order.
    pub shape: Seq<Cell>,
    pub position: Cell,
}

impl PieceModel {
    /// The board positions of the piece's cells: each offset plus the
    /// position, in template order.
    pub open spec fn world_cells(self) -> Seq<Cell> {
        self.shape.map_values(|c: Cell| c.plus(self.position))
    }

    /// The piece moved by `(dx, dy)`; its shape and kind stay.
    pub open spec fn translated(self, dx: int, dy: int) -> PieceModel {
        PieceModel { kind: self.kind, shape: self.shape, position: self.position.shifted(dx, dy) }
    }

    /// The position is within `COORD_LIMIT` of the origin on both axes and
    /// every offset lies between zero and `SHAPE_LIMIT`.
    pub open spec fn wf(self) -> bool {
        &&& -COORD_LIMIT <= self.position.x <= COORD_LIMIT
        &&& -COORD_LIMIT <= self.position.y <= COORD_LIMIT
        &&& forall|i: int|
            0 <= i < self.shape.len() ==> {
                &&& 0 <= (#[trigger] self.shape[i]).x <= SHAPE_LIMIT
                &&& 0 <= self.shape[i].y <= SHAPE_LIMIT
            }
    }

    /// Whether the piece moved by `(dx, dy)` is still within the coordinate range.
    pub open spec fn can_translate(self, dx: int, dy: int) -> bool {
        &&& -COORD_LIMIT <= self.position.x + dx <= COORD_LIMIT
        &&& -COORD_LIMIT <= self.position.y + dy <= COORD_LIMIT
    }
}

/// A fresh piece of the given kind at the spawn point of `rules`.
pub open spec fn spawn_piece(kind: PieceKind, rules: Rules) -> PieceModel {
    PieceModel { kind, shape: shape_of(kind, rules.row_height), position: rules.spawn }
}

impl PieceKind {
    /// The kind that follows this one in the rotation.
    pub fn next(self) -> (kind: PieceKind)
        ensures
            kind == next_kind(self),
    {
        match self {
            PieceKind::I => PieceKind::L,
            PieceKind::L => PieceKind::T,
            PieceKind::T => PieceKind::I,
        }
    }
}

/// A falling piece.
pub struct Piece {
    kind: PieceKind,
    shape: Vec<Block>,
    position: Block,
}

impl View for Piece {
    type V = PieceModel;

    closed spec fn view(&self) -> PieceModel {
        PieceModel { kind: self.kind, shape: cells_of(self.shape@), position: self.position@ }
    }
}

impl Piece {
    #[verifier::type_invariant]
    spec fn inv(self) -> bool {
        self@.wf()
    }

    /// A new piece of the given kind at the board's spawn point.
    pub fn create(kind: PieceKind, config: &Config) -> (piece: Piece)
        requires
            config@.wf(),
        ensures
            piece@ == spawn_piece(kind, config@),
            piece@.wf(),
    {
        let s: i64 = config.row_height;
        let (second, third, fourth): (Block, Block, Block) = match kind {
            PieceKind::I => {
                (Block { x: s, y: 0 }, Block { x: 2 * s, y: 0 }, Block { x: 3 * s, y: 0 })
            },
            PieceKind::L => {
                (Block { x: 0, y: s }, Block { x: 0, y: 2 * s }, Block { x: s, y: 0 })
            },
            PieceKind::T => {
                (Block { x: s, y: 0 }, Block { x: 2 * s, y: 0 }, Block { x: s, y: s })
            },
        };
        let mut shape: Vec<Block> = Vec::new();
        shape.push(Block { x: 0, y: 0 });
        shape.push(second);
        shape.push(third);
        shape.push(fourth);
        proof {
            lemma_shape_of(kind, s as int);
            assert(cells_of(shape@) =~= shape_of(kind, s as int));
        }
        Piece { kind, shape, position: config.spawn }
    }

    /// The kind of the piece.
    pub fn kind(&self) -> (kind: PieceKind)
        ensures
            kind == self@.kind,
    {
        self.kind
    }

    /// The position the piece has been moved to.
    pub fn position(&self) -> (position: Block)
        ensures
            position@ == self@.position,
    {
        self.position
    }

    /// The board positions of the piece's cells, in template order.
    pub fn world_cells(&self) -> (cells: Vec<Block>)
        ensures
            cells_of(cells@) == self@.world_cells(),
            self@.wf(),
    {
        let cells = self.cells_if_moved(0, 0);
        assert(self@.translated(0, 0) == self@);
        cells
    }

    /// The board positions the piece's cells would have after a move by
    /// `(dx, dy)`, in template order. The piece itself stays where it is.
    pub fn cells_if_moved(&self, dx: i64, dy: i64) -> (cells: Vec<Block>)
        requires
            -STEP_LIMIT <= dx <= STEP_LIMIT,
            -STEP_LIMIT <= dy <= STEP_LIMIT,
        ensures
            cells_of(cells@) == self@.translated(dx as int, dy as int).world_cells(),
            self@.wf(),
    {
        proof {
            use_type_invariant(self);
        }
        let ghost world = self@.translated(dx as int, dy as int).world_cells();
        let x: i64 = self.position.x + dx;
        let y: i64 = self.position.y + dy;
        let mut cells: Vec<Block> = Vec::new();
        let mut i: usize = 0;
        while i < self.shape.len()
            invariant
                i <= self.shape.len(),
                self@.wf(),
                x == self.position.x + dx,
                y == self.position.y + dy,
                -STEP_LIMIT <= dx <= STEP_LIMIT,
                -STEP_LIMIT <= dy <= STEP_LIMIT,
                world == self@.translated(dx as int, dy as int).world_cells(),
                cells_of(cells@) == world.take(i as int),
            decreases self.shape.len() - i,
        {
            let offset = self.shape[i];
            assert(self@.shape[i as int] == offset@);
            let moved = Block { x: offset.x + x, y: offset.y + y };
            let ghost prior = cells@;
            cells.push(moved);
            proof {
                let origin = self.position@.shifted(dx as int, dy as int);
                assert(world[i as int] == offset@.plus(origin));
                assert(cells_of(cells@) =~= cells_of(prior).push(moved@));
                assert(world.take(i + 1) =~= world.take(i as int).push(world[i as int]));
            }
            i += 1;
        }
        assert(world.take(self.shape.len() as int) =~= world);
        cells
    }

    /// Whether `translate(dx, dy)` would keep the piece within the coordinate range.
    pub fn can_translate(&self, dx: i64, dy: i64) -> (ok: bool)
        ensures
            ok == self@.can_translate(dx as int, dy as int),
    {
        let x: i128 = self.position.x as i128 + dx as i128;
        let y: i128 = self.position.y as i128 + dy as i128;
        -(COORD_LIMIT as i128) <= x && x <= COORD_LIMIT as i128 && -(COORD_LIMIT as i128) <= y && y
            <= COORD_LIMIT as i128
    }

    /// Moves the piece by `(dx, dy)`. Nothing is clamped: the new position is
    /// the old one plus the delta.
    pub fn translate(&mut self, dx: i64, dy: i64)
        requires
            old(self)@.can_translate(dx as int, dy as int),
        ensures
            final(self)@ == old(self)@.translated(dx as int, dy as int),
            final(self)@.wf(),
        no_unwind
    {
        proof {
            use_type_invariant(&*self);
        }
        self.position = Block { x: self.position.x + dx, y: self.position.y + dy };
    }
}

} // verus!
