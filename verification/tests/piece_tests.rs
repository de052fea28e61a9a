use blockfall::cell::{Block, COORD_LIMIT};
use blockfall::config::Config;
use blockfall::piece::{Piece, PieceKind};

fn unit_board() -> Config {
    Config {
        width: 10,
        fall_step: 1,
        move_step: 1,
        row_height: 1,
        tolerance: 1,
        floor: 0,
        spawn: Block { x: 5, y: 18 },
        lock_on_move: false,
    }
}

#[test]
fn line_piece_appears_at_spawn_in_template_order() {
    let piece = Piece::create(PieceKind::I, &unit_board());
    assert_eq!(piece.kind(), PieceKind::I);
    assert_eq!(piece.position(), Block { x: 5, y: 18 });
    assert_eq!(
        piece.world_cells(),
        vec![
            Block { x: 5, y: 18 },
            Block { x: 6, y: 18 },
            Block { x: 7, y: 18 },
            Block { x: 8, y: 18 }
        ]
    );
}

#[test]
fn hook_piece_has_a_column_and_a_foot() {
    let piece = Piece::create(PieceKind::L, &unit_board());
    assert_eq!(
        piece.world_cells(),
        vec![
            Block { x: 5, y: 18 },
            Block { x: 5, y: 19 },
            Block { x: 5, y: 20 },
            Block { x: 6, y: 18 }
        ]
    );
}

#[test]
fn tee_piece_has_a_bar_and_a_cap() {
    let piece = Piece::create(PieceKind::T, &unit_board());
    assert_eq!(
        piece.world_cells(),
        vec![
            Block { x: 5, y: 18 },
            Block { x: 6, y: 18 },
            Block { x: 7, y: 18 },
            Block { x: 6, y: 19 }
        ]
    );
}

#[test]
fn shapes_scale_with_the_row_height() {
    let config = Config::default();
    let line = Piece::create(PieceKind::I, &config);
    assert_eq!(
        line.world_cells(),
        vec![
            Block { x: 0, y: 100 },
            Block { x: 5, y: 100 },
            Block { x: 10, y: 100 },
            Block { x: 15, y: 100 }
        ]
    );
    let tee = Piece::create(PieceKind::T, &config);
    assert_eq!(
        tee.world_cells(),
        vec![
            Block { x: 0, y: 100 },
            Block { x: 5, y: 100 },
            Block { x: 10, y: 100 },
            Block { x: 5, y: 105 }
        ]
    );
}

#[test]
fn every_kind_has_four_distinct_cells() {
    for kind in [PieceKind::I, PieceKind::L, PieceKind::T] {
        let cells = Piece::create(kind, &unit_board()).world_cells();
        assert_eq!(cells.len(), 4);
        for i in 0..cells.len() {
            for j in 0..i {
                assert_ne!(cells[i], cells[j]);
            }
        }
    }
}

#[test]
fn world_cells_read_twice_are_identical() {
    let mut piece = Piece::create(PieceKind::L, &unit_board());
    piece.translate(-3, 4);
    let first = piece.world_cells();
    let second = piece.world_cells();
    assert_eq!(first, second);
    assert_eq!(piece.position(), Block { x: 2, y: 22 });
}

#[test]
fn translations_add_up_without_clamping() {
    let mut piece = Piece::create(PieceKind::I, &unit_board());
    let deltas: [(i64, i64); 5] = [(3, -2), (-10, 7), (0, 0), (-1000, -1000), (4, 1)];
    let mut sum_x: i64 = 0;
    let mut sum_y: i64 = 0;
    for (dx, dy) in deltas {
        assert!(piece.can_translate(dx, dy));
        piece.translate(dx, dy);
        sum_x += dx;
        sum_y += dy;
    }
    assert_eq!(sum_x, -1003);
    assert_eq!(sum_y, -994);
    assert_eq!(piece.position(), Block { x: 5 - 1003, y: 18 - 994 });
    assert_eq!(
        piece.world_cells(),
        vec![
            Block { x: -998, y: -976 },
            Block { x: -997, y: -976 },
            Block { x: -996, y: -976 },
            Block { x: -995, y: -976 }
        ]
    );
}

#[test]
fn translation_keeps_kind_and_shape() {
    let mut piece = Piece::create(PieceKind::T, &unit_board());
    piece.translate(10, -10);
    assert_eq!(piece.kind(), PieceKind::T);
    assert_eq!(
        piece.world_cells(),
        vec![
            Block { x: 15, y: 8 },
            Block { x: 16, y: 8 },
            Block { x: 17, y: 8 },
            Block { x: 16, y: 9 }
        ]
    );
}

#[test]
fn translation_is_allowed_up_to_the_coordinate_limit() {
    let mut piece = Piece::create(PieceKind::I, &unit_board());
    assert!(piece.can_translate(COORD_LIMIT - 5, 0));
    assert!(!piece.can_translate(COORD_LIMIT - 4, 0));
    assert!(piece.can_translate(0, -COORD_LIMIT - 18));
    assert!(!piece.can_translate(0, -COORD_LIMIT - 19));
    assert!(!piece.can_translate(i64::MAX, 0));
    assert!(!piece.can_translate(0, i64::MIN));
    piece.translate(COORD_LIMIT - 5, -COORD_LIMIT - 18);
    assert_eq!(piece.position(), Block { x: COORD_LIMIT, y: -COORD_LIMIT });
    assert_eq!(piece.world_cells()[3], Block { x: COORD_LIMIT + 3, y: -COORD_LIMIT });
}

#[test]
fn looking_ahead_leaves_the_piece_in_place() {
    let piece = Piece::create(PieceKind::L, &unit_board());
    let ahead = piece.cells_if_moved(2, -1);
    assert_eq!(
        ahead,
        vec![
            Block { x: 7, y: 17 },
            Block { x: 7, y: 18 },
            Block { x: 7, y: 19 },
            Block { x: 8, y: 17 }
        ]
    );
    assert_eq!(piece.position(), Block { x: 5, y: 18 });
}

#[test]
fn kinds_rotate_in_a_fixed_order() {
    assert_eq!(PieceKind::I.next(), PieceKind::L);
    assert_eq!(PieceKind::L.next(), PieceKind::T);
    assert_eq!(PieceKind::T.next(), PieceKind::I);
}
