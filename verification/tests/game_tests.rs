use blockfall::cell::{Block, COORD_LIMIT, STEP_LIMIT};
use blockfall::config::Config;
use blockfall::game::GameState;
use blockfall::piece::PieceKind;

fn unit_board() -> Config {
    Config {
        width: 10,
        fall_step: 1,
        move_step: 1,
        row_height: 1,
        tolerance: 1,
        floor: 0,
        spawn: Block { x: 5, y: 18 },
        lock_on_move: false,
    }
}

fn start(config: Config) -> GameState {
    match GameState::with_config(config) {
        Some(state) => state,
        None => panic!("the configuration is valid"),
    }
}

#[test]
fn default_configuration_is_valid() {
    let config = Config::default();
    assert!(config.is_valid());
    assert_eq!(
        config,
        Config {
            width: 10,
            fall_step: 1,
            move_step: 5,
            row_height: 5,
            tolerance: 20,
            floor: -90,
            spawn: Block { x: 0, y: 100 },
            lock_on_move: false,
        }
    );
}

#[test]
fn configuration_limits_are_checked() {
    assert!(unit_board().is_valid());
    assert!(!Config { width: 0, ..unit_board() }.is_valid());
    assert!(!Config { fall_step: 0, ..unit_board() }.is_valid());
    assert!(!Config { fall_step: STEP_LIMIT + 1, ..unit_board() }.is_valid());
    assert!(Config { fall_step: STEP_LIMIT, ..unit_board() }.is_valid());
    assert!(!Config { move_step: 0, ..unit_board() }.is_valid());
    assert!(!Config { move_step: -1, ..unit_board() }.is_valid());
    assert!(!Config { row_height: 0, ..unit_board() }.is_valid());
    assert!(!Config { row_height: STEP_LIMIT + 1, ..unit_board() }.is_valid());
    assert!(Config { tolerance: 0, ..unit_board() }.is_valid());
    assert!(!Config { tolerance: -1, ..unit_board() }.is_valid());
    assert!(!Config { tolerance: STEP_LIMIT + 1, ..unit_board() }.is_valid());
    assert!(Config { floor: 4 * STEP_LIMIT - COORD_LIMIT, ..unit_board() }.is_valid());
    assert!(!Config { floor: 4 * STEP_LIMIT - COORD_LIMIT - 1, ..unit_board() }.is_valid());
    assert!(!Config { floor: COORD_LIMIT + 1, ..unit_board() }.is_valid());
    assert!(Config { spawn: Block { x: COORD_LIMIT, y: -COORD_LIMIT }, ..unit_board() }.is_valid());
    assert!(!Config { spawn: Block { x: COORD_LIMIT + 1, y: 0 }, ..unit_board() }.is_valid());
    assert!(!Config { spawn: Block { x: 0, y: -COORD_LIMIT - 1 }, ..unit_board() }.is_valid());
}

#[test]
fn an_invalid_configuration_makes_no_game() {
    assert!(GameState::with_config(Config { width: 0, ..unit_board() }).is_none());
    assert!(GameState::with_config(Config { row_height: 0, ..unit_board() }).is_none());
    assert!(GameState::with_config(unit_board()).is_some());
}

#[test]
fn a_new_game_has_a_line_piece_over_an_empty_grid() {
    let state = GameState::new();
    assert_eq!(state.config(), Config::default());
    assert_eq!(state.current(), Block { x: 0, y: 100 });
    assert_eq!(state.current_kind(), PieceKind::I);
    assert!(state.blocks().is_empty());
    assert!(!state.is_game_over());
    assert_eq!(
        state.active_cells(),
        vec![
            Block { x: 0, y: 100 },
            Block { x: 5, y: 100 },
            Block { x: 10, y: 100 },
            Block { x: 15, y: 100 }
        ]
    );
}

#[test]
fn a_tick_lowers_the_piece_by_one_gravity_step() {
    let mut state = GameState::new();
    state.update();
    assert_eq!(state.current(), Block { x: 0, y: 99 });
    state.update();
    state.update();
    assert_eq!(state.current(), Block { x: 0, y: 97 });
    assert!(state.blocks().is_empty());
    assert_eq!(state.current_kind(), PieceKind::I);
}

#[test]
fn moves_shift_the_piece_by_the_move_step() {
    let mut state = GameState::new();
    state.move_left();
    assert_eq!(state.current(), Block { x: -5, y: 100 });
    state.move_right();
    state.move_right();
    assert_eq!(state.current(), Block { x: 5, y: 100 });
    state.move_down();
    assert_eq!(state.current(), Block { x: 5, y: 95 });
    assert_eq!(state.active_cells()[3], Block { x: 20, y: 95 });
    assert!(state.blocks().is_empty());
}

#[test]
fn moves_add_up_to_the_sum_of_their_steps() {
    let mut state = start(unit_board());
    for _ in 0..7 {
        state.move_left();
    }
    for _ in 0..3 {
        state.move_right();
    }
    for _ in 0..4 {
        state.move_down();
    }
    assert_eq!(state.current(), Block { x: 5 - 7 + 3, y: 18 - 4 });
}

#[test]
fn active_cells_read_twice_are_identical() {
    let mut state = start(unit_board());
    state.move_left();
    state.update();
    let first = state.active_cells();
    let second = state.active_cells();
    assert_eq!(first, second);
    assert_eq!(state.blocks(), state.blocks());
}

#[test]
fn line_piece_falls_to_the_floor_and_locks() {
    let mut state = start(unit_board());
    for tick in 1..18 {
        state.update();
        assert_eq!(state.current(), Block { x: 5, y: 18 - tick });
        assert!(state.blocks().is_empty());
        assert_eq!(state.current_kind(), PieceKind::I);
    }
    state.update();
    assert_eq!(
        state.blocks(),
        vec![
            Block { x: 5, y: 0 },
            Block { x: 6, y: 0 },
            Block { x: 7, y: 0 },
            Block { x: 8, y: 0 }
        ]
    );
    assert_eq!(state.current_kind(), PieceKind::L);
    assert_eq!(state.current(), Block { x: 5, y: 18 });
    assert!(!state.is_game_over());
}

#[test]
fn a_lock_adds_the_cells_of_the_piece_and_respawns() {
    let mut state = start(unit_board());
    for _ in 0..18 {
        state.update();
    }
    assert_eq!(state.blocks().len(), 4);
    for _ in 0..3 {
        state.move_left();
    }
    for _ in 0..17 {
        state.update();
    }
    let falling = state.active_cells();
    assert_eq!(falling[0], Block { x: 2, y: 1 });
    state.update();
    let settled = state.blocks();
    assert_eq!(settled.len(), 8);
    assert_eq!(
        settled[4..].to_vec(),
        vec![
            Block { x: 2, y: 0 },
            Block { x: 2, y: 1 },
            Block { x: 2, y: 2 },
            Block { x: 3, y: 0 }
        ]
    );
    assert_eq!(state.current_kind(), PieceKind::T);
    assert_eq!(state.current(), Block { x: 5, y: 18 });
    for _ in 0..18 {
        state.update();
    }
    assert_eq!(state.blocks().len(), 12);
    assert_eq!(state.current_kind(), PieceKind::I);
}

#[test]
fn on_the_default_board_pieces_lock_at_the_floor() {
    let mut state = GameState::new();
    for _ in 0..189 {
        state.update();
    }
    assert_eq!(state.current(), Block { x: 0, y: -89 });
    assert!(state.blocks().is_empty());
    state.update();
    assert_eq!(
        state.blocks(),
        vec![
            Block { x: 0, y: -90 },
            Block { x: 5, y: -90 },
            Block { x: 10, y: -90 },
            Block { x: 15, y: -90 }
        ]
    );
    assert_eq!(state.current(), Block { x: 0, y: 100 });
    assert_eq!(state.current_kind(), PieceKind::L);
}

#[test]
fn a_move_does_not_lock_a_piece_on_a_board_that_locks_by_ticks() {
    let mut state = start(unit_board());
    for _ in 0..20 {
        state.move_down();
    }
    assert_eq!(state.current(), Block { x: 5, y: -2 });
    assert!(state.blocks().is_empty());
    state.update();
    assert_eq!(
        state.blocks(),
        vec![
            Block { x: 5, y: -3 },
            Block { x: 6, y: -3 },
            Block { x: 7, y: -3 },
            Block { x: 8, y: -3 }
        ]
    );
    assert_eq!(state.current(), Block { x: 5, y: 18 });
}

#[test]
fn a_move_locks_a_piece_on_a_board_that_locks_on_moves() {
    let mut state = start(Config { lock_on_move: true, ..unit_board() });
    for _ in 0..17 {
        state.move_down();
    }
    assert_eq!(state.current(), Block { x: 5, y: 1 });
    state.move_left();
    assert_eq!(state.current(), Block { x: 4, y: 1 });
    assert!(state.blocks().is_empty());
    state.move_down();
    assert_eq!(
        state.blocks(),
        vec![
            Block { x: 4, y: 0 },
            Block { x: 5, y: 0 },
            Block { x: 6, y: 0 },
            Block { x: 7, y: 0 }
        ]
    );
    assert_eq!(state.current(), Block { x: 5, y: 18 });
    assert_eq!(state.current_kind(), PieceKind::L);
}

#[test]
fn a_settled_block_above_holds_a_falling_piece() {
    let config = Config { tolerance: 3, ..unit_board() };
    let mut state = start(config);
    for _ in 0..18 {
        state.update();
    }
    for _ in 0..18 {
        state.update();
    }
    assert_eq!(state.blocks().len(), 8);
    assert_eq!(state.blocks()[6], Block { x: 5, y: 2 });
    assert_eq!(state.current_kind(), PieceKind::T);
    for _ in 0..17 {
        state.move_down();
    }
    assert_eq!(state.current(), Block { x: 5, y: 1 });
    assert_eq!(state.blocks().len(), 8);
    state.update();
    let settled = state.blocks();
    assert_eq!(settled.len(), 12);
    assert_eq!(
        settled[8..].to_vec(),
        vec![
            Block { x: 5, y: 0 },
            Block { x: 6, y: 0 },
            Block { x: 7, y: 0 },
            Block { x: 6, y: 1 }
        ]
    );
}

#[test]
fn a_row_filled_by_a_lock_is_cleared_with_it() {
    let mut state = start(Config { width: 4, ..unit_board() });
    for _ in 0..18 {
        state.update();
    }
    assert!(state.blocks().is_empty());
    assert_eq!(state.current_kind(), PieceKind::L);
    assert_eq!(state.current(), Block { x: 5, y: 18 });
}

#[test]
fn cells_above_a_row_cleared_by_a_lock_drop_into_it() {
    let mut state = start(Config { width: 6, ..unit_board() });
    for _ in 0..18 {
        state.update();
    }
    assert_eq!(state.blocks().len(), 4);
    for _ in 0..18 {
        state.update();
    }
    assert_eq!(state.blocks(), vec![Block { x: 5, y: 0 }, Block { x: 5, y: 1 }]);
    assert_eq!(state.current_kind(), PieceKind::T);
}

#[test]
fn ten_cells_in_a_row_are_cleared_by_the_lock_that_completes_them() {
    let mut state = start(unit_board());
    for shift in [5, 1] {
        for _ in 0..shift {
            state.move_left();
        }
        for _ in 0..18 {
            state.update();
        }
    }
    assert_eq!(state.blocks().len(), 8);
    for _ in 0..18 {
        state.update();
    }
    let before = state.blocks();
    assert_eq!(before.len(), 12);
    assert_eq!(before.iter().filter(|b| b.y == 0).count(), 9);
    assert_eq!(state.current_kind(), PieceKind::I);
    for _ in 0..18 {
        state.update();
    }
    assert_eq!(
        state.blocks(),
        vec![Block { x: 4, y: 0 }, Block { x: 4, y: 1 }, Block { x: 6, y: 0 }]
    );
    assert_eq!(state.current_kind(), PieceKind::L);
}

#[test]
fn a_piece_spawned_on_the_floor_ends_the_game_at_once() {
    let state = start(Config { floor: 18, ..unit_board() });
    assert!(state.is_game_over());
    assert!(state.blocks().is_empty());
}

#[test]
fn a_held_fresh_piece_ends_the_game() {
    let config = Config { tolerance: 2, spawn: Block { x: 0, y: 1 }, ..unit_board() };
    let mut state = start(config);
    assert!(!state.is_game_over());
    state.update();
    assert_eq!(state.blocks().len(), 4);
    assert!(!state.is_game_over());
    state.update();
    assert_eq!(state.blocks().len(), 8);
    assert_eq!(state.current_kind(), PieceKind::T);
    assert_eq!(state.current(), Block { x: 0, y: 1 });
    assert!(state.is_game_over());
}

#[test]
fn a_finished_game_no_longer_changes() {
    let config = Config { tolerance: 2, spawn: Block { x: 0, y: 1 }, ..unit_board() };
    let mut state = start(config);
    state.update();
    state.update();
    assert!(state.is_game_over());
    let settled = state.blocks();
    let cells = state.active_cells();
    for _ in 0..5 {
        state.update();
        state.move_left();
        state.move_right();
        state.move_right();
        state.move_down();
    }
    assert!(state.is_game_over());
    assert_eq!(state.blocks(), settled);
    assert_eq!(state.active_cells(), cells);
    assert_eq!(state.current_kind(), PieceKind::T);
}

#[test]
fn a_move_past_the_coordinate_limit_is_refused() {
    let config = Config {
        move_step: STEP_LIMIT,
        spawn: Block { x: COORD_LIMIT - STEP_LIMIT - 1, y: 18 },
        ..unit_board()
    };
    let mut state = start(config);
    state.move_right();
    assert_eq!(state.current(), Block { x: COORD_LIMIT - 1, y: 18 });
    state.move_right();
    assert_eq!(state.current(), Block { x: COORD_LIMIT - 1, y: 18 });
    state.move_left();
    assert_eq!(state.current(), Block { x: COORD_LIMIT - 1 - STEP_LIMIT, y: 18 });
}

#[test]
fn settled_blocks_are_listed_oldest_first() {
    let mut state = start(unit_board());
    for _ in 0..18 {
        state.update();
    }
    state.move_right();
    state.move_right();
    for _ in 0..18 {
        state.update();
    }
    let settled = state.blocks();
    assert_eq!(settled[0], Block { x: 5, y: 0 });
    assert_eq!(settled[3], Block { x: 8, y: 0 });
    assert_eq!(settled[4], Block { x: 7, y: 0 });
    assert_eq!(settled[7], Block { x: 8, y: 0 });
}
