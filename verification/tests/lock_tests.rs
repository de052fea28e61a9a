use blockfall::cell::Block;
use blockfall::lock::{check_collision, hit_bottom};

#[test]
fn a_cell_at_the_floor_has_hit_bottom() {
    let cells = vec![Block { x: 0, y: 3 }, Block { x: 1, y: 0 }];
    assert!(hit_bottom(&cells, 0));
}

#[test]
fn a_cell_under_the_floor_has_hit_bottom() {
    let cells = vec![Block { x: 0, y: -91 }];
    assert!(hit_bottom(&cells, -90));
}

#[test]
fn cells_above_the_floor_have_not_hit_bottom() {
    let cells = vec![Block { x: 0, y: 1 }, Block { x: 1, y: 2 }];
    assert!(!hit_bottom(&cells, 0));
    assert!(!hit_bottom(&Vec::new(), 0));
}

#[test]
fn a_settled_block_just_above_holds_the_piece() {
    let cells = vec![Block { x: 0, y: 0 }];
    let settled = vec![Block { x: 0, y: 10 }];
    assert!(check_collision(&cells, &settled, 20));
}

#[test]
fn a_settled_block_at_the_same_height_holds_nothing() {
    let cells = vec![Block { x: 0, y: 0 }];
    let settled = vec![Block { x: 0, y: 0 }, Block { x: 3, y: 0 }];
    assert!(!check_collision(&cells, &settled, 20));
}

#[test]
fn a_settled_block_below_holds_nothing() {
    let cells = vec![Block { x: 0, y: 0 }];
    let settled = vec![Block { x: 0, y: -1 }, Block { x: 0, y: -19 }];
    assert!(!check_collision(&cells, &settled, 20));
}

#[test]
fn the_tolerance_is_strict_on_both_axes() {
    let cells = vec![Block { x: 0, y: 0 }];
    assert!(check_collision(&cells, &vec![Block { x: 19, y: 19 }], 20));
    assert!(check_collision(&cells, &vec![Block { x: -19, y: 1 }], 20));
    assert!(!check_collision(&cells, &vec![Block { x: 20, y: 1 }], 20));
    assert!(!check_collision(&cells, &vec![Block { x: -20, y: 1 }], 20));
    assert!(!check_collision(&cells, &vec![Block { x: 0, y: 20 }], 20));
}

#[test]
fn any_cell_of_the_piece_can_be_held() {
    let cells = vec![Block { x: 0, y: 0 }, Block { x: 50, y: 0 }, Block { x: 100, y: 0 }];
    let settled = vec![Block { x: -200, y: 5 }, Block { x: 105, y: 5 }];
    assert!(check_collision(&cells, &settled, 20));
    let far = vec![Block { x: -200, y: 5 }, Block { x: 130, y: 5 }];
    assert!(!check_collision(&cells, &far, 20));
}

#[test]
fn a_tolerance_of_zero_holds_nothing() {
    let cells = vec![Block { x: 0, y: 0 }];
    let settled = vec![Block { x: 0, y: 1 }, Block { x: 0, y: 0 }];
    assert!(!check_collision(&cells, &settled, 0));
}

#[test]
fn an_empty_grid_holds_nothing() {
    let cells = vec![Block { x: 0, y: 0 }];
    assert!(!check_collision(&cells, &Vec::new(), 20));
    assert!(!check_collision(&Vec::new(), &cells, 20));
}

#[test]
fn extreme_coordinates_are_compared_without_overflow() {
    let cells = vec![Block { x: i64::MIN, y: i64::MIN }];
    let settled = vec![Block { x: i64::MAX, y: i64::MAX }];
    assert!(!check_collision(&cells, &settled, 20));
    assert!(!check_collision(&settled, &cells, 20));
}
