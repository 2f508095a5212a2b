use rouge_tutorial::movement::{clamp_move, try_move, Direction};

#[test]
fn clamp_holds_at_the_top_left_corner() {
    assert_eq!(clamp_move(0, 0, -1, -1), (0, 0));
}

#[test]
fn clamp_holds_at_the_bottom_right_corner() {
    assert_eq!(clamp_move(79, 49, 5, 5), (79, 49));
}

#[test]
fn clamp_passes_an_in_bounds_move_through() {
    assert_eq!(clamp_move(40, 25, 1, 0), (41, 25));
    assert_eq!(clamp_move(40, 25, 0, -1), (40, 24));
}

#[test]
fn clamp_cuts_a_large_move_at_each_border() {
    assert_eq!(clamp_move(10, 10, -100, 200), (0, 49));
    assert_eq!(clamp_move(10, 10, 200, -100), (79, 0));
}

#[test]
fn try_move_steps_one_tile_in_each_direction() {
    assert_eq!(try_move(40, 25, Direction::Left), (39, 25));
    assert_eq!(try_move(40, 25, Direction::Right), (41, 25));
    assert_eq!(try_move(40, 25, Direction::Up), (40, 24));
    assert_eq!(try_move(40, 25, Direction::Down), (40, 26));
}

#[test]
fn try_move_clamps_at_the_borders() {
    assert_eq!(try_move(0, 0, Direction::Left), (0, 0));
    assert_eq!(try_move(0, 0, Direction::Up), (0, 0));
    assert_eq!(try_move(79, 49, Direction::Right), (79, 49));
    assert_eq!(try_move(79, 49, Direction::Down), (79, 49));
}
