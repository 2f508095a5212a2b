//! Clamping a proposed displacement to the bounds of the grid.
//!
//! This is bounds-only clamping: tile contents are never consulted, so an
//! entity may cross walls. That matches the behaviour this crate models.

use vstd::prelude::*;
use crate::map::{MAP_WIDTH, MAP_HEIGHT};

verus! {

/// `v` forced into `[lo, hi]`.
pub open spec fn clamp_spec(v: int, lo: int, hi: int) -> int {
    if v < lo {
        lo
    } else if v > hi {
        hi
    } else {
        v
    }
}

/// The new position after moving by `(delta_x, delta_y)` from `(current_x, current_y)`,
/// with each coordinate clamped to the grid: x into `[0, 79]`, y into `[0, 49]`.
pub fn clamp_move(current_x: i32, current_y: i32, delta_x: i32, delta_y: i32) -> (r: (
    i32,
    i32,
))
    requires
        i32::MIN <= current_x + delta_x <= i32::MAX,
        i32::MIN <= current_y + delta_y <= i32::MAX,
    ensures
        r.0 == clamp_spec(current_x + delta_x, 0, MAP_WIDTH - 1),
        r.1 == clamp_spec(current_y + delta_y, 0, MAP_HEIGHT - 1),
{
    let nx = current_x + delta_x;
    let ny = current_y + delta_y;
    let cx = if nx < 0 {
        0
    } else if nx > MAP_WIDTH - 1 {
        MAP_WIDTH - 1
    } else {
        nx
    };
    let cy = if ny < 0 {
        0
    } else if ny > MAP_HEIGHT - 1 {
        MAP_HEIGHT - 1
    } else {
        ny
    };
    (cx, cy)
}

/// A movement intent, as the input layer hands it over.
#[derive(Clone, Copy, Debug, PartialEq, Eq, Structural)]
pub enum Direction {
    Up,
    Down,
    Left,
    Right,
}

/// The unit displacement each direction stands for.
pub open spec fn delta_of(direction: Direction) -> (int, int) {
    match direction {
        Direction::Up => (0, -1),
        Direction::Down => (0, 1),
        Direction::Left => (-1, 0),
        Direction::Right => (1, 0),
    }
}

/// The new position after one step in `direction` from
/// `(current_x, current_y)`, clamped to the grid by `clamp_move`.
pub fn try_move(current_x: i32, current_y: i32, direction: Direction) -> (r: (i32, i32))
    requires
        i32::MIN < current_x < i32::MAX,
        i32::MIN < current_y < i32::MAX,
    ensures
        r.0 == clamp_spec(current_x + delta_of(direction).0, 0, MAP_WIDTH - 1),
        r.1 == clamp_spec(current_y + delta_of(direction).1, 0, MAP_HEIGHT - 1),
{
    match direction {
        Direction::Up => clamp_move(current_x, current_y, 0, -1),
        Direction::Down => clamp_move(current_x, current_y, 0, 1),
        Direction::Left => clamp_move(current_x, current_y, -1, 0),
        Direction::Right => clamp_move(current_x, current_y, 1, 0),
    }
}

} // verus!
