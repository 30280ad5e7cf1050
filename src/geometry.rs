//! Grid geometry: cells, directions, unit steps and bounds checks.

use vstd::prelude::*;

verus! {

/// One of the four directions in which the snake can travel.
#[derive(Clone, Copy, Debug, PartialEq, Eq, Structural)]
pub enum Direction {
    Up,
    Down,
    Left,
    Right,
}

/// A cell of the board: column `x`, row `y`, both counted from zero.
#[derive(Clone, Copy, Debug, PartialEq, Eq, Structural)]
pub struct Point {
    pub x: u32,
    pub y: u32,
}

/// The unit offset that one step in direction `d` adds to a cell.
pub open spec fn delta(d: Direction) -> (int, int) {
    match d {
        Direction::Up => (0, -1),
        Direction::Down => (0, 1),
        Direction::Left => (-1, 0),
        Direction::Right => (1, 0),
    }
}

/// The coordinates one step from `p` in direction `d`; they may lie off the board.
pub open spec fn step_spec(p: Point, d: Direction) -> (int, int) {
    (p.x + delta(d).0, p.y + delta(d).1)
}

/// The direction that undoes a step in direction `d`.
pub open spec fn opposite(d: Direction) -> Direction {
    match d {
        Direction::Up => Direction::Down,
        Direction::Down => Direction::Up,
        Direction::Left => Direction::Right,
        Direction::Right => Direction::Left,
    }
}

/// Whether `(x, y)` lies on a board of `width` columns and `height` rows.
pub open spec fn in_bounds_spec(x: int, y: int, width: int, height: int) -> bool {
    0 <= x < width && 0 <= y < height
}

/// Whether cell `p` lies on a board of `width` columns and `height` rows.
pub open spec fn cell_in_bounds(p: Point, width: int, height: int) -> bool {
    in_bounds_spec(p.x as int, p.y as int, width, height)
}

/// The cell with coordinates `c`, which must both be non-negative and fit in `u32`.
pub open spec fn point_of(c: (int, int)) -> Point {
    Point { x: c.0 as u32, y: c.1 as u32 }
}

/// The distance between `a` and `b` on a line.
pub open spec fn abs_diff(a: int, b: int) -> int {
    if a >= b {
        a - b
    } else {
        b - a
    }
}

/// Whether `a` and `b` are at Manhattan distance one.
pub open spec fn adjacent(a: Point, b: Point) -> bool {
    abs_diff(a.x as int, b.x as int) + abs_diff(a.y as int, b.y as int) == 1
}

/// The direction of the step that leads from `from` to `to`, for adjacent cells.
pub open spec fn direction_between(from: Point, to: Point) -> Direction {
    if to.x > from.x {
        Direction::Right
    } else if to.x < from.x {
        Direction::Left
    } else if to.y > from.y {
        Direction::Down
    } else {
        Direction::Up
    }
}

/// Stepping from a cell towards an adjacent one reaches it.
pub proof fn lemma_direction_between(from: Point, to: Point)
    requires
        adjacent(from, to),
    ensures
        step_spec(from, direction_between(from, to)) == (to.x as int, to.y as int),
{
}

/// The coordinates one step from `p` in direction `d`.
pub fn step(p: Point, d: Direction) -> (r: (i64, i64))
    ensures
        (r.0 as int, r.1 as int) == step_spec(p, d),
{
    let x = p.x as i64;
    let y = p.y as i64;
    match d {
        Direction::Up => (x, y - 1),
        Direction::Down => (x, y + 1),
        Direction::Left => (x - 1, y),
        Direction::Right => (x + 1, y),
    }
}

/// Whether `(x, y)` lies on a board of `width` columns and `height` rows.
pub fn in_bounds(x: i64, y: i64, width: u32, height: u32) -> (r: bool)
    ensures
        r == in_bounds_spec(x as int, y as int, width as int, height as int),
{
    0 <= x && x < width as i64 && 0 <= y && y < height as i64
}

/// The direction in which a snake whose head is `head` and whose second cell
/// is `neck` is travelling.
pub fn travel_direction(neck: Point, head: Point) -> (d: Direction)
    ensures
        d == direction_between(neck, head),
{
    if head.x > neck.x {
        Direction::Right
    } else if head.x < neck.x {
        Direction::Left
    } else if head.y > neck.y {
        Direction::Down
    } else {
        Direction::Up
    }
}

} // verus!
