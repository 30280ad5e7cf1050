//! Turning key presses into the direction the snake is asked to take.

use vstd::prelude::*;

use crate::geometry::{opposite, Direction};

verus! {

/// A key press as the terminal reports it: one of the arrow keys, or any
/// other key.
#[derive(Clone, Copy, Debug, PartialEq, Eq, Structural)]
pub enum Key {
    Up,
    Down,
    Left,
    Right,
    Other,
}

/// The direction that an arrow key asks for; `None` for any other key.
pub open spec fn key_direction(k: Key) -> Option<Direction> {
    match k {
        Key::Up => Some(Direction::Up),
        Key::Down => Some(Direction::Down),
        Key::Left => Some(Direction::Left),
        Key::Right => Some(Direction::Right),
        Key::Other => None,
    }
}

/// The direction for the next tick: the one that the arrow key `key` asks
/// for, unless it is the reverse of `previous`; with no key, another key or
/// a reversal, `previous` is kept.
pub fn get_next_move(key: Option<Key>, previous: Direction) -> (d: Direction)
    ensures
        ({
            match key {
                Some(k) => match key_direction(k) {
                    Some(asked) => d == if asked == opposite(previous) {
                        previous
                    } else {
                        asked
                    },
                    None => d == previous,
                },
                None => d == previous,
            }
        }),
{
    match (key, previous) {
        (Some(Key::Left), Direction::Right) => previous,
        (Some(Key::Right), Direction::Left) => previous,
        (Some(Key::Up), Direction::Down) => previous,
        (Some(Key::Down), Direction::Up) => previous,
        (Some(Key::Right), _) => Direction::Right,
        (Some(Key::Left), _) => Direction::Left,
        (Some(Key::Down), _) => Direction::Down,
        (Some(Key::Up), _) => Direction::Up,
        _ => previous,
    }
}

} // verus!
