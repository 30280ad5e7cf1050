//! A snake game on a fixed grid: coordinate arithmetic, food placement and the
//! state machine that advances the snake by one tick, all verified.

pub mod board;
pub mod food;
pub mod geometry;
pub mod input;
pub mod state;
