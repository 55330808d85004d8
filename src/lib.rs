//! Rules engine for a sliding-tile merge puzzle on a square grid.
//!
//! A cell holds a rank: 0 is empty, `r >= 1` is a tile worth `2^r`.
//! The grid is stored column-major: the cell at row `row`, column `col`
//! sits at index `row + col * size`.

pub mod direction;
pub mod line;
pub mod board;
mod random;
pub mod game;
pub mod laws;

pub use direction::{Axis, Direction};
pub use line::merge_line;
pub use board::{lines, merge, lines_to_vec, predict_merge, check_if_game_over, Predictions};
pub use game::{Game, GameState};


