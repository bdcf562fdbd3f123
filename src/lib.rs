//! Rules of a two-player game on a three-by-three board: the board's cells,
//! their text rendering, and detection of a completed line.

pub mod rules;

pub use rules::{Cell, Game, Player};
