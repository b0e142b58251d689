//! Rules of a falling-block puzzle game: the playfield and its line
//! clearing, the falling piece with its moves and turns, scoring and speed,
//! and the player's input.

pub mod display;
pub mod game;
pub mod input;
pub mod tetris;
