//! Rules engine for 8x8 Reversi: board state, move legality, capture and
//! turn order, each stated over a mathematical model and proved.

pub mod disc;
pub mod rules;
mod lemmas;
pub mod field;
pub mod game;
pub mod laws;
