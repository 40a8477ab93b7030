//! A chess rules engine with a fixed-depth minimax search.
//!
//! The board is a 64-square array with cached king locations, castling
//! rights, an en-passant target and the half-move clock.  Moves are applied
//! and undone in place; the undo operation is proved to restore the board
//! exactly.  Move generation, the legality filter, the static evaluation
//! and the minimax search are all specified against a mathematical model
//! of the position.

use vstd::prelude::*;

pub mod board;
pub mod eval;
pub mod fen;
pub mod movefilter;
pub mod movegen;
pub mod search;

verus! {

use crate::board::Color;

/// The color assigned to the human player by the interactive driver.
pub fn select_color() -> (c: Color)
    ensures
        c == Color::White,
{
    Color::White
}

} // verus!
