//! A Connect-Four engine: a gravity-drop token board, win and tie detection,
//! and a depth-limited computer opponent.
//!
//! The board is a square grid of cells; a placement drops a token into a
//! column and reports the resulting game state.  The computer player scores
//! every candidate column by a depth-bounded summation of reachable wins and
//! picks the best one, breaking ties through a shuffled exploration order.

pub mod ai;
pub mod board;
pub mod cartesian;
pub mod game;
pub mod player;

use vstd::prelude::*;

verus! {

/// The two recoverable failures of a placement: the column index lies outside
/// the board, or the column has no empty cell left.
#[derive(Debug, Clone, Copy, PartialEq, Eq, Structural)]
pub enum Error {
    OutOfBounds,
    ColumnFull,
}

} // verus!
