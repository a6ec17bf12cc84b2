//! Castling side and game-phase enums.

use vstd::prelude::*;

verus! {

/// Which side of the board a castle happens on.
#[derive(Copy, Clone, PartialEq, Eq, Structural, Debug)]
pub enum CastleType {
    /// Toward the h/i/j files.
    KingSide,
    /// Toward the c/e/f files.
    QueenSide,
}

/// Game phases.
#[derive(Copy, Clone, PartialEq, Eq, Structural, Debug)]
pub enum Phase {
    /// Middlegame.
    MG,
    /// Endgame.
    EG,
}

} // verus!
