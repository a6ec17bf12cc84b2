//! Piece-value calibration: which new piece is measured.

use vstd::prelude::*;

verus! {

/// Which new piece is being calibrated.
#[derive(Clone, Copy, Debug, PartialEq, Eq, Structural)]
pub enum PieceUnderTest {
    Eagle,
    Hawk,
}

} // verus!
