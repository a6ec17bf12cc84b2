//! Initialization and public accessor functions for the helper module.

use vstd::prelude::*;

use super::boards::{self, king_target, knight_target, line_has, between_has, pawn_target};
use super::jumping::{self, eagle_reach, hawk_reach};
use super::sliding::{self, bishop_reach, queen_reach, rook_reach};
use crate::core_types::bitboard::BitBoard;
use crate::core_types::piece_type::PieceType;
use crate::core_types::player::Player;
use crate::core_types::sq::{sq_distance, SQ};

verus! {

/// A piece of kind `t` on `s` attacks `x`, given the occupied squares `occ`
/// (pawns are excluded: their attacks depend on the side).
pub open spec fn piece_reach(t: PieceType, s: int, x: int, occ: BitBoard) -> bool {
    match t {
        PieceType::N => knight_target(s, x),
        PieceType::B => bishop_reach(s, x, occ),
        PieceType::R => rook_reach(s, x, occ),
        PieceType::Q => queen_reach(s, x, occ),
        PieceType::K => king_target(s, x),
        PieceType::E => eagle_reach(s, x),
        PieceType::H => hawk_reach(s, x),
        _ => false,
    }
}

/// Nothing to prepare: attack sets are computed on demand.
pub fn init_statics() {
    boards::init_boards();
}

/// Knight attacks from a square.
pub fn knight_attacks(sq: SQ) -> (r: BitBoard)
    requires
        sq.0 < 144,
    ensures
        r.valid(),
        forall|t: int| #[trigger] r.has(t) == knight_target(sq.0 as int, t),
{
    boards::knight_attacks(sq)
}

/// King attacks from a square.
pub fn king_attacks(sq: SQ) -> (r: BitBoard)
    requires
        sq.0 < 144,
    ensures
        r.valid(),
        forall|t: int| #[trigger] r.has(t) == king_target(sq.0 as int, t),
{
    boards::king_attacks(sq)
}

/// Pawn attacks for a player from a square.
pub fn pawn_attacks_sq(player: Player, sq: SQ) -> (r: BitBoard)
    requires
        sq.0 < 144,
    ensures
        r.valid(),
        forall|t: int| #[trigger] r.has(t) == pawn_target(player, sq.0 as int, t),
{
    boards::pawn_attacks(player, sq)
}

/// Rook attacks (sliding).
pub fn rook_attacks(sq: SQ, occupied: BitBoard) -> (r: BitBoard)
    requires
        sq.0 < 144,
    ensures
        r.valid(),
        forall|t: int| #[trigger] r.has(t) == rook_reach(sq.0 as int, t, occupied),
{
    sliding::rook_attacks(sq, occupied)
}

/// Bishop attacks (sliding).
pub fn bishop_attacks(sq: SQ, occupied: BitBoard) -> (r: BitBoard)
    requires
        sq.0 < 144,
    ensures
        r.valid(),
        forall|t: int| #[trigger] r.has(t) == bishop_reach(sq.0 as int, t, occupied),
{
    sliding::bishop_attacks(sq, occupied)
}

/// Queen attacks (sliding).
pub fn queen_attacks(sq: SQ, occupied: BitBoard) -> (r: BitBoard)
    requires
        sq.0 < 144,
    ensures
        r.valid(),
        forall|t: int| #[trigger] r.has(t) == queen_reach(sq.0 as int, t, occupied),
{
    sliding::queen_attacks(sq, occupied)
}

/// Eagle attacks (jumping, orthogonal).
pub fn eagle_attacks(sq: SQ, occupied: BitBoard) -> (r: BitBoard)
    requires
        sq.0 < 144,
    ensures
        r.valid(),
        forall|t: int| #[trigger] r.has(t) == eagle_reach(sq.0 as int, t),
{
    jumping::eagle_attacks(sq, occupied)
}

/// Hawk attacks (jumping, diagonal).
pub fn hawk_attacks(sq: SQ, occupied: BitBoard) -> (r: BitBoard)
    requires
        sq.0 < 144,
    ensures
        r.valid(),
        forall|t: int| #[trigger] r.has(t) == hawk_reach(sq.0 as int, t),
{
    jumping::hawk_attacks(sq, occupied)
}

/// Returns attacks for a given piece type from a given square (empty for
/// pawns and non-pieces).
pub fn piece_attacks(piece_type: PieceType, sq: SQ, occupied: BitBoard) -> (r: BitBoard)
    requires
        sq.0 < 144,
    ensures
        r.valid(),
        forall|t: int| #[trigger] r.has(t) == piece_reach(piece_type, sq.0 as int, t, occupied),
{
    match piece_type {
        PieceType::N => knight_attacks(sq),
        PieceType::B => bishop_attacks(sq, occupied),
        PieceType::R => rook_attacks(sq, occupied),
        PieceType::Q => queen_attacks(sq, occupied),
        PieceType::K => king_attacks(sq),
        PieceType::E => eagle_attacks(sq, occupied),
        PieceType::H => hawk_attacks(sq, occupied),
        _ => BitBoard::empty(),
    }
}

/// Distance between two squares.
pub fn distance(sq1: SQ, sq2: SQ) -> (r: u8)
    requires
        sq1.0 < 144,
        sq2.0 < 144,
    ensures
        r as int == sq_distance(sq1.0 as int, sq2.0 as int),
{
    boards::distance(sq1, sq2)
}

/// Line through two squares.
pub fn line(sq1: SQ, sq2: SQ) -> (r: BitBoard)
    requires
        sq1.0 < 144,
        sq2.0 < 144,
    ensures
        r.valid(),
        forall|t: int| #[trigger] r.has(t) == line_has(sq1.0 as int, sq2.0 as int, t),
{
    boards::line(sq1, sq2)
}

/// Squares between two aligned squares (exclusive).
pub fn between(sq1: SQ, sq2: SQ) -> (r: BitBoard)
    requires
        sq1.0 < 144,
        sq2.0 < 144,
    ensures
        r.valid(),
        forall|t: int| #[trigger] r.has(t) == between_has(sq1.0 as int, sq2.0 as int, t),
{
    boards::between(sq1, sq2)
}

/// Whether three squares are aligned (on the same line).
pub fn aligned(sq1: SQ, sq2: SQ, sq3: SQ) -> (r: bool)
    requires
        sq1.0 < 144,
        sq2.0 < 144,
        sq3.0 < 144,
    ensures
        r == line_has(sq1.0 as int, sq2.0 as int, sq3.0 as int),
{
    boards::aligned(sq1, sq2, sq3)
}

} // verus!
