//! Ray-based sliding attacks for Rook, Bishop, and Queen: each ray runs to
//! the board edge and stops on (and includes) the first occupied square.

use vstd::prelude::*;

use super::boards::{ray_attacks, ray_reach};
use crate::core_types::bitboard::BitBoard;
use crate::core_types::sq::SQ;

verus! {

/// A rook on `s` attacks `t` given the occupied squares `occ`.
pub open spec fn rook_reach(s: int, t: int, occ: BitBoard) -> bool {
    ||| ray_reach(s, t, 0, 1, occ, 11, true)
    ||| ray_reach(s, t, 0, -1, occ, 11, true)
    ||| ray_reach(s, t, 1, 0, occ, 11, true)
    ||| ray_reach(s, t, -1, 0, occ, 11, true)
}

/// A bishop on `s` attacks `t` given the occupied squares `occ`.
pub open spec fn bishop_reach(s: int, t: int, occ: BitBoard) -> bool {
    ||| ray_reach(s, t, 1, 1, occ, 11, true)
    ||| ray_reach(s, t, -1, 1, occ, 11, true)
    ||| ray_reach(s, t, 1, -1, occ, 11, true)
    ||| ray_reach(s, t, -1, -1, occ, 11, true)
}

/// A queen on `s` attacks `t` given the occupied squares `occ`.
pub open spec fn queen_reach(s: int, t: int, occ: BitBoard) -> bool {
    rook_reach(s, t, occ) || bishop_reach(s, t, occ)
}

/// Generates rook attacks from `sq` given `occupied` pieces.
pub fn rook_attacks(sq: SQ, occupied: BitBoard) -> (r: BitBoard)
    requires
        sq.0 < 144,
    ensures
        r.valid(),
        forall|t: int| #[trigger] r.has(t) == rook_reach(sq.0 as int, t, occupied),
{
    let a = ray_attacks(sq, 0, 1, occupied, 11, true);
    let b = ray_attacks(sq, 0, -1, occupied, 11, true);
    let c = ray_attacks(sq, 1, 0, occupied, 11, true);
    let d = ray_attacks(sq, -1, 0, occupied, 11, true);
    a.or_bb(b).or_bb(c).or_bb(d)
}

/// Generates bishop attacks from `sq` given `occupied` pieces.
pub fn bishop_attacks(sq: SQ, occupied: BitBoard) -> (r: BitBoard)
    requires
        sq.0 < 144,
    ensures
        r.valid(),
        forall|t: int| #[trigger] r.has(t) == bishop_reach(sq.0 as int, t, occupied),
{
    let a = ray_attacks(sq, 1, 1, occupied, 11, true);
    let b = ray_attacks(sq, -1, 1, occupied, 11, true);
    let c = ray_attacks(sq, 1, -1, occupied, 11, true);
    let d = ray_attacks(sq, -1, -1, occupied, 11, true);
    a.or_bb(b).or_bb(c).or_bb(d)
}

/// Generates queen attacks (rook + bishop).
pub fn queen_attacks(sq: SQ, occupied: BitBoard) -> (r: BitBoard)
    requires
        sq.0 < 144,
    ensures
        r.valid(),
        forall|t: int| #[trigger] r.has(t) == queen_reach(sq.0 as int, t, occupied),
{
    rook_attacks(sq, occupied).or_bb(bishop_attacks(sq, occupied))
}

/// Rook attacks as if the board were empty.
pub fn rook_pseudo_attacks(sq: SQ) -> (r: BitBoard)
    requires
        sq.0 < 144,
    ensures
        r.valid(),
        forall|t: int| #[trigger] r.has(t) == rook_reach(sq.0 as int, t, BitBoard(0, 0, 0)),
{
    rook_attacks(sq, BitBoard::empty())
}

/// Bishop attacks as if the board were empty.
pub fn bishop_pseudo_attacks(sq: SQ) -> (r: BitBoard)
    requires
        sq.0 < 144,
    ensures
        r.valid(),
        forall|t: int| #[trigger] r.has(t) == bishop_reach(sq.0 as int, t, BitBoard(0, 0, 0)),
{
    bishop_attacks(sq, BitBoard::empty())
}

/// Queen attacks as if the board were empty.
pub fn queen_pseudo_attacks(sq: SQ) -> (r: BitBoard)
    requires
        sq.0 < 144,
    ensures
        r.valid(),
        forall|t: int| #[trigger] r.has(t) == queen_reach(sq.0 as int, t, BitBoard(0, 0, 0)),
{
    queen_attacks(sq, BitBoard::empty())
}

} // verus!
