//! Eagle and Hawk attacks.
//!
//! **Eagle** moves orthogonally, **Hawk** diagonally. Both are jumping
//! pieces: they can land on ANY square within 4 steps regardless of
//! intervening occupancy (the `_occupied` argument is ignored).

use vstd::prelude::*;

use super::boards::{ray_attacks, ray_reach};
use crate::core_types::bitboard::BitBoard;
use crate::core_types::sq::SQ;

verus! {

/// An eagle on `s` reaches `t`: up to 4 orthogonal steps, jumping.
pub open spec fn eagle_reach(s: int, t: int) -> bool {
    let e = BitBoard(0, 0, 0);
    ||| ray_reach(s, t, 0, 1, e, 4, false)
    ||| ray_reach(s, t, 0, -1, e, 4, false)
    ||| ray_reach(s, t, 1, 0, e, 4, false)
    ||| ray_reach(s, t, -1, 0, e, 4, false)
}

/// A hawk on `s` reaches `t`: up to 4 diagonal steps, jumping.
pub open spec fn hawk_reach(s: int, t: int) -> bool {
    let e = BitBoard(0, 0, 0);
    ||| ray_reach(s, t, 1, 1, e, 4, false)
    ||| ray_reach(s, t, -1, 1, e, 4, false)
    ||| ray_reach(s, t, 1, -1, e, 4, false)
    ||| ray_reach(s, t, -1, -1, e, 4, false)
}

/// Returns all squares reachable by an Eagle (orthogonal jumper, max 4 steps).
pub fn eagle_attacks(sq: SQ, _occupied: BitBoard) -> (r: BitBoard)
    requires
        sq.0 < 144,
    ensures
        r.valid(),
        forall|t: int| #[trigger] r.has(t) == eagle_reach(sq.0 as int, t),
{
    let e = BitBoard::empty();
    let a = ray_attacks(sq, 0, 1, e, 4, false);
    let b = ray_attacks(sq, 0, -1, e, 4, false);
    let c = ray_attacks(sq, 1, 0, e, 4, false);
    let d = ray_attacks(sq, -1, 0, e, 4, false);
    a.or_bb(b).or_bb(c).or_bb(d)
}

/// Returns all squares reachable by a Hawk (diagonal jumper, max 4 steps).
pub fn hawk_attacks(sq: SQ, _occupied: BitBoard) -> (r: BitBoard)
    requires
        sq.0 < 144,
    ensures
        r.valid(),
        forall|t: int| #[trigger] r.has(t) == hawk_reach(sq.0 as int, t),
{
    let e = BitBoard::empty();
    let a = ray_attacks(sq, 1, 1, e, 4, false);
    let b = ray_attacks(sq, -1, 1, e, 4, false);
    let c = ray_attacks(sq, 1, -1, e, 4, false);
    let d = ray_attacks(sq, -1, -1, e, 4, false);
    a.or_bb(b).or_bb(c).or_bb(d)
}

} // verus!
