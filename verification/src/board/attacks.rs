//! Attack and check queries: which pieces attack a square, and check detection.

use vstd::prelude::*;

use super::Board;
use crate::core_types::bitboard::BitBoard;
use crate::core_types::piece::{owner_of, piece_of, type_of_piece, Piece};
use crate::core_types::piece_type::PieceType;
use crate::core_types::player::{opponent, player_index, Player};
use crate::core_types::sq::SQ;
use crate::helper::boards::{
    king_target, knight_target, lemma_ray_congruent, lemma_ray_monotone, lemma_ray_sym, pawn_target,
};
use crate::helper::jumping::{eagle_reach, hawk_reach};
use crate::helper::prelude::{
    bishop_attacks, eagle_attacks, hawk_attacks, king_attacks, knight_attacks, pawn_attacks_sq,
    piece_reach, rook_attacks,
};
use crate::helper::sliding::{bishop_reach, rook_reach};

verus! {

/// The piece `x` standing on `s` attacks `t`, given the occupied squares `occ`.
pub open spec fn piece_hits(x: Piece, s: int, t: int, occ: BitBoard) -> bool {
    match owner_of(x) {
        None => false,
        Some(p) => if type_of_piece(x) == PieceType::P {
            pawn_target(p, s, t)
        } else {
            piece_reach(type_of_piece(x), s, t, occ)
        },
    }
}

/// Square `s` holds a piece of `p` that attacks `t`.
pub open spec fn attacker_at(locs: Seq<Piece>, p: Player, s: int, t: int, occ: BitBoard) -> bool {
    0 <= s < 144 && owner_of(locs[s]) == Some(p) && piece_hits(locs[s], s, t, occ)
}

/// Some piece of `p` attacks `t`.
pub open spec fn attacked_by(locs: Seq<Piece>, p: Player, t: int, occ: BitBoard) -> bool {
    exists|s: int| #[trigger] attacker_at(locs, p, s, t, occ)
}

/// Attacks along lines read the same in both directions.
pub proof fn lemma_reach_sym(s: int, t: int, occ: BitBoard)
    requires
        0 <= s < 144,
        0 <= t < 144,
    ensures
        rook_reach(s, t, occ) == rook_reach(t, s, occ),
        bishop_reach(s, t, occ) == bishop_reach(t, s, occ),
        eagle_reach(s, t) == eagle_reach(t, s),
        hawk_reach(s, t) == hawk_reach(t, s),
        knight_target(s, t) == knight_target(t, s),
        king_target(s, t) == king_target(t, s),
        pawn_target(Player::White, s, t) == pawn_target(Player::Black, t, s),
        pawn_target(Player::Black, s, t) == pawn_target(Player::White, t, s),
{
    let e = BitBoard(0, 0, 0);
    lemma_ray_sym(s, t, 0, 1, occ, 11, true);
    lemma_ray_sym(s, t, 0, -1, occ, 11, true);
    lemma_ray_sym(s, t, 1, 0, occ, 11, true);
    lemma_ray_sym(s, t, -1, 0, occ, 11, true);
    lemma_ray_sym(s, t, 1, 1, occ, 11, true);
    lemma_ray_sym(s, t, -1, 1, occ, 11, true);
    lemma_ray_sym(s, t, 1, -1, occ, 11, true);
    lemma_ray_sym(s, t, -1, -1, occ, 11, true);
    lemma_ray_sym(s, t, 0, 1, e, 4, false);
    lemma_ray_sym(s, t, 0, -1, e, 4, false);
    lemma_ray_sym(s, t, 1, 0, e, 4, false);
    lemma_ray_sym(s, t, -1, 0, e, 4, false);
    lemma_ray_sym(s, t, 1, 1, e, 4, false);
    lemma_ray_sym(s, t, -1, 1, e, 4, false);
    lemma_ray_sym(s, t, 1, -1, e, 4, false);
    lemma_ray_sym(s, t, -1, -1, e, 4, false);
}

/// An attack on `t` does not depend on whether `t` itself is occupied.
pub proof fn lemma_hits_congruent(x: Piece, s: int, t: int, occ1: BitBoard, occ2: BitBoard)
    requires
        0 <= s < 144,
        forall|q: int| q != t ==> occ1.has(q) == occ2.has(q),
    ensures
        piece_hits(x, s, t, occ1) == piece_hits(x, s, t, occ2),
{
    lemma_ray_congruent(s, t, 0, 1, occ1, occ2, 11, true);
    lemma_ray_congruent(s, t, 0, -1, occ1, occ2, 11, true);
    lemma_ray_congruent(s, t, 1, 0, occ1, occ2, 11, true);
    lemma_ray_congruent(s, t, -1, 0, occ1, occ2, 11, true);
    lemma_ray_congruent(s, t, 1, 1, occ1, occ2, 11, true);
    lemma_ray_congruent(s, t, -1, 1, occ1, occ2, 11, true);
    lemma_ray_congruent(s, t, 1, -1, occ1, occ2, 11, true);
    lemma_ray_congruent(s, t, -1, -1, occ1, occ2, 11, true);
}

/// Occupying more squares can only take attacks away.
pub proof fn lemma_hits_monotone(x: Piece, s: int, t: int, occ1: BitBoard, occ2: BitBoard)
    requires
        forall|q: int| occ1.has(q) ==> occ2.has(q),
    ensures
        piece_hits(x, s, t, occ2) ==> piece_hits(x, s, t, occ1),
{
    lemma_ray_monotone(s, t, 0, 1, occ1, occ2, 11, true);
    lemma_ray_monotone(s, t, 0, -1, occ1, occ2, 11, true);
    lemma_ray_monotone(s, t, 1, 0, occ1, occ2, 11, true);
    lemma_ray_monotone(s, t, -1, 0, occ1, occ2, 11, true);
    lemma_ray_monotone(s, t, 1, 1, occ1, occ2, 11, true);
    lemma_ray_monotone(s, t, -1, 1, occ1, occ2, 11, true);
    lemma_ray_monotone(s, t, 1, -1, occ1, occ2, 11, true);
    lemma_ray_monotone(s, t, -1, -1, occ1, occ2, 11, true);
}

/// Whether a square is attacked depends on the occupied squares only
/// through which squares they are.
pub proof fn lemma_attacked_congruent(locs: Seq<Piece>, p: Player, t: int, occ1: BitBoard, occ2: BitBoard)
    requires
        forall|q: int| q != t ==> occ1.has(q) == occ2.has(q),
    ensures
        attacked_by(locs, p, t, occ1) == attacked_by(locs, p, t, occ2),
{
    if attacked_by(locs, p, t, occ1) {
        let s = choose|s: int| #[trigger] attacker_at(locs, p, s, t, occ1);
        lemma_hits_congruent(locs[s], s, t, occ1, occ2);
        assert(attacker_at(locs, p, s, t, occ2));
    }
    if attacked_by(locs, p, t, occ2) {
        let s = choose|s: int| #[trigger] attacker_at(locs, p, s, t, occ2);
        lemma_hits_congruent(locs[s], s, t, occ1, occ2);
        assert(attacker_at(locs, p, s, t, occ1));
    }
}

impl Board {
    /// Returns the pieces of `player` attacking `sq`, with `occupied` as the
    /// occupied squares for the sliding pieces.
    pub fn attackers_to_player(&self, sq: SQ, player: Player, occupied: BitBoard) -> (r: BitBoard)
        requires
            self.wf(),
            sq.0 < 144,
        ensures
            r.valid(),
            forall|s: int|
                #[trigger] r.has(s) == attacker_at(self.locs(), player, s, sq.0 as int, occupied),
    {
        let mut attackers = pawn_attacks_sq(player.other_player(), sq).and_bb(
            self.piece_bb(player, PieceType::P),
        );
        attackers = attackers.or_bb(knight_attacks(sq).and_bb(self.piece_bb(player, PieceType::N)));
        attackers = attackers.or_bb(king_attacks(sq).and_bb(self.piece_bb(player, PieceType::K)));
        attackers = attackers.or_bb(
            rook_attacks(sq, occupied).and_bb(self.piece_bb2(player, PieceType::R, PieceType::Q)),
        );
        attackers = attackers.or_bb(
            bishop_attacks(sq, occupied).and_bb(self.piece_bb2(player, PieceType::B, PieceType::Q)),
        );
        attackers = attackers.or_bb(
            eagle_attacks(sq, occupied).and_bb(self.piece_bb(player, PieceType::E)),
        );
        attackers = attackers.or_bb(
            hawk_attacks(sq, occupied).and_bb(self.piece_bb(player, PieceType::H)),
        );
        proof {
            super::lemma_slots();
            assert forall|s: int|
                #[trigger] attackers.has(s) == attacker_at(self.locs(), player, s, sq.0 as int, occupied) by {
                if 0 <= s < 144 {
                    lemma_reach_sym(s, sq.0 as int, occupied);
                    let x = self.locs()[s];
                    if x != Piece::Empty {
                        assert(piece_of(owner_of(x)->0, type_of_piece(x)) == x);
                    }
                }
            }
        }
        attackers
    }

    /// Returns a bitboard of all pieces (of both players) attacking a square.
    pub fn attackers_to(&self, sq: SQ, occupied: BitBoard) -> (r: BitBoard)
        requires
            self.wf(),
            sq.0 < 144,
        ensures
            r.valid(),
            forall|s: int|
                #[trigger] r.has(s) == (attacker_at(self.locs(), Player::White, s, sq.0 as int, occupied)
                    || attacker_at(self.locs(), Player::Black, s, sq.0 as int, occupied)),
    {
        let w = self.attackers_to_player(sq, Player::White, occupied);
        let b = self.attackers_to_player(sq, Player::Black, occupied);
        w.or_bb(b)
    }

    /// Computes the bitboard of pieces giving check to the side to move.
    pub(crate) fn compute_checkers(&self) -> (r: BitBoard)
        requires
            self.ready(),
        ensures
            r.valid(),
            forall|s: int|
                #[trigger] r.has(s) == attacker_at(
                    self.locs(),
                    opponent(self.side()),
                    s,
                    self.king_of(self.side()),
                    self.occ(),
                ),
    {
        let us = self.turn();
        let them = us.other_player();
        let king = self.king_sq(us);
        self.attackers_to_player(king, them, self.occupied())
    }

    /// Returns true if the given player's king is attacked.
    pub fn is_attacked(&self, player: Player) -> (r: bool)
        requires
            self.wf(),
            self.king_of(player) < 144,
        ensures
            r == attacked_by(self.locs(), opponent(player), self.king_of(player), self.occ()),
    {
        let king = self.king_sq(player);
        let them = player.other_player();
        let a = self.attackers_to_player(king, them, self.occupied());
        proof {
            if attacked_by(self.locs(), opponent(player), self.king_of(player), self.occ()) {
                let s = choose|s: int| #[trigger] attacker_at(self.locs(), opponent(player), s, self.king_of(player), self.occ());
                assert(a.has(s));
            }
        }
        a.is_not_empty()
    }
}

} // verus!
