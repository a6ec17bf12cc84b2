//! Legality filtering for pseudo-legal moves and ray helpers.

use vstd::prelude::*;

use super::rules::ep_checker_capture;
use super::{leaves_king_safe, occupancy_of};
use crate::board::attacks::{attacked_by, attacker_at, lemma_attacked_congruent, piece_hits};
use crate::board::move_apply::{is_castle_move, is_ep_move, landing, locs_after, promo_kind};
use crate::board::Board;
use crate::core_types::bitboard::BitBoard;
use crate::core_types::piece::{owner_of, piece_of, type_of_piece, Piece};
use crate::core_types::piece_move::HyperMove;
use crate::core_types::piece_type::{is_real_type, PieceType};
use crate::core_types::player::{opponent, pawn_push_of, player_index, Player};
use crate::core_types::sq::SQ;
use crate::helper::boards::between_has;
use crate::helper::prelude::{between, pawn_attacks_sq, piece_attacks};

verus! {

/// Returns the squares from `a` to `b` inclusive (only meaningful for
/// squares on the same rank, file or diagonal).
pub fn squares_between_inclusive(a: SQ, b: SQ) -> (r: BitBoard)
    requires
        a.0 < 144,
        b.0 < 144,
    ensures
        r.valid(),
        forall|t: int| #[trigger] r.has(t) == (between_has(a.0 as int, b.0 as int, t) || t == a.0 || t == b.0),
{
    let mut bb = between(a, b);
    bb.set_bit(a);
    bb.set_bit(b);
    bb
}

/// Checks whether a non-castling move that does not move the tracked king
/// leaves the mover's king unattacked.
pub fn is_legal(board: &Board, m: HyperMove, us: Player, king: SQ) -> (r: bool)
    requires
        board.wf(),
        us == board.side(),
        king.0 == board.king_of(us),
        king.0 < 144,
        board.move_shape_ok(m),
        !is_castle_move(m),
        is_ep_move(m) || m.promo_flag() || type_of_piece(board.locs()[m.src_index()])
            != PieceType::K,
        !is_ep_move(m) && !m.capture_flag() ==> board.locs()[m.dst_index()] == Piece::Empty,
    ensures
        r == (leaves_king_safe(*board, m) && !ep_checker_capture(*board, m)),
{
    let src = m.get_src();
    let dst = m.get_dest();
    let them = us.other_player();
    let ghost locs0 = board.locs();
    let ghost locs1 = locs_after(locs0, us, m);
    proof {
        crate::board::lemma_slots();
        assert(owner_of(locs1[dst.0 as int]) == Some(us));
        assert(locs1.len() == 144);
    }
    if m.is_en_passant() {
        let captured_sq = SQ((dst.0 as i16 - us.pawn_push()) as u8);
        let mut occ = board.occupied();
        occ.clear_bit(src);
        occ.clear_bit(captured_sq);
        occ.set_bit(dst);
        let a = board.attackers_to_player(king, them, occ);
        let r = a.is_empty();
        proof {
            let victim = captured_sq.0 as int;
            assert(occupancy_of(occ, locs1));
            if !r {
                let s = choose|s: int| #[trigger] a.has(s);
                assert(attacker_at(locs0, opponent(us), s, king.0 as int, occ));
                if s != victim {
                    assert(locs1[s] == locs0[s]);
                    assert(attacker_at(locs1, opponent(us), s, king.0 as int, occ));
                } else {
                    assert(ep_checker_capture(*board, m));
                }
            } else {
                if ep_checker_capture(*board, m) {
                    assert(attacker_at(locs0, opponent(us), victim, king.0 as int, occ));
                    assert(a.has(victim));
                }
            }
            if r {
                assert(occupancy_of(occ, locs1));
                assert forall|o: BitBoard| occupancy_of(o, locs1) implies !attacked_by(
                    locs1,
                    opponent(us),
                    king.0 as int,
                    o,
                ) by {
                    lemma_attacked_congruent(locs1, opponent(us), king.0 as int, o, occ);
                    if attacked_by(locs1, opponent(us), king.0 as int, occ) {
                        let s = choose|s: int| #[trigger] attacker_at(locs1, opponent(us), s, king.0 as int, occ);
                        assert(locs1[s] == locs0[s]);
                        assert(a.has(s));
                    }
                }
            }
        }
        return r;
    }
    let mut occ = board.occupied();
    occ.clear_bit(src);
    occ.set_bit(dst);
    let attackers = board.attackers_to_player(king, them, occ);
    let masked = attackers.and_bb(BitBoard::from_sq(dst).not_bb());
    let capture = m.is_capture();
    let r = if capture {
        masked.is_empty()
    } else {
        attackers.is_empty()
    };
    proof {
        assert(occupancy_of(occ, locs1));
        if !r {
            let s = if capture {
                choose|s: int| #[trigger] masked.has(s)
            } else {
                choose|s: int| #[trigger] attackers.has(s)
            };
            assert(attackers.has(s));
            assert(attacker_at(locs0, opponent(us), s, king.0 as int, occ));
            assert(s != dst.0);
            assert(locs1[s] == locs0[s]);
            assert(attacker_at(locs1, opponent(us), s, king.0 as int, occ));
        }
        if r {
            assert(occupancy_of(occ, locs1));
            assert forall|o: BitBoard| occupancy_of(o, locs1) implies !attacked_by(
                locs1,
                opponent(us),
                king.0 as int,
                o,
            ) by {
                lemma_attacked_congruent(locs1, opponent(us), king.0 as int, o, occ);
                if attacked_by(locs1, opponent(us), king.0 as int, occ) {
                    let s = choose|s: int| #[trigger] attacker_at(locs1, opponent(us), s, king.0 as int, occ);
                    assert(s != dst.0);
                    assert(locs1[s] == locs0[s]);
                    assert(attackers.has(s));
                    if capture {
                        assert(masked.has(s));
                    }
                }
            }
        }
    }
    r
}

/// Returns the squares attacked by a player's pieces.
pub fn attacked_squares(board: &Board, player: Player) -> (r: BitBoard)
    requires
        board.wf(),
    ensures
        r.valid(),
        forall|t: int| 0 <= t < 144 ==> (#[trigger] r.has(t) == attacked_by(board.locs(), player, t, board.occ())),
{
    let occ = board.occupied();
    let mut attacked = BitBoard::empty();
    let mut i: u8 = 0;
    while i < 144
        invariant
            i <= 144,
            board.wf(),
            occ == board.occ(),
            attacked.valid(),
            forall|t: int|
                0 <= t < 144 ==> (#[trigger] attacked.has(t) == exists|s: int|
                    0 <= s < i && #[trigger] attacker_at(board.locs(), player, s, t, occ)),
        decreases 144 - i,
    {
        let sq = SQ(i);
        let piece = board.piece_at(sq);
        let mine = match piece.player() {
            Some(p) => p == player,
            None => false,
        };
        let ghost before = attacked;
        if mine {
            let pt = piece.type_of();
            let a = if pt == PieceType::P {
                pawn_attacks_sq(player, sq)
            } else {
                piece_attacks(pt, sq, occ)
            };
            attacked = attacked.or_bb(a);
            proof {
                assert forall|t: int| 0 <= t < 144 implies (#[trigger] attacked.has(t) == exists|s: int|
                    0 <= s < i + 1 && #[trigger] attacker_at(board.locs(), player, s, t, occ)) by {
                    if a.has(t) {
                        assert(attacker_at(board.locs(), player, i as int, t, occ));
                    }
                    if exists|s: int| 0 <= s < i + 1 && #[trigger] attacker_at(board.locs(), player, s, t, occ) {
                        let s = choose|s: int| 0 <= s < i + 1 && #[trigger] attacker_at(board.locs(), player, s, t, occ);
                        if s < i {
                            assert(before.has(t));
                        }
                    }
                }
            }
        } else {
            proof {
                assert forall|t: int| 0 <= t < 144 implies (#[trigger] attacked.has(t) == exists|s: int|
                    0 <= s < i + 1 && #[trigger] attacker_at(board.locs(), player, s, t, occ)) by {
                    if exists|s: int| 0 <= s < i + 1 && #[trigger] attacker_at(board.locs(), player, s, t, occ) {
                        let s = choose|s: int| 0 <= s < i + 1 && #[trigger] attacker_at(board.locs(), player, s, t, occ);
                        if s < i {
                            assert(before.has(t));
                        }
                    }
                }
            }
        }
        i += 1;
    }
    proof {
        assert forall|t: int| 0 <= t < 144 implies (#[trigger] attacked.has(t) == attacked_by(board.locs(), player, t, board.occ())) by {
            if attacked_by(board.locs(), player, t, board.occ()) {
                let s = choose|s: int| #[trigger] attacker_at(board.locs(), player, s, t, board.occ());
                assert(0 <= s < 144);
            }
        }
    }
    attacked
}

} // verus!
