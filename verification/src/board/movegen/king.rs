//! King move generation: ordinary king moves and castling.
//!
//! These produce *legal* moves directly (the king's own safety is checked
//! here) rather than going through the pseudo-legal filter.

use vstd::prelude::*;

use super::legality::squares_between_inclusive;
use super::rules::{
    castle_clear, castle_open, castle_right, castle_rule, is_word, king_rule, landing_flag, lifted,
    on_segment, on_walk, rule_move, walk_safe,
};
use super::{
    distinct_from, extends_with, leaves_king_safe, legal_move, lemma_extends_contains,
    lemma_extends_push, lemma_extends_trans, lemma_push_distinct, occupancy_of,
};
use crate::board::attacks::{
    attacked_by, attacker_at, lemma_attacked_congruent, lemma_hits_congruent, lemma_hits_monotone,
};
use crate::board::castle_rights::{king_side_mask, queen_side_mask};
use crate::board::move_apply::{castle_side, is_castle_move, is_ep_move, kings_after, locs_after};
use crate::board::Board;
use crate::core_types::bitboard::BitBoard;
use crate::core_types::masks::{
    castling_king_dst, castling_rook_dst, castling_rook_start, king_dst_of, king_start,
    king_start_of, rook_dst_of, rook_start_of,
};
use crate::core_types::move_list::MoveList;
use crate::core_types::piece::{owner_of, piece_of, Piece};
use crate::core_types::piece_move::{HyperMove, FLAG_KING_CASTLE, FLAG_QUEEN_CASTLE};
use crate::core_types::piece_type::PieceType;
use crate::core_types::player::{opponent, player_index, Player};
use crate::core_types::sq::SQ;
use crate::helper::boards::king_target;
use crate::helper::prelude::king_attacks;

verus! {

/// Generates king moves (non-castle). These go directly to the legal list.
pub fn gen_king_moves(
    board: &Board,
    us: Player,
    our_occ: BitBoard,
    all_occ: BitBoard,
    list: &mut MoveList,
)
    requires
        board.ready(),
        us == board.side(),
        forall|s: int|
            #[trigger] our_occ.has(s) == (0 <= s < 144 && owner_of(board.locs()[s]) == Some(us)),
        all_occ == board.occ(),
    ensures
        extends_with(old(list)@, final(list)@, *board, true),
        forall|k: int| old(list)@.len() <= k < final(list)@.len() ==> !is_ep_move(#[trigger] final(list)@[k]),
        forall|m: HyperMove|
            king_rule(*board, m) && leaves_king_safe(*board, m)
                ==> #[trigger] final(list)@.contains(m),
        distinct_from(final(list)@, old(list)@.len() as int),
        forall|k: int|
            old(list)@.len() <= k < final(list)@.len() ==> #[trigger] final(list)@[k].src_index()
                == board.king_of(us) && board.locs()[board.king_of(us)] == piece_of(us, PieceType::K)
                && !is_castle_move(final(list)@[k]),
{
    proof {
        crate::board::lemma_slots();
    }
    let ghost start = list@;
    assert(start.take(start.len() as int) =~= start);
    let king = board.king_sq(us);
    if board.piece_at(king) != Piece::make_lossy(us, PieceType::K) {
        return;
    }
    let them = us.other_player();
    let attacks = king_attacks(king).and_bb(our_occ.not_bb());
    let targets = attacks.squares();
    let mut j: usize = 0;
    while j < targets.len()
        invariant
            j <= targets.len(),
            board.ready(),
            us == board.side(),
            them == opponent(us),
            king.0 == board.king_of(us),
            board.locs()[king.0 as int] == piece_of(us, PieceType::K),
            all_occ == board.occ(),
            forall|k: int| 0 <= k < targets.len() ==> #[trigger] attacks.has(targets[k].0 as int),
            forall|t: int|
                #[trigger] attacks.has(t) == (king_target(king.0 as int, t) && (0 <= t < 144
                    && !our_occ.has(t))),
            forall|s: int|
                #[trigger] our_occ.has(s) == (0 <= s < 144 && owner_of(board.locs()[s]) == Some(us)),
            extends_with(start, list@, *board, true),
            forall|k: int| start.len() <= k < list@.len() ==> !is_ep_move(#[trigger] list@[k]),
            forall|m: HyperMove|
                king_rule(*board, m) && leaves_king_safe(*board, m) && (exists|k: int|
                    0 <= k < j && #[trigger] targets@[k].0 == m.dst_index()) ==> #[trigger] list@.contains(m),
            forall|k: int, l: int| 0 <= k < l < targets.len() ==> targets@[k].0 < targets@[l].0,
            start.len() <= list@.len(),
            distinct_from(list@, start.len() as int),
            forall|k: int|
                start.len() <= k < list@.len() ==> #[trigger] list@[k].src_index() == king.0 && !is_castle_move(
                    list@[k],
                ) && exists|t: int| 0 <= t < j && targets@[t].0 == list@[k].dst_index(),
        decreases targets.len() - j,
    {
        let dst = targets[j];
        assert(attacks.has(dst.0 as int));
        let mut temp_occ = all_occ;
        temp_occ.clear_bit(king);
        temp_occ.clear_bit(dst);
        let mut landed_occ = all_occ;
        landed_occ.clear_bit(king);
        landed_occ.set_bit(dst);
        let a = board.attackers_to_player(dst, them, temp_occ);
        let ghost before = list@;
        assert(before.take(before.len() as int) =~= before);
        let m = if board.piece_at(dst) != Piece::Empty {
            HyperMove::make_capture(king, dst)
        } else {
            HyperMove::make_quiet(king, dst)
        };
        let safe = a.is_empty();
        let ghost locs0 = board.locs();
        let ghost locs1 = locs_after(locs0, us, m);
        proof {
            assert(kings_after(board.kings(), locs0, us, m)[player_index(us)].0 == dst.0);
            assert(occupancy_of(landed_occ, locs1));
            if !safe {
                let s = choose|s: int| #[trigger] a.has(s);
                assert(attacker_at(locs0, them, s, dst.0 as int, temp_occ));
                assert(s != dst.0 && s != king.0);
                assert(locs1[s] == locs0[s]);
                lemma_hits_congruent(locs0[s], s, dst.0 as int, landed_occ, temp_occ);
                assert(attacker_at(locs1, them, s, dst.0 as int, landed_occ));
                assert(!leaves_king_safe(*board, m));
            }
        }
        if safe {
            proof {
                assert forall|o: BitBoard| #[trigger] occupancy_of(o, locs1) implies !attacked_by(
                    locs1,
                    opponent(us),
                    dst.0 as int,
                    o,
                ) by {
                    if attacked_by(locs1, opponent(us), dst.0 as int, o) {
                        let s = choose|s: int| #[trigger] attacker_at(locs1, opponent(us), s, dst.0 as int, o);
                        assert(s != dst.0 && s != king.0);
                        assert(locs1[s] == locs0[s]);
                        lemma_hits_congruent(locs0[s], s, dst.0 as int, o, temp_occ);
                        assert(a.has(s));
                    }
                }
                assert(leaves_king_safe(*board, m));
                assert(legal_move(*board, m));
                assert(king_rule(*board, m));
                lemma_extends_push(list@, m, *board, true);
                lemma_extends_trans(start, list@, list@.push(m), *board, true);
                assert forall|k: int| start.len() <= k < list@.len() implies list@[k] != m by {
                    let t = choose|t: int| 0 <= t < j && targets@[t].0 == list@[k].dst_index();
                    assert(targets@[t].0 < targets@[j as int].0);
                }
                lemma_push_distinct(list@, start.len() as int, m);
            }
            list.push(m);
        }
        proof {
            assert forall|k: int|
                start.len() <= k < list@.len() implies #[trigger] list@[k].src_index() == king.0
                    && !is_castle_move(list@[k]) && exists|t: int|
                    0 <= t < j + 1 && targets@[t].0 == list@[k].dst_index() by {
                if k < before.len() {
                    assert(list@[k] == before[k]);
                    let t = choose|t: int| 0 <= t < j && targets@[t].0 == before[k].dst_index();
                    assert(targets@[t].0 == list@[k].dst_index());
                } else {
                    assert(list@[k] == m);
                    assert(targets@[j as int].0 == list@[k].dst_index());
                }
            }
        }
        assert(extends_with(before, list@, *board, true));
        proof {
            assert forall|x: HyperMove|
                king_rule(*board, x) && leaves_king_safe(*board, x) && (exists|k: int|
                    0 <= k < j + 1 && #[trigger] targets@[k].0 == x.dst_index()) implies #[trigger] list@.contains(x) by {
                let k = choose|k: int| 0 <= k < j + 1 && #[trigger] targets@[k].0 == x.dst_index();
                if k < j {
                    lemma_extends_contains(before, list@, *board, true, x);
                } else {
                    HyperMove::lemma_bits_injective(x, m);
                }
            }
        }
        j += 1;
    }
    proof {
        assert forall|x: HyperMove| king_rule(*board, x) && leaves_king_safe(*board, x) implies #[trigger] list@.contains(x) by {
            assert(attacks.has(x.dst_index()));
            let k = choose|k: int| 0 <= k < targets.len() && targets@[k].0 == x.dst_index();
            assert(targets@[k].0 == x.dst_index());
        }
    }
}

/// Whether no piece of `them` attacks any square from `from` to `to`
/// (walking along the rank), with `occ` as the occupied squares.
fn path_unattacked(board: &Board, them: Player, from: SQ, to: SQ, occ: BitBoard) -> (r: bool)
    requires
        board.wf(),
        from.0 < 144,
        to.0 < 144,
        from.0 != to.0,
    ensures
        r == forall|q: int, s: int|
            on_walk(from.0 as int, to.0 as int, q) ==> !#[trigger] attacker_at(
                board.locs(),
                them,
                s,
                q,
                occ,
            ),
{
    let step: i32 = if to.0 > from.0 {
        1
    } else {
        -1
    };
    let end = to.0 as i32 + step;
    let mut sq = from.0 as i32;
    while sq != end
        invariant
            board.wf(),
            from.0 < 144,
            to.0 < 144,
            step == 1 || step == -1,
            end == to.0 + step,
            step == 1 ==> from.0 <= sq <= end,
            step == -1 ==> end <= sq <= from.0,
            step == 1 ==> from.0 < to.0,
            step == -1 ==> to.0 < from.0,
            forall|q: int, s: int|
                (if step == 1 {
                    from.0 <= q < sq
                } else {
                    sq < q <= from.0
                }) ==> !#[trigger] attacker_at(board.locs(), them, s, q, occ),
        decreases (end - sq) * step,
    {
        let check_sq = SQ(sq as u8);
        let a = board.attackers_to_player(check_sq, them, occ);
        if a.is_not_empty() {
            proof {
                let s = choose|s: int| #[trigger] a.has(s);
                assert(attacker_at(board.locs(), them, s, sq as int, occ));
                assert(on_walk(from.0 as int, to.0 as int, sq as int));
            }
            return false;
        }
        assert forall|s: int| !#[trigger] attacker_at(board.locs(), them, s, sq as int, occ) by {
            assert(!a.has(s));
        }
        sq += step;
    }
    true
}

/// Checks whether the position allows castling on `side`: the king stands
/// on its start square and the side's rook on its own, the king is not in
/// check, the squares both pieces cross are empty, and no square the king
/// passes or lands on is attacked.
fn can_castle(board: &Board, us: Player, them: Player, side: usize, all_occ: BitBoard) -> (r: bool)
    requires
        board.ready(),
        us == board.side(),
        them == opponent(us),
        side < 2,
        all_occ == board.occ(),
    ensures
        r == castle_clear(*board, side as int),
{
    let king_from = board.king_sq(us);
    let rook_from = SQ(castling_rook_start(us, side));
    let king_to = SQ(castling_king_dst(us, side));
    let rook_to = SQ(castling_rook_dst(us, side));
    if king_from.0 != king_start(us) {
        return false;
    }
    if board.piece_at(king_from) != Piece::make_lossy(us, PieceType::K) {
        return false;
    }
    if board.piece_at(rook_from) != Piece::make_lossy(us, PieceType::R) {
        return false;
    }
    if board.in_check() {
        return false;
    }
    let king_path = squares_between_inclusive(king_from, king_to);
    let rook_path = squares_between_inclusive(rook_from, rook_to);
    let mut must_be_clear = king_path.or_bb(rook_path);
    must_be_clear.clear_bit(king_from);
    must_be_clear.clear_bit(rook_from);
    let blocked = must_be_clear.and_bb(all_occ);
    if blocked.is_not_empty() {
        proof {
            let t = choose|t: int| #[trigger] blocked.has(t);
            assert(must_be_clear.has(t) && all_occ.has(t));
        }
        return false;
    }
    let mut occ_without_king = all_occ;
    occ_without_king.clear_bit(king_from);
    occ_without_king.clear_bit(rook_from);
    let r = path_unattacked(board, them, king_from, king_to, occ_without_king);
    proof {
        let locs = board.locs();
        let kf = king_from.0 as int;
        let rf = rook_from.0 as int;
        assert(lifted(all_occ, occ_without_king, kf, rf));
        assert forall|t: int|
            (on_segment(kf, king_to.0 as int, t) || on_segment(rf, rook_to.0 as int, t)) && t != kf
                && t != rf implies !#[trigger] all_occ.has(t) by {
            assert(must_be_clear.has(t));
            assert(!blocked.has(t));
        }
        if r {
            assert(walk_safe(locs, them, kf, king_to.0 as int, occ_without_king));
        } else {
            let (q, s) = choose|q: int, s: int|
                on_walk(kf, king_to.0 as int, q) && #[trigger] attacker_at(locs, them, s, q, occ_without_king);
            assert forall|o: BitBoard| lifted(all_occ, o, kf, rf) implies !#[trigger] walk_safe(
                locs,
                them,
                kf,
                king_to.0 as int,
                o,
            ) by {
                assert forall|x: int| x != q implies o.has(x) == occ_without_king.has(x) by {}
                lemma_hits_congruent(locs[s], s, q, o, occ_without_king);
                assert(attacker_at(locs, them, s, q, o));
            }
        }
    }
    r
}

/// Generates castling moves. Goes directly to the legal list.
pub fn gen_castling(board: &Board, us: Player, all_occ: BitBoard, list: &mut MoveList)
    requires
        board.ready(),
        us == board.side(),
        all_occ == board.occ(),
    ensures
        extends_with(old(list)@, final(list)@, *board, true),
        forall|k: int| old(list)@.len() <= k < final(list)@.len() ==> !is_ep_move(#[trigger] final(list)@[k]),
        forall|m: HyperMove| castle_rule(*board, m) ==> #[trigger] final(list)@.contains(m),
        distinct_from(final(list)@, old(list)@.len() as int),
        forall|k: int|
            old(list)@.len() <= k < final(list)@.len() ==> is_castle_move(#[trigger] final(list)@[k]),
{
    let ghost start = list@;
    assert(start.take(start.len() as int) =~= start);
    let them = us.other_player();
    let king = board.king_sq(us);
    if board.state.castling.can_king_side(us) {
        let king_dst = SQ(castling_king_dst(us, 0));
        if can_castle(board, us, them, 0, all_occ) {
            let m = HyperMove::make_king_castle(king, king_dst);
            proof {
                lemma_castle_legal(*board, us, m, 0);
                assert(castle_rule(*board, m));
                lemma_extends_push(list@, m, *board, true);
                lemma_extends_trans(start, list@, list@.push(m), *board, true);
            }
            list.push(m);
            proof {
                assert forall|x: HyperMove| castle_open(*board, 0) && is_word(
                    x,
                    FLAG_KING_CASTLE,
                    king_start_of(us),
                    king_dst_of(us, 0),
                ) implies #[trigger] list@.contains(x) by {
                    HyperMove::lemma_bits_injective(x, m);
                }
            }
        }
    }
    let ghost mid = list@;
    assert(mid.take(mid.len() as int) =~= mid);
    assert(forall|x: HyperMove|
        castle_open(*board, 0) && is_word(x, FLAG_KING_CASTLE, king_start_of(us), king_dst_of(us, 0))
            ==> #[trigger] mid.contains(x));
    if board.state.castling.can_queen_side(us) {
        let king_dst = SQ(castling_king_dst(us, 1));
        if can_castle(board, us, them, 1, all_occ) {
            let m = HyperMove::make_queen_castle(king, king_dst);
            proof {
                assert forall|k: int| start.len() <= k < list@.len() implies list@[k] != m by {
                    assert(list@[k].flag_bits() == FLAG_KING_CASTLE);
                }
                lemma_push_distinct(list@, start.len() as int, m);
                lemma_castle_legal(*board, us, m, 1);
                assert(castle_rule(*board, m));
                lemma_extends_push(list@, m, *board, true);
                lemma_extends_trans(start, list@, list@.push(m), *board, true);
                lemma_extends_trans(mid, list@, list@.push(m), *board, true);
            }
            list.push(m);
            proof {
                assert forall|x: HyperMove| castle_open(*board, 1) && is_word(
                    x,
                    FLAG_QUEEN_CASTLE,
                    king_start_of(us),
                    king_dst_of(us, 1),
                ) implies #[trigger] list@.contains(x) by {
                    HyperMove::lemma_bits_injective(x, m);
                }
            }
        }
    }
    proof {
        assert forall|x: HyperMove| castle_rule(*board, x) implies #[trigger] list@.contains(x) by {
            if castle_open(*board, 0) && is_word(x, FLAG_KING_CASTLE, king_start_of(us), king_dst_of(us, 0)) {
                assert(mid.contains(x));
                lemma_extends_contains(mid, list@, *board, true, x);
            }
        }
    }
}

/// A castle that the position allows is legal.
proof fn lemma_castle_legal(board: Board, us: Player, m: HyperMove, side: int)
    requires
        board.ready(),
        us == board.side(),
        0 <= side < 2,
        m.src_index() == king_start_of(us),
        m.dst_index() == king_dst_of(us, side),
        m.flag_bits() == (if side == 0 {
            2u32
        } else {
            3u32
        }),
        castle_clear(board, side),
    ensures
        legal_move(board, m),
{
    crate::board::lemma_slots();
    let kf = king_start_of(us);
    let rf = rook_start_of(us, side);
    let kt = king_dst_of(us, side);
    let locs0 = board.locs();
    let locs1 = locs_after(locs0, us, m);
    let rt = rook_dst_of(us, side);
    assert(on_segment(kf, kt, kt));
    assert(on_segment(rf, rt, rt));
    assert(kt != kf && kt != rf && rt != kf && rt != rf);
    assert(!board.occ().has(kt));
    assert(!board.occ().has(rt));
    assert(locs0[kt] == Piece::Empty);
    assert(locs0[rt] == Piece::Empty);
    assert(is_castle_move(m));
    assert(castle_side(m) == side);
    assert(kings_after(board.kings(), locs0, us, m)[player_index(us)].0 == kt);
    let o = choose|o: BitBoard|
        lifted(board.occ(), o, kf, rf) && #[trigger] walk_safe(locs0, opponent(us), kf, kt, o);
    assert forall|occ: BitBoard| #[trigger] occupancy_of(occ, locs1) implies !attacked_by(
        locs1,
        opponent(us),
        kt,
        occ,
    ) by {
        if attacked_by(locs1, opponent(us), kt, occ) {
            let s = choose|s: int| #[trigger] attacker_at(locs1, opponent(us), s, kt, occ);
            assert(locs1[s] == locs0[s]);
            assert forall|q: int| o.has(q) implies occ.has(q) by {}
            lemma_hits_monotone(locs0[s], s, kt, o, occ);
            assert(on_walk(kf, kt, kt));
            assert(attacker_at(locs0, opponent(us), s, kt, o));
        }
    }
}

} // verus!
