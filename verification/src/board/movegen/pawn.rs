//! Pawn move generation: pushes, double pushes, captures, en passant, promotion.

use vstd::prelude::*;

use super::rules::{
    is_promotion_word, is_word, pawn_capture_rule, pawn_double_rule, pawn_ep_rule, pawn_push_rule,
    pawn_rule, pawn_start_rank_of, promo_rank_of, rule_move,
};
use super::rules::lemma_word_parts;
use super::{
    distinct_from, extends_with, lemma_distinct_join, lemma_extends_contains, lemma_extends_push,
    lemma_extends_trans, lemma_push_distinct, pseudo_move,
};
use crate::board::Board;
use crate::core_types::bitboard::BitBoard;
use crate::core_types::move_list::MoveList;
use crate::core_types::piece::{owner_of, piece_of, Piece};
use crate::core_types::piece_move::{
    HyperMove, FLAG_CAPTURE, FLAG_DOUBLE_PAWN, FLAG_EP, FLAG_PROMO, FLAG_PROMO_CAPTURE, FLAG_QUIET,
};
use crate::core_types::piece_move::encode_move;
use crate::core_types::piece_type::{is_real_type, promo_type_of, pt_index, PieceType};
use crate::core_types::player::pawn_push_of;
use crate::core_types::sq::sq_rank;
use crate::core_types::player::{opponent, Player};
use crate::core_types::sq::SQ;
use crate::helper::boards::pawn_target;
use crate::helper::prelude::pawn_attacks_sq;

verus! {

/// Appends the six promotions of the pawn on `src` to `dst`.
fn push_promotions(board: &Board, src: SQ, dst: SQ, capture: bool, list: &mut MoveList)
    requires
        board.wf(),
        src.0 < 144,
        dst.0 < 144,
        src.0 != dst.0,
        board.locs()[src.0 as int] == piece_of(board.side(), PieceType::P),
        sq_rank(dst.0 as int) == promo_rank_of(board.side()),
        capture ==> pawn_target(board.side(), src.0 as int, dst.0 as int) && owner_of(
            board.locs()[dst.0 as int],
        ) == Some(opponent(board.side())),
        !capture ==> dst.0 == src.0 + pawn_push_of(board.side()) && board.locs()[dst.0 as int]
            == Piece::Empty,
    ensures
        extends_with(old(list)@, final(list)@, *board, false),
        forall|m: HyperMove|
            is_promotion_word(m, src.0 as int, dst.0 as int, capture)
                ==> #[trigger] final(list)@.contains(m),
        distinct_from(final(list)@, old(list)@.len() as int),
        forall|k: int|
            old(list)@.len() <= k < final(list)@.len() ==> #[trigger] final(list)@[k].src_index()
                == src.0 && final(list)@[k].dst_index() == dst.0 && final(list)@[k].flag_bits() == (
            if capture {
                FLAG_PROMO_CAPTURE
            } else {
                FLAG_PROMO
            }),
{
    proof {
        crate::board::lemma_slots();
    }
    let ghost start = list@;
    assert(start.take(start.len() as int) =~= start);
    let mut i: usize = 0;
    while i < 6
        invariant
            i <= 6,
            board.wf(),
            src.0 < 144,
            dst.0 < 144,
            src.0 != dst.0,
            board.locs()[src.0 as int] == piece_of(board.side(), PieceType::P),
            sq_rank(dst.0 as int) == promo_rank_of(board.side()),
            capture ==> pawn_target(board.side(), src.0 as int, dst.0 as int) && owner_of(
                board.locs()[dst.0 as int],
            ) == Some(opponent(board.side())),
            !capture ==> dst.0 == src.0 + pawn_push_of(board.side()) && board.locs()[dst.0 as int]
                == Piece::Empty,
            extends_with(start, list@, *board, false),
            forall|m: HyperMove|
                (exists|j: int|
                    0 <= j < i && #[trigger] m.bits() == encode_move(
                        if capture {
                            FLAG_PROMO_CAPTURE
                        } else {
                            FLAG_PROMO
                        },
                        src.0,
                        dst.0,
                        pt_index(promo_type_of(j)) as u32,
                    )) ==> #[trigger] list@.contains(m),
            start.len() <= list@.len(),
            distinct_from(list@, start.len() as int),
            forall|k: int|
                start.len() <= k < list@.len() ==> exists|j: int|
                    0 <= j < i && #[trigger] list@[k].bits() == encode_move(
                        if capture {
                            FLAG_PROMO_CAPTURE
                        } else {
                            FLAG_PROMO
                        },
                        src.0,
                        dst.0,
                        pt_index(promo_type_of(j)) as u32,
                    ),
        decreases 6 - i,
    {
        let m = HyperMove::make_promotion(src, dst, PieceType::promo_type(i), capture);
        let ghost before = list@;
        proof {
            assert(pseudo_move(*board, m));
            assert(is_promotion_word(m, src.0 as int, dst.0 as int, capture));
            if capture {
                assert(pawn_capture_rule(*board, m, src.0 as int, dst.0 as int));
            } else {
                assert(pawn_push_rule(*board, m, src.0 as int, dst.0 as int));
            }
            assert(rule_move(*board, m));
            lemma_extends_push(list@, m, *board, false);
            lemma_extends_trans(start, list@, list@.push(m), *board, false);
            let flag = if capture {
                FLAG_PROMO_CAPTURE
            } else {
                FLAG_PROMO
            };
            assert forall|k: int| start.len() <= k < list@.len() implies list@[k] != m by {
                let j = choose|j: int|
                    0 <= j < i && #[trigger] list@[k].bits() == encode_move(
                        flag,
                        src.0,
                        dst.0,
                        pt_index(promo_type_of(j)) as u32,
                    );
                lemma_word_parts(list@[k], flag, src.0, dst.0, pt_index(promo_type_of(j)) as u32);
                lemma_word_parts(m, flag, src.0, dst.0, pt_index(promo_type_of(i as int)) as u32);
            }
            lemma_push_distinct(list@, start.len() as int, m);
        }
        list.push(m);
        proof {
            assert forall|k: int|
                start.len() <= k < list@.len() implies exists|j: int|
                    0 <= j < i + 1 && #[trigger] list@[k].bits() == encode_move(
                        if capture {
                            FLAG_PROMO_CAPTURE
                        } else {
                            FLAG_PROMO
                        },
                        src.0,
                        dst.0,
                        pt_index(promo_type_of(j)) as u32,
                    ) by {
                if k < before.len() {
                    assert(list@[k] == before[k]);
                }
            }
            assert forall|x: HyperMove|
                (exists|j: int|
                    0 <= j < i + 1 && #[trigger] x.bits() == encode_move(
                        if capture {
                            FLAG_PROMO_CAPTURE
                        } else {
                            FLAG_PROMO
                        },
                        src.0,
                        dst.0,
                        pt_index(promo_type_of(j)) as u32,
                    )) implies #[trigger] list@.contains(x) by {
                let j = choose|j: int|
                    0 <= j < i + 1 && #[trigger] x.bits() == encode_move(
                        if capture {
                            FLAG_PROMO_CAPTURE
                        } else {
                            FLAG_PROMO
                        },
                        src.0,
                        dst.0,
                        pt_index(promo_type_of(j)) as u32,
                    );
                if j < i {
                    lemma_extends_contains(before, list@, *board, false, x);
                } else {
                    HyperMove::lemma_bits_injective(x, m);
                }
            }
        }
        i += 1;
    }
    proof {
        let flag = if capture {
            FLAG_PROMO_CAPTURE
        } else {
            FLAG_PROMO
        };
        assert forall|k: int| start.len() <= k < list@.len() implies #[trigger] list@[k].src_index()
            == src.0 && list@[k].dst_index() == dst.0 && list@[k].flag_bits() == flag by {
            let j = choose|j: int|
                0 <= j < 6 && #[trigger] list@[k].bits() == encode_move(
                    flag,
                    src.0,
                    dst.0,
                    pt_index(promo_type_of(j)) as u32,
                );
            lemma_word_parts(list@[k], flag, src.0, dst.0, pt_index(promo_type_of(j)) as u32);
        }
    }
}

/// The flag of a push, double push or push promotion.
pub open spec fn push_flag(m: HyperMove) -> bool {
    m.flag_bits() == FLAG_QUIET || m.flag_bits() == FLAG_DOUBLE_PAWN || m.flag_bits() == FLAG_PROMO
}

/// The flag of a capture or capture promotion.
pub open spec fn capture_flag_of(m: HyperMove) -> bool {
    m.flag_bits() == FLAG_CAPTURE || m.flag_bits() == FLAG_PROMO_CAPTURE
}

/// Appends the pushes, captures and en passant capture of the pawn on `src`.
fn gen_from(
    board: &Board,
    us: Player,
    src: SQ,
    their_occ: BitBoard,
    all_occ: BitBoard,
    list: &mut MoveList,
)
    requires
        board.wf(),
        us == board.side(),
        src.0 < 144,
        board.locs()[src.0 as int] == piece_of(us, PieceType::P),
        forall|s: int|
            #[trigger] their_occ.has(s) == (0 <= s < 144 && owner_of(board.locs()[s]) == Some(
                opponent(us),
            )),
        forall|s: int| #[trigger] all_occ.has(s) == (0 <= s < 144 && board.locs()[s] != Piece::Empty),
    ensures
        extends_with(old(list)@, final(list)@, *board, false),
        forall|m: HyperMove|
            pawn_rule(*board, m) && m.src_index() == src.0 ==> #[trigger] final(list)@.contains(m),
        distinct_from(final(list)@, old(list)@.len() as int),
        forall|k: int|
            old(list)@.len() <= k < final(list)@.len() ==> #[trigger] final(list)@[k].src_index()
                == src.0,
{
    proof {
        crate::board::lemma_slots();
    }
    let ghost start = list@;
    let ghost s0 = src.0 as int;
    assert(start.take(start.len() as int) =~= start);
    let push_dir = us.pawn_push() as i32;
    let start_rank = us.pawn_start_rank();
    let promo_rank = us.promotion_rank();
    assert(promo_rank as int == promo_rank_of(us));
    assert(start_rank as int == pawn_start_rank_of(us));
    let push_val = src.0 as i32 + push_dir;
    if 0 <= push_val && push_val < 144 {
        let push_sq = SQ(push_val as u8);
        if !all_occ.test_bit(push_sq) {
            if push_sq.rank_idx() == promo_rank {
                let ghost before = list@;
                push_promotions(board, src, push_sq, false, list);
                proof {
                    lemma_extends_trans(start, before, list@, *board, false);
                    assert forall|k: int| start.len() <= k < list@.len() implies #[trigger] list@[k].src_index()
                        == src.0 && push_flag(list@[k]) by {}
                }
            } else {
                let m = HyperMove::make_quiet(src, push_sq);
                let ghost before = list@;
                proof {
                    assert(pseudo_move(*board, m));
                    assert(pawn_push_rule(*board, m, s0, push_val as int));
                    lemma_extends_push(list@, m, *board, false);
                    lemma_extends_trans(start, list@, list@.push(m), *board, false);
                }
                proof {
                    lemma_push_distinct(list@, start.len() as int, m);
                }
                list.push(m);
                proof {
                    assert forall|x: HyperMove|
                        pawn_push_rule(*board, x, s0, x.dst_index()) implies #[trigger] list@.contains(x) by {
                        HyperMove::lemma_bits_injective(x, m);
                    }
                    assert forall|k: int| start.len() <= k < list@.len() implies #[trigger] list@[k].src_index()
                        == src.0 && push_flag(list@[k]) by {}
                }
                if src.rank_idx() == start_rank {
                    let double_val = push_val + push_dir;
                    if 0 <= double_val && double_val < 144 {
                        let double_sq = SQ(double_val as u8);
                        if !all_occ.test_bit(double_sq) {
                            let d = HyperMove::make_pawn_push(src, double_sq);
                            let ghost before2 = list@;
                            proof {
                                assert(pseudo_move(*board, d));
                                assert(pawn_double_rule(*board, d, s0, double_val as int));
                                lemma_extends_push(list@, d, *board, false);
                                lemma_extends_trans(start, list@, list@.push(d), *board, false);
                            }
                            proof {
                                assert forall|k: int| start.len() <= k < list@.len() implies list@[k] != d by {
                                    assert(push_flag(list@[k]) && list@[k].flag_bits() != FLAG_DOUBLE_PAWN);
                                }
                                lemma_push_distinct(list@, start.len() as int, d);
                            }
                            list.push(d);
                            proof {
                                assert forall|k: int| start.len() <= k < list@.len() implies #[trigger] list@[k].src_index()
                                    == src.0 && push_flag(list@[k]) by {
                                    if k < before2.len() {
                                        assert(list@[k] == before2[k]);
                                    }
                                }
                                assert forall|x: HyperMove|
                                    pawn_push_rule(*board, x, s0, x.dst_index()) implies #[trigger] list@.contains(x) by {
                                    lemma_extends_contains(before2, list@, *board, false, x);
                                }
                                assert forall|x: HyperMove|
                                    pawn_double_rule(*board, x, s0, x.dst_index()) implies #[trigger] list@.contains(x) by {
                                    HyperMove::lemma_bits_injective(x, d);
                                }
                            }
                        }
                    }
                }
            }
        }
    }
    let ghost after_pushes = list@;
    assert(distinct_from(after_pushes, start.len() as int));
    assert(forall|k: int|
        start.len() <= k < after_pushes.len() ==> #[trigger] after_pushes[k].src_index() == src.0
            && push_flag(after_pushes[k]));
    assert(start.len() <= after_pushes.len());
    assert(forall|x: HyperMove|
        pawn_push_rule(*board, x, s0, x.dst_index()) ==> #[trigger] after_pushes.contains(x));
    assert(forall|x: HyperMove|
        pawn_double_rule(*board, x, s0, x.dst_index()) ==> #[trigger] after_pushes.contains(x));
    assert(after_pushes.take(after_pushes.len() as int) =~= after_pushes);
    let attacks = pawn_attacks_sq(us, src);
    let caps = attacks.and_bb(their_occ);
    let captures = caps.squares();
    let mut j: usize = 0;
    while j < captures.len()
        invariant
            j <= captures.len(),
            board.wf(),
            us == board.side(),
            src.0 < 144,
            s0 == src.0,
            promo_rank as int == promo_rank_of(us),
            board.locs()[src.0 as int] == piece_of(us, PieceType::P),
            forall|k: int| 0 <= k < captures.len() ==> #[trigger] caps.has(captures[k].0 as int),
            forall|t: int| #[trigger] caps.has(t) == (pawn_target(us, src.0 as int, t) && their_occ.has(t)),
            forall|s: int|
                #[trigger] their_occ.has(s) == (0 <= s < 144 && owner_of(board.locs()[s]) == Some(
                    opponent(us),
                )),
            extends_with(start, list@, *board, false),
            extends_with(after_pushes, list@, *board, false),
            forall|x: HyperMove|
                pawn_capture_rule(*board, x, s0, x.dst_index()) && (exists|k: int|
                    0 <= k < j && #[trigger] captures@[k].0 == x.dst_index()) ==> #[trigger] list@.contains(x),
            forall|k: int, l: int| 0 <= k < l < captures.len() ==> captures@[k].0 < captures@[l].0,
            start.len() <= after_pushes.len() <= list@.len(),
            distinct_from(list@, start.len() as int),
            forall|k: int|
                start.len() <= k < after_pushes.len() ==> #[trigger] list@[k].src_index() == src.0
                    && push_flag(list@[k]),
            forall|k: int|
                after_pushes.len() <= k < list@.len() ==> #[trigger] list@[k].src_index() == src.0
                    && capture_flag_of(list@[k]) && exists|t: int|
                    0 <= t < j && captures@[t].0 == list@[k].dst_index(),
        decreases captures.len() - j,
    {
        let dst = captures[j];
        assert(caps.has(dst.0 as int));
        let ghost before = list@;
        if dst.rank_idx() == promo_rank {
            push_promotions(board, src, dst, true, list);
            proof {
                lemma_extends_trans(start, before, list@, *board, false);
                lemma_extends_trans(after_pushes, before, list@, *board, false);
                assert forall|a: int, b: int|
                    start.len() <= a < before.len() && before.len() <= b < list@.len() implies list@[a]
                    != list@[b] by {
                    assert(list@[a] == before[a]);
                    if a >= after_pushes.len() {
                        let t = choose|t: int| 0 <= t < j && captures@[t].0 == before[a].dst_index();
                        assert(captures@[t].0 < captures@[j as int].0);
                    }
                }
                assert forall|a: int, b: int|
                    start.len() <= a < before.len() && start.len() <= b < before.len() && a != b implies list@[a]
                    != list@[b] by {
                    assert(list@[a] == before[a] && list@[b] == before[b]);
                }
                lemma_distinct_join(list@, start.len() as int, before.len() as int);
            }
        } else {
            let m = HyperMove::make_capture(src, dst);
            proof {
                assert(pseudo_move(*board, m));
                assert(pawn_capture_rule(*board, m, s0, dst.0 as int));
                lemma_extends_push(list@, m, *board, false);
                lemma_extends_trans(start, list@, list@.push(m), *board, false);
                lemma_extends_trans(after_pushes, list@, list@.push(m), *board, false);
                assert forall|k: int| start.len() <= k < list@.len() implies list@[k] != m by {
                    if k >= after_pushes.len() {
                        let t = choose|t: int| 0 <= t < j && captures@[t].0 == list@[k].dst_index();
                        assert(captures@[t].0 < captures@[j as int].0);
                    }
                }
                lemma_push_distinct(list@, start.len() as int, m);
            }
            list.push(m);
        }
        proof {
            assert forall|k: int| start.len() <= k < after_pushes.len() implies #[trigger] list@[k].src_index()
                == src.0 && push_flag(list@[k]) by {
                assert(list@[k] == before[k]);
            }
            assert forall|k: int|
                after_pushes.len() <= k < list@.len() implies #[trigger] list@[k].src_index() == src.0
                    && capture_flag_of(list@[k]) && exists|t: int|
                    0 <= t < j + 1 && captures@[t].0 == list@[k].dst_index() by {
                if k < before.len() {
                    assert(list@[k] == before[k]);
                    let t = choose|t: int| 0 <= t < j && captures@[t].0 == before[k].dst_index();
                    assert(captures@[t].0 == list@[k].dst_index());
                } else {
                    assert(captures@[j as int].0 == list@[k].dst_index());
                }
            }
            assert forall|x: HyperMove|
                pawn_capture_rule(*board, x, s0, x.dst_index()) && (exists|k: int|
                    0 <= k < j + 1 && #[trigger] captures@[k].0 == x.dst_index()) implies #[trigger] list@.contains(x) by {
                let k = choose|k: int| 0 <= k < j + 1 && #[trigger] captures@[k].0 == x.dst_index();
                if k < j {
                    lemma_extends_contains(before, list@, *board, false, x);
                } else if sq_rank(dst.0 as int) != promo_rank_of(us) {
                    HyperMove::lemma_bits_injective(x, list@.last());
                }
            }
        }
        j += 1;
    }
    let ghost after_caps = list@;
    proof {
        assert forall|x: HyperMove| pawn_capture_rule(*board, x, s0, x.dst_index()) implies #[trigger] after_caps.contains(x) by {
            assert(caps.has(x.dst_index()));
            let k = choose|k: int| 0 <= k < captures.len() && captures@[k].0 == x.dst_index();
            assert(captures@[k].0 == x.dst_index());
        }
        assert forall|x: HyperMove|
            pawn_push_rule(*board, x, s0, x.dst_index()) || pawn_double_rule(*board, x, s0, x.dst_index())
            implies #[trigger] after_caps.contains(x) by {
            lemma_extends_contains(after_pushes, after_caps, *board, false, x);
        }
    }
    assert(after_caps.take(after_caps.len() as int) =~= after_caps);
    let ep_sq = board.state.ep_square;
    if ep_sq.is_okay() && attacks.test_bit(ep_sq) {
        let victim_val = ep_sq.0 as i32 - push_dir;
        if 0 <= victim_val && victim_val < 144 && board.piece_at(ep_sq) == Piece::Empty {
            let victim = SQ(victim_val as u8);
            if board.piece_at(victim) == Piece::make_lossy(us.other_player(), PieceType::P) {
                let m = HyperMove::make_ep_capture(src, ep_sq);
                proof {
                    assert(pseudo_move(*board, m));
                    assert(pawn_ep_rule(*board, m, s0, ep_sq.0 as int));
                    lemma_extends_push(list@, m, *board, false);
                    lemma_extends_trans(start, list@, list@.push(m), *board, false);
                    lemma_extends_trans(after_caps, list@, list@.push(m), *board, false);
                    assert forall|k: int| start.len() <= k < list@.len() implies list@[k] != m by {
                        if k < after_pushes.len() {
                            assert(push_flag(list@[k]));
                        } else {
                            assert(capture_flag_of(list@[k]));
                        }
                    }
                    lemma_push_distinct(list@, start.len() as int, m);
                }
                list.push(m);
                proof {
                    assert forall|x: HyperMove| pawn_ep_rule(*board, x, s0, x.dst_index()) implies #[trigger] list@.contains(x) by {
                        HyperMove::lemma_bits_injective(x, m);
                    }
                }
            }
        }
    }
    proof {
        assert forall|k: int| start.len() <= k < list@.len() implies #[trigger] list@[k].src_index() == src.0 by {
            if k < after_caps.len() {
                assert(list@[k] == after_caps[k]);
                if k < after_pushes.len() {
                    assert(after_caps[k].src_index() == src.0 && push_flag(after_caps[k]));
                }
            }
        }
        assert forall|x: HyperMove|
            pawn_rule(*board, x) && x.src_index() == src.0 implies #[trigger] list@.contains(x) by {
            let d = x.dst_index();
            if pawn_push_rule(*board, x, s0, d) || pawn_double_rule(*board, x, s0, d)
                || pawn_capture_rule(*board, x, s0, d) {
                lemma_extends_contains(after_caps, list@, *board, false, x);
            } else {
                assert(pawn_ep_rule(*board, x, s0, d));
                assert(attacks.has(ep_sq.0 as int));
            }
        }
    }
}

/// Generates pawn moves (push, double push, capture, en passant, promotion).
pub fn gen_pawn_moves(
    board: &Board,
    us: Player,
    our_occ: BitBoard,
    their_occ: BitBoard,
    all_occ: BitBoard,
    list: &mut MoveList,
)
    requires
        board.wf(),
        us == board.side(),
        forall|s: int|
            #[trigger] their_occ.has(s) == (0 <= s < 144 && owner_of(board.locs()[s]) == Some(
                opponent(us),
            )),
        forall|s: int| #[trigger] all_occ.has(s) == (0 <= s < 144 && board.locs()[s] != Piece::Empty),
    ensures
        extends_with(old(list)@, final(list)@, *board, false),
        forall|m: HyperMove| pawn_rule(*board, m) ==> #[trigger] final(list)@.contains(m),
        distinct_from(final(list)@, old(list)@.len() as int),
        forall|k: int|
            old(list)@.len() <= k < final(list)@.len() ==> 0 <= #[trigger] final(list)@[k].src_index()
                < 144 && board.locs()[final(list)@[k].src_index()] == piece_of(us, PieceType::P),
{
    let bb = board.piece_bb(us, PieceType::P);
    let pawns = bb.squares();
    assert forall|k: int| 0 <= k < pawns.len() implies 0 <= #[trigger] pawns[k].0 < 144
        && board.locs()[pawns[k].0 as int] == piece_of(us, PieceType::P) by {
        assert(bb.has(pawns[k].0 as int));
    }
    let ghost start = list@;
    assert(start.take(start.len() as int) =~= start);
    let mut i: usize = 0;
    while i < pawns.len()
        invariant
            i <= pawns.len(),
            board.wf(),
            us == board.side(),
            forall|k: int|
                0 <= k < pawns.len() ==> 0 <= #[trigger] pawns[k].0 < 144 && board.locs()[pawns[k].0 as int]
                    == piece_of(us, PieceType::P),
            forall|s: int|
                #[trigger] their_occ.has(s) == (0 <= s < 144 && owner_of(board.locs()[s]) == Some(
                    opponent(us),
                )),
            forall|s: int| #[trigger] all_occ.has(s) == (0 <= s < 144 && board.locs()[s] != Piece::Empty),
            extends_with(start, list@, *board, false),
            forall|m: HyperMove|
                pawn_rule(*board, m) && (exists|k: int|
                    0 <= k < i && #[trigger] pawns@[k].0 == m.src_index()) ==> #[trigger] list@.contains(m),
            forall|k: int, l: int| 0 <= k < l < pawns.len() ==> pawns@[k].0 < pawns@[l].0,
            start.len() <= list@.len(),
            distinct_from(list@, start.len() as int),
            forall|k: int|
                start.len() <= k < list@.len() ==> exists|t: int|
                    0 <= t < i && #[trigger] pawns@[t].0 == #[trigger] list@[k].src_index(),
        decreases pawns.len() - i,
    {
        let ghost before = list@;
        gen_from(board, us, pawns[i], their_occ, all_occ, list);
        proof {
            assert forall|a: int, b: int|
                start.len() <= a < list@.len() && start.len() <= b < list@.len() && a != b implies list@[a]
                != list@[b] by {
                if a < before.len() && b < before.len() {
                    assert(list@[a] == before[a] && list@[b] == before[b]);
                } else if a < before.len() {
                    assert(list@[a] == before[a]);
                    let t = choose|t: int| 0 <= t < i && #[trigger] pawns@[t].0 == before[a].src_index();
                    assert(pawns@[t].0 < pawns@[i as int].0);
                } else if b < before.len() {
                    assert(list@[b] == before[b]);
                    let t = choose|t: int| 0 <= t < i && #[trigger] pawns@[t].0 == before[b].src_index();
                    assert(pawns@[t].0 < pawns@[i as int].0);
                }
            }
            assert forall|k: int| start.len() <= k < list@.len() implies exists|t: int|
                0 <= t < i + 1 && #[trigger] pawns@[t].0 == #[trigger] list@[k].src_index() by {
                if k < before.len() {
                    assert(list@[k] == before[k]);
                    let t = choose|t: int| 0 <= t < i && #[trigger] pawns@[t].0 == before[k].src_index();
                    assert(pawns@[t].0 == list@[k].src_index());
                } else {
                    assert(pawns@[i as int].0 == list@[k].src_index());
                }
            }
            lemma_extends_trans(start, before, list@, *board, false);
            assert forall|m: HyperMove|
                pawn_rule(*board, m) && (exists|k: int|
                    0 <= k < i + 1 && #[trigger] pawns@[k].0 == m.src_index()) implies #[trigger] list@.contains(m) by {
                let k = choose|k: int| 0 <= k < i + 1 && #[trigger] pawns@[k].0 == m.src_index();
                if k < i {
                    lemma_extends_contains(before, list@, *board, false, m);
                }
            }
        }
        i += 1;
    }
    proof {
        assert forall|k: int| start.len() <= k < list@.len() implies 0 <= #[trigger] list@[k].src_index()
            < 144 && board.locs()[list@[k].src_index()] == piece_of(us, PieceType::P) by {
            let t = choose|t: int| 0 <= t < pawns.len() && #[trigger] pawns@[t].0 == list@[k].src_index();
            assert(0 <= pawns@[t].0 < 144 && board.locs()[pawns@[t].0 as int] == piece_of(us, PieceType::P));
        }
        assert forall|m: HyperMove| pawn_rule(*board, m) implies #[trigger] list@.contains(m) by {
            assert(bb.has(m.src_index()));
            let k = choose|k: int| 0 <= k < pawns.len() && pawns@[k].0 == m.src_index();
            assert(pawns@[k].0 == m.src_index());
        }
    }
}

} // verus!
