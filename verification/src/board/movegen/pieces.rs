//! Move generation for the non-pawn, non-king pieces:
//! Knight, Bishop, Rook, Queen, Eagle, Hawk.

use vstd::prelude::*;

use super::rules::{is_pattern_kind, landing_flag, piece_rule};
use super::{
    distinct_from, extends_with, lemma_extends_contains, lemma_extends_push, lemma_extends_trans,
    lemma_push_distinct, pseudo_move,
};
use crate::board::Board;
use crate::core_types::bitboard::BitBoard;
use crate::core_types::move_list::MoveList;
use crate::core_types::piece::{owner_of, piece_of, type_of_piece, Piece};
use crate::core_types::piece_move::HyperMove;
use crate::core_types::piece_type::PieceType;
use crate::core_types::player::Player;
use crate::core_types::sq::SQ;
use crate::helper::prelude::{piece_attacks, piece_reach};

verus! {

/// Pseudo-legal moves of the piece of `us` on `src`, to every square its
/// attacks reach that does not hold a piece of `us`.
fn gen_moves_from(
    board: &Board,
    us: Player,
    pt: PieceType,
    src: SQ,
    our_occ: BitBoard,
    all_occ: BitBoard,
    list: &mut MoveList,
)
    requires
        board.wf(),
        us == board.side(),
        pt == PieceType::N || pt == PieceType::B || pt == PieceType::R || pt == PieceType::Q || pt
            == PieceType::E || pt == PieceType::H,
        src.0 < 144,
        board.locs()[src.0 as int] == piece_of(us, pt),
        forall|s: int|
            #[trigger] our_occ.has(s) == (0 <= s < 144 && owner_of(board.locs()[s]) == Some(us)),
        all_occ == board.occ(),
    ensures
        extends_with(old(list)@, final(list)@, *board, false),
        forall|m: HyperMove|
            piece_rule(*board, m) && m.src_index() == src.0 ==> #[trigger] final(list)@.contains(m),
        distinct_from(final(list)@, old(list)@.len() as int),
        forall|k: int|
            old(list)@.len() <= k < final(list)@.len() ==> #[trigger] final(list)@[k].src_index()
                == src.0,
{
    proof {
        crate::board::lemma_slots();
    }
    let attacks = piece_attacks(pt, src, all_occ).and_bb(our_occ.not_bb());
    let targets = attacks.squares();
    let ghost start = list@;
    let mut j: usize = 0;
    assert(start.take(start.len() as int) =~= start);
    while j < targets.len()
        invariant
            j <= targets.len(),
            board.wf(),
            us == board.side(),
            src.0 < 144,
            board.locs()[src.0 as int] == piece_of(us, pt),
            pt == PieceType::N || pt == PieceType::B || pt == PieceType::R || pt == PieceType::Q
                || pt == PieceType::E || pt == PieceType::H,
            forall|k: int| 0 <= k < targets.len() ==> #[trigger] attacks.has(targets[k].0 as int),
            forall|t: int|
                #[trigger] attacks.has(t) == (piece_reach(pt, src.0 as int, t, all_occ) && (0 <= t
                    < 144 && !our_occ.has(t))),
            forall|s: int|
                #[trigger] our_occ.has(s) == (0 <= s < 144 && owner_of(board.locs()[s]) == Some(us)),
            all_occ == board.occ(),
            extends_with(start, list@, *board, false),
            forall|m: HyperMove|
                piece_rule(*board, m) && m.src_index() == src.0 && (exists|k: int|
                    0 <= k < j && #[trigger] targets@[k].0 == m.dst_index()) ==> #[trigger] list@.contains(m),
            forall|k: int, l: int| 0 <= k < l < targets.len() ==> targets@[k].0 < targets@[l].0,
            distinct_from(list@, start.len() as int),
            start.len() <= list@.len(),
            forall|k: int|
                start.len() <= k < list@.len() ==> #[trigger] list@[k].src_index() == src.0 && exists|t: int|
                    0 <= t < j && targets@[t].0 == list@[k].dst_index(),
        decreases targets.len() - j,
    {
        let dst = targets[j];
        assert(attacks.has(dst.0 as int));
        let m = if board.piece_at(dst) != Piece::Empty {
            HyperMove::make_capture(src, dst)
        } else {
            HyperMove::make_quiet(src, dst)
        };
        let ghost before = list@;
        proof {
            assert(dst.0 != src.0);
            assert(pseudo_move(*board, m));
            assert(piece_rule(*board, m));
            lemma_extends_push(list@, m, *board, false);
            lemma_extends_trans(start, list@, list@.push(m), *board, false);
            assert forall|k: int| start.len() <= k < list@.len() implies list@[k] != m by {
                let t = choose|t: int| 0 <= t < j && targets@[t].0 == list@[k].dst_index();
                assert(targets@[t].0 < targets@[j as int].0);
            }
            lemma_push_distinct(list@, start.len() as int, m);
        }
        list.push(m);
        proof {
            assert forall|k: int| start.len() <= k < list@.len() implies #[trigger] list@[k].src_index()
                == src.0 && exists|t: int| 0 <= t < j + 1 && targets@[t].0 == list@[k].dst_index() by {
                if k < before.len() {
                    assert(list@[k] == before[k]);
                    let t = choose|t: int| 0 <= t < j && targets@[t].0 == before[k].dst_index();
                    assert(targets@[t].0 == list@[k].dst_index());
                } else {
                    assert(targets@[j as int].0 == list@[k].dst_index());
                }
            }
        }
        proof {
            assert forall|x: HyperMove|
                piece_rule(*board, x) && x.src_index() == src.0 && (exists|k: int|
                    0 <= k < j + 1 && #[trigger] targets@[k].0 == x.dst_index()) implies #[trigger] list@.contains(x) by {
                let k = choose|k: int| 0 <= k < j + 1 && #[trigger] targets@[k].0 == x.dst_index();
                if k < j {
                    lemma_extends_contains(before, list@, *board, false, x);
                } else {
                    assert(x.bits() == m.bits());
                    HyperMove::lemma_bits_injective(x, m);
                }
            }
        }
        j += 1;
    }
    proof {
        assert forall|x: HyperMove| piece_rule(*board, x) && x.src_index() == src.0 implies #[trigger] list@.contains(x) by {
            assert(attacks.has(x.dst_index()));
            let k = choose|k: int| 0 <= k < targets.len() && targets@[k].0 == x.dst_index();
            assert(targets@[k].0 == x.dst_index());
        }
    }
}

/// Generates pseudo-legal moves for a non-pawn, non-king piece type.
pub fn gen_piece_moves(
    board: &Board,
    us: Player,
    pt: PieceType,
    our_occ: BitBoard,
    all_occ: BitBoard,
    list: &mut MoveList,
)
    requires
        board.wf(),
        us == board.side(),
        pt == PieceType::N || pt == PieceType::B || pt == PieceType::R || pt == PieceType::Q || pt
            == PieceType::E || pt == PieceType::H,
        forall|s: int|
            #[trigger] our_occ.has(s) == (0 <= s < 144 && owner_of(board.locs()[s]) == Some(us)),
        all_occ == board.occ(),
    ensures
        extends_with(old(list)@, final(list)@, *board, false),
        forall|m: HyperMove|
            piece_rule(*board, m) && type_of_piece(board.locs()[m.src_index()]) == pt
                ==> #[trigger] final(list)@.contains(m),
        distinct_from(final(list)@, old(list)@.len() as int),
        forall|k: int|
            old(list)@.len() <= k < final(list)@.len() ==> 0 <= #[trigger] final(list)@[k].src_index()
                < 144 && board.locs()[final(list)@[k].src_index()] == piece_of(us, pt),
{
    let bb = board.piece_bb(us, pt);
    let pieces = bb.squares();
    assert forall|k: int| 0 <= k < pieces.len() implies 0 <= #[trigger] pieces[k].0 < 144
        && board.locs()[pieces[k].0 as int] == piece_of(us, pt) by {
        assert(bb.has(pieces[k].0 as int));
    }
    let ghost start = list@;
    assert(start.take(start.len() as int) =~= start);
    let mut i: usize = 0;
    while i < pieces.len()
        invariant
            i <= pieces.len(),
            board.wf(),
            us == board.side(),
            pt == PieceType::N || pt == PieceType::B || pt == PieceType::R || pt == PieceType::Q
                || pt == PieceType::E || pt == PieceType::H,
            forall|k: int|
                0 <= k < pieces.len() ==> 0 <= #[trigger] pieces[k].0 < 144 && board.locs()[pieces[k].0 as int]
                    == piece_of(us, pt),
            forall|s: int|
                #[trigger] our_occ.has(s) == (0 <= s < 144 && owner_of(board.locs()[s]) == Some(us)),
            all_occ == board.occ(),
            extends_with(start, list@, *board, false),
            forall|m: HyperMove|
                piece_rule(*board, m) && (exists|k: int|
                    0 <= k < i && #[trigger] pieces@[k].0 == m.src_index()) ==> #[trigger] list@.contains(m),
            forall|k: int, l: int| 0 <= k < l < pieces.len() ==> pieces@[k].0 < pieces@[l].0,
            start.len() <= list@.len(),
            distinct_from(list@, start.len() as int),
            forall|k: int|
                start.len() <= k < list@.len() ==> exists|t: int|
                    0 <= t < i && #[trigger] pieces@[t].0 == #[trigger] list@[k].src_index(),
        decreases pieces.len() - i,
    {
        let ghost before = list@;
        gen_moves_from(board, us, pt, pieces[i], our_occ, all_occ, list);
        proof {
            assert forall|a: int, b: int|
                start.len() <= a < list@.len() && start.len() <= b < list@.len() && a != b implies list@[a]
                != list@[b] by {
                if a < before.len() && b < before.len() {
                    assert(list@[a] == before[a] && list@[b] == before[b]);
                } else if a < before.len() {
                    assert(list@[a] == before[a]);
                    let t = choose|t: int| 0 <= t < i && #[trigger] pieces@[t].0 == before[a].src_index();
                    assert(pieces@[t].0 < pieces@[i as int].0);
                } else if b < before.len() {
                    assert(list@[b] == before[b]);
                    let t = choose|t: int| 0 <= t < i && #[trigger] pieces@[t].0 == before[b].src_index();
                    assert(pieces@[t].0 < pieces@[i as int].0);
                }
            }
            assert forall|k: int| start.len() <= k < list@.len() implies exists|t: int|
                0 <= t < i + 1 && #[trigger] pieces@[t].0 == #[trigger] list@[k].src_index() by {
                if k < before.len() {
                    assert(list@[k] == before[k]);
                    let t = choose|t: int| 0 <= t < i && #[trigger] pieces@[t].0 == before[k].src_index();
                    assert(pieces@[t].0 == list@[k].src_index());
                } else {
                    assert(pieces@[i as int].0 == list@[k].src_index());
                }
            }
            lemma_extends_trans(start, before, list@, *board, false);
            assert forall|m: HyperMove|
                piece_rule(*board, m) && (exists|k: int|
                    0 <= k < i + 1 && #[trigger] pieces@[k].0 == m.src_index()) implies #[trigger] list@.contains(m) by {
                let k = choose|k: int| 0 <= k < i + 1 && #[trigger] pieces@[k].0 == m.src_index();
                if k < i {
                    lemma_extends_contains(before, list@, *board, false, m);
                }
            }
        }
        i += 1;
    }
    proof {
        assert forall|k: int| start.len() <= k < list@.len() implies 0 <= #[trigger] list@[k].src_index()
            < 144 && board.locs()[list@[k].src_index()] == piece_of(us, pt) by {
            let t = choose|t: int| 0 <= t < pieces.len() && #[trigger] pieces@[t].0 == list@[k].src_index();
            assert(0 <= pieces@[t].0 < 144 && board.locs()[pieces@[t].0 as int] == piece_of(us, pt));
        }
        assert forall|m: HyperMove|
            piece_rule(*board, m) && type_of_piece(board.locs()[m.src_index()]) == pt implies #[trigger] list@.contains(m) by {
            let x = board.locs()[m.src_index()];
            assert(piece_of(us, pt) == x);
            assert(bb.has(m.src_index()));
            let k = choose|k: int| 0 <= k < pieces.len() && pieces@[k].0 == m.src_index();
            assert(pieces@[k].0 == m.src_index());
        }
    }
}

} // verus!
