//! Move generation for HyperChess.
//!
//! Pseudo-legal moves for pawns and the sliding/jumping pieces are generated
//! into a scratch list and then filtered by [`legality::is_legal`]; king moves
//! and castling are generated directly as legal moves.

pub mod king;
pub mod legality;
pub mod pawn;
pub mod pieces;
pub mod rules;

use vstd::prelude::*;

use super::attacks::attacked_by;
use super::move_apply::{is_castle_move, is_ep_move, kings_after, locs_after};
use crate::core_types::piece::piece_of;
use super::Board;
use rules::{
    castle_rule, ep_checker_capture, king_rule, lemma_pseudo_rule, lemma_rule_flags, pawn_rule,
    piece_rule, rule_move,
};
use crate::core_types::bitboard::BitBoard;
use crate::core_types::move_list::MoveList;
use crate::core_types::piece::{type_of_piece, Piece};
use crate::core_types::piece_move::HyperMove;
use crate::core_types::piece_type::PieceType;
use crate::core_types::player::{opponent, player_index};

verus! {

/// `occ` marks exactly the occupied squares of the layout `locs`.
pub open spec fn occupancy_of(occ: BitBoard, locs: Seq<Piece>) -> bool {
    forall|s: int| #[trigger] occ.has(s) == (0 <= s < 144 && locs[s] != Piece::Empty)
}

/// A move the side to move can make: one the rules give it that leaves its
/// king unattacked, other than an en passant capture of a pawn that gives
/// check.
pub open spec fn movable(b: Board, m: HyperMove) -> bool {
    rule_move(b, m) && legal_move(b, m) && !ep_checker_capture(b, m)
}

/// The moves the side to move can make.
pub open spec fn movable_moves(b: Board) -> Set<HyperMove> {
    Set::new(|m: HyperMove| movable(b, m))
}

/// The side to move has a move.
pub open spec fn has_legal_move(b: Board) -> bool {
    exists|m: HyperMove| #[trigger] movable(b, m)
}

/// Once `m` is played, no piece of the opponent attacks the mover's king
/// square.
pub open spec fn leaves_king_safe(b: Board, m: HyperMove) -> bool {
    let us = b.side();
    let locs1 = locs_after(b.locs(), us, m);
    let k = kings_after(b.kings(), b.locs(), us, m)[player_index(us)].0 as int;
    forall|occ: BitBoard|
        #[trigger] occupancy_of(occ, locs1) ==> !attacked_by(locs1, opponent(us), k, occ)
}

/// A pseudo-legal move of a pawn or of a piece other than the king: it can
/// be played and taken back.
pub open spec fn pseudo_move(b: Board, m: HyperMove) -> bool {
    &&& b.move_shape_ok(m)
    &&& b.reversible(m)
    &&& !is_castle_move(m)
    &&& is_ep_move(m) || m.promo_flag() || type_of_piece(b.locs()[m.src_index()]) != PieceType::K
}

/// A legal move: it can be played and taken back, and it leaves the mover's
/// king unattacked.
pub open spec fn legal_move(b: Board, m: HyperMove) -> bool {
    &&& b.move_shape_ok(m)
    &&& b.reversible(m)
    &&& leaves_king_safe(b, m)
}

/// `new` is `old` with moves appended, each a move of the rules that is
/// pseudo-legal (`legal` false) or legal (`legal` true) on `b`.
pub open spec fn extends_with(old: Seq<HyperMove>, new: Seq<HyperMove>, b: Board, legal: bool) -> bool {
    &&& old.len() <= new.len()
    &&& new.take(old.len() as int) == old
    &&& forall|k: int|
        old.len() <= k < new.len() ==> rule_move(b, #[trigger] new[k]) && (if legal {
            legal_move(b, new[k])
        } else {
            pseudo_move(b, new[k])
        })
}

/// Extending a list keeps what it held.
pub proof fn lemma_extends_contains(
    old: Seq<HyperMove>,
    new: Seq<HyperMove>,
    b: Board,
    legal: bool,
    m: HyperMove,
)
    requires
        extends_with(old, new, b, legal),
        old.contains(m),
    ensures
        new.contains(m),
{
    let i = choose|i: int| 0 <= i < old.len() && old[i] == m;
    assert(new.take(old.len() as int)[i] == new[i]);
}

/// Appending in two steps appends in one.
pub proof fn lemma_extends_trans(
    a: Seq<HyperMove>,
    b: Seq<HyperMove>,
    c: Seq<HyperMove>,
    board: Board,
    legal: bool,
)
    requires
        extends_with(a, b, board, legal),
        extends_with(b, c, board, legal),
    ensures
        extends_with(a, c, board, legal),
{
    assert(c.take(a.len() as int) =~= a) by {
        assert(c.take(a.len() as int) =~= c.take(b.len() as int).take(a.len() as int));
    }
    assert forall|k: int| a.len() <= k < c.len() implies rule_move(board, #[trigger] c[k]) && (if legal {
        legal_move(board, c[k])
    } else {
        pseudo_move(board, c[k])
    }) by {
        if k < b.len() {
            assert(c[k] == c.take(b.len() as int)[k]);
        }
    }
}

/// The moves of `l` from index `n` on are pairwise distinct.
pub open spec fn distinct_from(l: Seq<HyperMove>, n: int) -> bool {
    forall|i: int, j: int| n <= i < l.len() && n <= j < l.len() && i != j ==> l[i] != l[j]
}

/// Appending a move that none of the moves from `n` on equals keeps them
/// distinct.
pub proof fn lemma_push_distinct(l: Seq<HyperMove>, n: int, m: HyperMove)
    requires
        0 <= n <= l.len(),
        distinct_from(l, n),
        forall|k: int| n <= k < l.len() ==> l[k] != m,
    ensures
        distinct_from(l.push(m), n),
{
    assert forall|i: int, j: int|
        n <= i < l.len() + 1 && n <= j < l.len() + 1 && i != j implies l.push(m)[i] != l.push(m)[j] by {
        if i < l.len() && j < l.len() {
        } else if i < l.len() {
            assert(l.push(m)[i] == l[i]);
        } else {
            assert(l.push(m)[j] == l[j]);
        }
    }
}

/// Two runs of distinct moves with no move in common make one run.
pub proof fn lemma_distinct_join(l: Seq<HyperMove>, n: int, m: int)
    requires
        0 <= n <= m <= l.len(),
        forall|i: int, j: int| n <= i < m && n <= j < m && i != j ==> l[i] != l[j],
        distinct_from(l, m),
        forall|i: int, j: int| n <= i < m && m <= j < l.len() ==> l[i] != l[j],
    ensures
        distinct_from(l, n),
{
    assert forall|i: int, j: int| n <= i < l.len() && n <= j < l.len() && i != j implies l[i] != l[j] by {
        if i < m && j >= m {
        } else if j < m && i >= m {
        }
    }
}

/// Appending one qualifying move extends a list.
pub proof fn lemma_extends_push(a: Seq<HyperMove>, m: HyperMove, board: Board, legal: bool)
    requires
        rule_move(board, m),
        legal ==> legal_move(board, m),
        !legal ==> pseudo_move(board, m),
    ensures
        extends_with(a, a.push(m), board, legal),
        a.push(m).contains(m),
{
    assert(a.push(m).take(a.len() as int) =~= a);
    assert(a.push(m)[a.len() as int] == m);
}

/// Generates all legal moves for the current position: king moves, then
/// castles, then the pawn and piece moves that pass the legality filter.
pub fn generate_all_moves(board: &Board, list: &mut MoveList)
    requires
        board.ready(),
    ensures
        extends_with(old(list)@, final(list)@, *board, true),
        forall|k: int|
            old(list)@.len() <= k < final(list)@.len() ==> !ep_checker_capture(
                *board,
                #[trigger] final(list)@[k],
            ),
        forall|m: HyperMove|
            rule_move(*board, m) && legal_move(*board, m) && !ep_checker_capture(*board, m)
                ==> #[trigger] final(list)@.contains(m),
        distinct_from(final(list)@, old(list)@.len() as int),
{
    let us = board.turn();
    let our_occ = board.occupied_player(us);
    let their_occ = board.occupied_player(us.other_player());
    let all_occ = board.occupied();
    let king = board.king_sq(us);
    let ghost start = list@;
    let mut pseudo = MoveList::new();
    let ghost empty = pseudo@;
    pawn::gen_pawn_moves(board, us, our_occ, their_occ, all_occ, &mut pseudo);
    let ghost after_pawns = pseudo@;
    assert(after_pawns.take(after_pawns.len() as int) =~= after_pawns);
    assert(empty.len() == 0);
    let kinds = [
        PieceType::N,
        PieceType::B,
        PieceType::R,
        PieceType::Q,
        PieceType::E,
        PieceType::H,
    ];
    let mut i: usize = 0;
    while i < 6
        invariant
            i <= 6,
            board.ready(),
            us == board.side(),
            all_occ == board.occ(),
            kinds@ == seq![
                PieceType::N,
                PieceType::B,
                PieceType::R,
                PieceType::Q,
                PieceType::E,
                PieceType::H,
            ],
            forall|s: int|
                #[trigger] our_occ.has(s) == (0 <= s < 144 && crate::core_types::piece::owner_of(
                    board.locs()[s],
                ) == Some(us)),
            extends_with(empty, pseudo@, *board, false),
            extends_with(after_pawns, pseudo@, *board, false),
            forall|m: HyperMove| pawn_rule(*board, m) ==> #[trigger] after_pawns.contains(m),
            forall|m: HyperMove|
                piece_rule(*board, m) && (exists|k: int|
                    0 <= k < i && #[trigger] kinds@[k] == type_of_piece(board.locs()[m.src_index()]))
                    ==> #[trigger] pseudo@.contains(m),
            distinct_from(pseudo@, 0),
            forall|k: int|
                0 <= k < pseudo@.len() ==> {
                    let t = type_of_piece(board.locs()[#[trigger] pseudo@[k].src_index()]);
                    t == PieceType::P || exists|x: int| 0 <= x < i && kinds@[x] == t
                },
        decreases 6 - i,
    {
        let ghost before = pseudo@;
        pieces::gen_piece_moves(board, us, kinds[i], our_occ, all_occ, &mut pseudo);
        proof {
            assert forall|a: int, b: int|
                0 <= a < before.len() && before.len() <= b < pseudo@.len() implies pseudo@[a] != pseudo@[b] by {
                assert(pseudo@[a] == before[a]);
                let ta = type_of_piece(board.locs()[before[a].src_index()]);
                assert(ta == PieceType::P || exists|x: int| 0 <= x < i && kinds@[x] == ta);
                assert(type_of_piece(board.locs()[pseudo@[b].src_index()]) == kinds@[i as int]);
            }
            assert forall|a: int, b: int|
                0 <= a < before.len() && 0 <= b < before.len() && a != b implies pseudo@[a] != pseudo@[b] by {
                assert(pseudo@[a] == before[a] && pseudo@[b] == before[b]);
            }
            lemma_distinct_join(pseudo@, 0, before.len() as int);
            assert forall|k: int| 0 <= k < pseudo@.len() implies {
                let t = type_of_piece(board.locs()[#[trigger] pseudo@[k].src_index()]);
                t == PieceType::P || exists|x: int| 0 <= x < i + 1 && kinds@[x] == t
            } by {
                if k < before.len() {
                    assert(pseudo@[k] == before[k]);
                } else {
                    assert(kinds@[i as int] == type_of_piece(board.locs()[pseudo@[k].src_index()]));
                }
            }
            lemma_extends_trans(empty, before, pseudo@, *board, false);
            lemma_extends_trans(after_pawns, before, pseudo@, *board, false);
            assert forall|m: HyperMove|
                piece_rule(*board, m) && (exists|k: int|
                    0 <= k < i + 1 && #[trigger] kinds@[k] == type_of_piece(board.locs()[m.src_index()]))
                    implies #[trigger] pseudo@.contains(m) by {
                let k = choose|k: int|
                    0 <= k < i + 1 && #[trigger] kinds@[k] == type_of_piece(board.locs()[m.src_index()]);
                if k < i {
                    lemma_extends_contains(before, pseudo@, *board, false, m);
                }
            }
        }
        i += 1;
    }
    proof {
        assert forall|m: HyperMove| piece_rule(*board, m) || pawn_rule(*board, m) implies #[trigger] pseudo@.contains(m) by {
            if piece_rule(*board, m) {
                let t = type_of_piece(board.locs()[m.src_index()]);
                if t == PieceType::N {
                    assert(kinds@[0] == t);
                } else if t == PieceType::B {
                    assert(kinds@[1] == t);
                } else if t == PieceType::R {
                    assert(kinds@[2] == t);
                } else if t == PieceType::Q {
                    assert(kinds@[3] == t);
                } else if t == PieceType::E {
                    assert(kinds@[4] == t);
                } else {
                    assert(kinds@[5] == t);
                }
            } else {
                lemma_extends_contains(after_pawns, pseudo@, *board, false, m);
            }
        }
    }
    let ghost before_king = list@;
    king::gen_king_moves(board, us, our_occ, all_occ, list);
    let ghost after_king = list@;
    king::gen_castling(board, us, all_occ, list);
    let ghost after_castles = list@;
    proof {
        lemma_extends_trans(before_king, after_king, list@, *board, true);
        assert forall|a: int, b: int|
            start.len() <= a < after_king.len() && after_king.len() <= b < after_castles.len() implies after_castles[a]
            != after_castles[b] by {
            assert(after_castles[a] == after_king[a]);
        }
        assert forall|a: int, b: int|
            start.len() <= a < after_king.len() && start.len() <= b < after_king.len() && a != b implies after_castles[a]
            != after_castles[b] by {
            assert(after_castles[a] == after_king[a] && after_castles[b] == after_king[b]);
        }
        lemma_distinct_join(after_castles, start.len() as int, after_king.len() as int);
        assert forall|m: HyperMove|
            (king_rule(*board, m) && leaves_king_safe(*board, m)) || castle_rule(*board, m)
                implies #[trigger] after_castles.contains(m) by {
            if king_rule(*board, m) && leaves_king_safe(*board, m) {
                lemma_extends_contains(after_king, after_castles, *board, true, m);
            }
        }
        assert forall|k: int| start.len() <= k < after_castles.len() implies !ep_checker_capture(
            *board,
            #[trigger] after_castles[k],
        ) by {
            if k < after_king.len() {
                assert(after_castles[k] == after_castles.take(after_king.len() as int)[k]);
            }
        }
        assert(after_castles.take(after_castles.len() as int) =~= after_castles);
    }
    let mut j: usize = 0;
    while j < pseudo.len()
        invariant
            j <= pseudo@.len(),
            board.ready(),
            us == board.side(),
            king.0 == board.king_of(us),
            extends_with(empty, pseudo@, *board, false),
            empty.len() == 0,
            extends_with(start, list@, *board, true),
            extends_with(after_castles, list@, *board, true),
            start.len() <= after_castles.len(),
            forall|k: int| start.len() <= k < list@.len() ==> !ep_checker_capture(*board, #[trigger] list@[k]),
            forall|m: HyperMove|
                (king_rule(*board, m) && leaves_king_safe(*board, m)) || castle_rule(*board, m)
                    ==> #[trigger] after_castles.contains(m),
            forall|k: int|
                0 <= k < j && legal_move(*board, #[trigger] pseudo@[k]) && !ep_checker_capture(
                    *board,
                    pseudo@[k],
                ) ==> list@.contains(pseudo@[k]),
            distinct_from(pseudo@, 0),
            forall|k: int|
                0 <= k < pseudo@.len() ==> type_of_piece(
                    board.locs()[#[trigger] pseudo@[k].src_index()],
                ) != PieceType::K,
            distinct_from(list@, start.len() as int),
            start.len() <= after_king.len() <= after_castles.len() <= list@.len(),
            forall|k: int|
                start.len() <= k < after_king.len() ==> #[trigger] list@[k].src_index() == board.king_of(us)
                    && board.locs()[board.king_of(us)] == piece_of(us, PieceType::K),
            forall|k: int| after_king.len() <= k < after_castles.len() ==> is_castle_move(#[trigger] list@[k]),
            forall|k: int|
                after_castles.len() <= k < list@.len() ==> exists|t: int|
                    0 <= t < j && #[trigger] pseudo@[t] == #[trigger] list@[k],
        decreases pseudo@.len() - j,
    {
        let m = pseudo.get(j);
        let ghost before = list@;
        assert(pseudo_move(*board, m) && rule_move(*board, m)) by {
            assert(pseudo@[j as int] == m);
        }
        proof {
            lemma_pseudo_rule(*board, m);
            lemma_rule_flags(*board, m);
        }
        if legality::is_legal(board, m, us, king) {
            proof {
                lemma_extends_push(list@, m, *board, true);
                lemma_extends_trans(start, list@, list@.push(m), *board, true);
                lemma_extends_trans(after_castles, list@, list@.push(m), *board, true);
                assert(type_of_piece(board.locs()[pseudo@[j as int].src_index()]) != PieceType::K);
                assert forall|k: int| start.len() <= k < list@.len() implies list@[k] != m by {
                    if k < after_king.len() {
                        assert(list@[k].src_index() == board.king_of(us));
                    } else if k < after_castles.len() {
                        assert(is_castle_move(list@[k]));
                    } else {
                        let t = choose|t: int| 0 <= t < j && #[trigger] pseudo@[t] == #[trigger] list@[k];
                        assert(pseudo@[t] != pseudo@[j as int]);
                    }
                }
                lemma_push_distinct(list@, start.len() as int, m);
            }
            list.push(m);
        } else {
            assert(before.take(before.len() as int) =~= before);
        }
        proof {
            assert forall|k: int|
                after_castles.len() <= k < list@.len() implies exists|t: int|
                    0 <= t < j + 1 && #[trigger] pseudo@[t] == #[trigger] list@[k] by {
                if k < before.len() {
                    assert(list@[k] == before[k]);
                    let t = choose|t: int| 0 <= t < j && #[trigger] pseudo@[t] == #[trigger] before[k];
                    assert(pseudo@[t] == list@[k]);
                } else {
                    assert(pseudo@[j as int] == list@[k]);
                }
            }
            assert forall|k: int|
                start.len() <= k < after_king.len() implies #[trigger] list@[k].src_index() == board.king_of(us)
                    && board.locs()[board.king_of(us)] == piece_of(us, PieceType::K) by {
                assert(list@[k] == before[k]);
            }
            assert forall|k: int| after_king.len() <= k < after_castles.len() implies is_castle_move(#[trigger] list@[k]) by {
                assert(list@[k] == before[k]);
            }
            assert forall|k: int|
                0 <= k < j + 1 && legal_move(*board, #[trigger] pseudo@[k]) && !ep_checker_capture(
                    *board,
                    pseudo@[k],
                ) implies list@.contains(pseudo@[k]) by {
                if k < j {
                    lemma_extends_contains(before, list@, *board, true, pseudo@[k]);
                } else {
                    assert(pseudo@[k] == m);
                }
            }
        }
        j += 1;
    }
    proof {
        assert forall|m: HyperMove|
            rule_move(*board, m) && legal_move(*board, m) && !ep_checker_capture(*board, m)
                implies #[trigger] list@.contains(m) by {
            if (king_rule(*board, m) && leaves_king_safe(*board, m)) || castle_rule(*board, m) {
                lemma_extends_contains(after_castles, list@, *board, true, m);
            } else {
                assert(piece_rule(*board, m) || pawn_rule(*board, m));
                assert(pseudo@.contains(m));
                let k = choose|k: int| 0 <= k < pseudo@.len() && pseudo@[k] == m;
                assert(legal_move(*board, pseudo@[k]));
            }
        }
    }
}

impl Board {
    /// Generate all legal moves: exactly the moves the rules give the side
    /// to move that leave its king unattacked (an en passant capture of a
    /// pawn that gives check is not among them).
    pub fn generate_moves(&self) -> (r: MoveList)
        requires
            self.ready(),
        ensures
            forall|k: int| 0 <= k < r@.len() ==> movable(*self, #[trigger] r@[k]),
            forall|m: HyperMove| movable(*self, m) ==> #[trigger] r@.contains(m),
            r@.no_duplicates(),
            r@.len() == movable_moves(*self).len(),
            r@.len() > 0 <==> has_legal_move(*self),
    {
        let mut list = MoveList::new();
        generate_all_moves(self, &mut list);
        proof {
            assert(list@.no_duplicates());
            list@.unique_seq_to_set();
            assert(list@.to_set() =~= movable_moves(*self)) by {
                assert forall|m: HyperMove| list@.to_set().contains(m) implies movable(*self, m) by {
                    let k = choose|k: int| 0 <= k < list@.len() && list@[k] == m;
                    assert(!ep_checker_capture(*self, list@[k]));
                }
            }
            assert forall|k: int| 0 <= k < list@.len() implies movable(*self, #[trigger] list@[k]) by {
                assert(!ep_checker_capture(*self, list@[k]));
            }
            if list@.len() > 0 {
                assert(movable(*self, list@[0]));
            }
            if has_legal_move(*self) {
                let m = choose|m: HyperMove| #[trigger] movable(*self, m);
                assert(list@.contains(m));
            }
        }
        list
    }
}

} // verus!
