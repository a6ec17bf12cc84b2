//! Perft: counts the leaf positions of the legal move tree.

use vstd::prelude::*;

use super::move_apply::lemma_undo_restores;
use super::perft_laws::lemma_perft_count_of;
use super::movegen::{legal_move, movable, movable_moves};
use crate::core_types::piece_move::HyperMove;
use super::Board;
use crate::core_types::player::{opponent, Player};

verus! {

/// Two boards hold the same position, state and history.
pub open spec fn same_position(a: Board, b: Board) -> bool {
    &&& a.wf()
    &&& b.wf()
    &&& a.locs() == b.locs()
    &&& a.ids() == b.ids()
    &&& a.side() == b.side()
    &&& a.kings() == b.kings()
    &&& a.plies() == b.plies()
    &&& a.st() == b.st()
    &&& a.hist() == b.hist()
}

/// Both sides have a king square and every counter has room for `depth`
/// more plies.
pub open spec fn perft_ready(b: Board, depth: u32) -> bool {
    &&& b.wf()
    &&& b.king_of(Player::White) < 144
    &&& b.king_of(Player::Black) < 144
    &&& b.plies() + depth < 0xffff
    &&& b.st().rule50 + depth < 0xffff
    &&& b.st().fullmove + depth < 0xffff
}

/// The positions perft walks from `board`: the moves of the position and,
/// from depth two on, the tree below the position each move leads to.
pub struct PerftTree {
    /// The position.
    pub board: Board,
    /// Its moves.
    pub moves: Seq<HyperMove>,
    /// The trees below the positions the moves lead to, in the same order.
    pub kids: Seq<PerftTree>,
}

/// `l` lists each move of the side to move of `b` once.
pub open spec fn lists_moves(b: Board, l: Seq<HyperMove>) -> bool {
    &&& l.no_duplicates()
    &&& forall|k: int| 0 <= k < l.len() ==> movable(b, #[trigger] l[k])
    &&& forall|m: HyperMove| movable(b, m) ==> #[trigger] l.contains(m)
}

/// `t` is the tree of depth `d` of its position: each node lists the moves
/// of its position, and each move below depth one leads to its kid.
pub open spec fn tree_ok(t: PerftTree, d: nat) -> bool
    decreases d,
{
    if d == 0 {
        true
    } else {
        &&& lists_moves(t.board, t.moves)
        &&& d >= 2 ==> {
            &&& t.kids.len() == t.moves.len()
            &&& forall|k: int|
                0 <= k < t.kids.len() ==> t.board.applied(t.moves[k], #[trigger] t.kids[k].board)
                    && tree_ok(t.kids[k], (d - 1) as nat)
        }
    }
}

/// The leaves of a tree of depth `d`.
pub open spec fn leaf_count(t: PerftTree, d: nat) -> nat
    decreases d, 0int,
{
    if d == 0 {
        1
    } else if d == 1 {
        t.moves.len()
    } else {
        leaves_below(t.kids, (d - 1) as nat)
    }
}

/// The leaves of trees of depth `d`, added up.
pub open spec fn leaves_below(ks: Seq<PerftTree>, d: nat) -> nat
    decreases d, ks.len(),
{
    if ks.len() == 0 {
        0
    } else {
        leaves_below(ks.drop_last(), d) + leaf_count(ks.last(), d)
    }
}

/// The number of leaves of the trees of legal moves of depth `d` below `b`;
/// all such trees have as many.
pub open spec fn perft_count(b: Board, d: nat) -> nat {
    leaf_count(choose|t: PerftTree| t.board == b && #[trigger] tree_ok(t, d), d)
}

/// `x`, or the largest `u64` when it does not fit.
pub open spec fn saturated(x: nat) -> u64 {
    if x > u64::MAX {
        u64::MAX
    } else {
        x as u64
    }
}

/// Runs perft (performance test) to count nodes at a given depth: the
/// leaves of the tree of legal moves below the position, or the largest
/// `u64` when they do not fit. The board is left as it was found.
pub fn perft(board: &mut Board, depth: u32) -> (r: u64)
    requires
        perft_ready(*old(board), depth),
    ensures
        same_position(*final(board), *old(board)),
        exists|t: PerftTree|
            t.board == *old(board) && #[trigger] tree_ok(t, depth as nat) && r == saturated(
                leaf_count(t, depth as nat),
            ),
        r == saturated(perft_count(*old(board), depth as nat)),
        depth == 0 ==> r == 1,
        depth == 1 ==> r == movable_moves(*old(board)).len(),
    decreases depth,
{
    if depth == 0 {
        proof {
            let t = PerftTree { board: *old(board), moves: Seq::empty(), kids: Seq::empty() };
            assert(tree_ok(t, 0));
            lemma_perft_count_of(t, 0);
        }
        return 1;
    }
    proof {
        assert(old(board).side() == Player::White || old(board).side() == Player::Black);
    }
    let moves = board.generate_moves();
    if depth == 1 {
        proof {
            let t = PerftTree { board: *old(board), moves: moves@, kids: Seq::empty() };
            assert(tree_ok(t, 1));
            assert(leaf_count(t, 1) == moves@.len());
            lemma_perft_count_of(t, 1);
        }
        return moves.len() as u64;
    }
    let ghost b0 = *board;
    let ghost mut kids: Seq<PerftTree> = Seq::empty();
    let mut nodes: u64 = 0;
    let mut i: usize = 0;
    while i < moves.len()
        invariant
            i <= moves@.len(),
            same_position(*board, b0),
            perft_ready(b0, depth),
            depth >= 2,
            forall|k: int| 0 <= k < moves@.len() ==> legal_move(b0, #[trigger] moves@[k]),
            kids.len() == i,
            forall|k: int|
                0 <= k < i ==> b0.applied(moves@[k], #[trigger] kids[k].board) && tree_ok(
                    kids[k],
                    (depth - 1) as nat,
                ),
            nodes == saturated(leaves_below(kids, (depth - 1) as nat)),
        decreases moves@.len() - i,
    {
        let m = moves.get(i);
        assert(legal_move(b0, moves@[i as int]));
        let ghost before = *board;
        board.apply_move(m);
        let ghost after_apply = *board;
        let count = perft(board, depth - 1);
        proof {
            let tc = choose|t: PerftTree|
                t.board == after_apply && #[trigger] tree_ok(t, (depth - 1) as nat) && count
                    == saturated(leaf_count(t, (depth - 1) as nat));
            let a = leaves_below(kids, (depth - 1) as nat);
            let next = kids.push(tc);
            assert(next.drop_last() =~= kids);
            assert(leaves_below(next, (depth - 1) as nat) == a + leaf_count(tc, (depth - 1) as nat));
            assert forall|k: int| 0 <= k < i + 1 implies b0.applied(moves@[k], #[trigger] next[k].board)
                && tree_ok(next[k], (depth - 1) as nat) by {
                if k < i {
                    assert(next[k] == kids[k]);
                }
            }
            kids = next;
        }
        nodes = nodes.saturating_add(count);
        proof {
            assert(after_apply.undo_ok());
        }
        board.undo_move();
        proof {
            lemma_undo_restores(before, m, after_apply, *board);
        }
        i += 1;
    }
    proof {
        let t = PerftTree { board: b0, moves: moves@, kids: kids };
        assert(tree_ok(t, depth as nat));
        assert(leaf_count(t, depth as nat) == leaves_below(kids, (depth - 1) as nat));
        lemma_perft_count_of(t, depth as nat);
    }
    nodes
}

/// Perft split by first move: each legal move with the number of leaf
/// positions below it at `depth` (a single leaf when `depth` is at most 1).
/// The board is left as it was found.
pub fn perft_divide(board: &mut Board, depth: u32) -> (r: Vec<(HyperMove, u64)>)
    requires
        perft_ready(*old(board), depth),
        depth >= 1,
    ensures
        same_position(*final(board), *old(board)),
        forall|k: int| 0 <= k < r@.len() ==> movable(*old(board), #[trigger] r@[k].0),
        forall|m: HyperMove| movable(*old(board), m) ==> exists|k: int| 0 <= k < r@.len() && #[trigger] r@[k].0 == m,
        depth == 1 ==> forall|k: int| 0 <= k < r@.len() ==> #[trigger] r@[k].1 == 1,
        depth >= 2 ==> forall|k: int|
            #![trigger r@[k]]
            0 <= k < r@.len() ==> exists|t: PerftTree|
                #![trigger tree_ok(t, (depth - 1) as nat)]
                old(board).applied(r@[k].0, t.board) && tree_ok(t, (depth - 1) as nat) && r@[k].1
                    == saturated(leaf_count(t, (depth - 1) as nat)) && r@[k].1 == saturated(
                    perft_count(t.board, (depth - 1) as nat),
                ),
        r@.len() == movable_moves(*old(board)).len(),
        forall|i: int, j: int| 0 <= i < j < r@.len() ==> r@[i].0 != r@[j].0,
{
    proof {
        assert(old(board).side() == Player::White || old(board).side() == Player::Black);
    }
    let moves = board.generate_moves();
    let ghost b0 = *board;
    let ghost mut trees: Seq<PerftTree> = Seq::empty();
    let mut out: Vec<(HyperMove, u64)> = Vec::new();
    let mut i: usize = 0;
    while i < moves.len()
        invariant
            i <= moves@.len(),
            same_position(*board, b0),
            perft_ready(b0, depth),
            depth >= 1,
            forall|k: int| 0 <= k < moves@.len() ==> movable(b0, #[trigger] moves@[k]),
            forall|m: HyperMove| movable(b0, m) ==> #[trigger] moves@.contains(m),
            out@.len() == i,
            moves@.no_duplicates(),
            forall|k: int| 0 <= k < i ==> #[trigger] out@[k].0 == moves@[k],
            depth == 1 ==> forall|k: int| 0 <= k < i ==> #[trigger] out@[k].1 == 1,
            trees.len() == i,
            depth >= 2 ==> forall|k: int|
                0 <= k < i ==> b0.applied(out@[k].0, #[trigger] trees[k].board) && tree_ok(
                    trees[k],
                    (depth - 1) as nat,
                ) && out@[k].1 == saturated(leaf_count(trees[k], (depth - 1) as nat)),
        decreases moves@.len() - i,
    {
        let m = moves.get(i);
        assert(movable(b0, moves@[i as int]));
        let ghost before = *board;
        board.apply_move(m);
        let ghost after_apply = *board;
        let count = if depth <= 1 {
            1
        } else {
            perft(board, depth - 1)
        };
        let ghost prev = out@;
        out.push((m, count));
        proof {
            let tc = if depth >= 2 {
                choose|t: PerftTree|
                    t.board == after_apply && #[trigger] tree_ok(t, (depth - 1) as nat) && count
                        == saturated(leaf_count(t, (depth - 1) as nat))
            } else {
                PerftTree { board: after_apply, moves: Seq::empty(), kids: Seq::empty() }
            };
            let next = trees.push(tc);
            assert forall|k: int| 0 <= k < i + 1 && depth >= 2 implies b0.applied(
                out@[k].0,
                #[trigger] next[k].board,
            ) && tree_ok(next[k], (depth - 1) as nat) && out@[k].1 == saturated(
                leaf_count(next[k], (depth - 1) as nat),
            ) by {
                if k < i {
                    assert(out@[k] == prev[k]);
                    assert(next[k] == trees[k]);
                }
            }
            trees = next;
        }
        proof {
            assert(after_apply.undo_ok());
        }
        board.undo_move();
        proof {
            lemma_undo_restores(before, m, after_apply, *board);
        }
        i += 1;
    }
    proof {
        if depth >= 2 {
            assert forall|k: int| #![trigger out@[k]] 0 <= k < out@.len() implies exists|t: PerftTree|
                #![trigger tree_ok(t, (depth - 1) as nat)]
                b0.applied(out@[k].0, t.board) && tree_ok(t, (depth - 1) as nat) && out@[k].1
                    == saturated(leaf_count(t, (depth - 1) as nat)) && out@[k].1 == saturated(
                    perft_count(t.board, (depth - 1) as nat),
                ) by {
                let t = trees[k];
                lemma_perft_count_of(t, (depth - 1) as nat);
                assert(b0.applied(out@[k].0, t.board));
                assert(tree_ok(t, (depth - 1) as nat));
                assert(out@[k].1 == saturated(leaf_count(t, (depth - 1) as nat)));
            }
        }
        assert forall|i: int, j: int| 0 <= i < j < out@.len() implies out@[i].0 != out@[j].0 by {
            assert(out@[i].0 == moves@[i] && out@[j].0 == moves@[j]);
        }
        assert forall|m: HyperMove| movable(b0, m) implies exists|k: int| 0 <= k < out@.len() && #[trigger] out@[k].0 == m by {
            assert(moves@.contains(m));
            let k = choose|k: int| 0 <= k < moves@.len() && moves@[k] == m;
            assert(out@[k].0 == m);
        }
    }
    out
}

} // verus!
