//! The perft count is a function of the position: every tree of legal
//! moves below it has the same number of leaves.

use vstd::prelude::*;

use super::movegen::movable;
use super::perft::{leaf_count, leaves_below, perft_count, tree_ok, PerftTree};
use super::Board;
use crate::core_types::piece_move::HyperMove;

verus! {

/// The two boards agree on everything the move rules read: the pieces, the
/// side to move, the king squares, the occupancy, the castling rights, the
/// en passant square and the checkers.
pub open spec fn same_play(x: Board, y: Board) -> bool {
    &&& x.locs() == y.locs()
    &&& x.side() == y.side()
    &&& x.kings() == y.kings()
    &&& x.occ() == y.occ()
    &&& x.st().castling.0 == y.st().castling.0
    &&& x.st().ep_square.0 == y.st().ep_square.0
    &&& x.st().checkers == y.st().checkers
}

/// Boards that agree on what the move rules read have the same moves.
proof fn lemma_same_moves(x: Board, y: Board, m: HyperMove)
    requires
        same_play(x, y),
    ensures
        movable(x, m) == movable(y, m),
{
}

/// The same move played on boards that agree on what the move rules read
/// leads to boards that agree on it again.
proof fn lemma_same_step(x: Board, y: Board, m: HyperMove, x2: Board, y2: Board)
    requires
        same_play(x, y),
        x.applied(m, x2),
        y.applied(m, y2),
    ensures
        same_play(x2, y2),
{
    assert forall|s: int| #[trigger] x2.occ().has(s) == y2.occ().has(s) by {}
    x2.occ().lemma_ext(y2.occ());
    assert forall|s: int| #[trigger] x2.st().checkers.has(s) == y2.st().checkers.has(s) by {}
    x2.st().checkers.lemma_ext(y2.st().checkers);
}

/// Taking one tree out of a row takes its leaves out of the sum.
proof fn lemma_leaves_remove(ks: Seq<PerftTree>, j: int, d: nat)
    requires
        0 <= j < ks.len(),
    ensures
        leaves_below(ks, d) == leaves_below(ks.remove(j), d) + leaf_count(ks[j], d),
    decreases ks.len(),
{
    let n = ks.len() - 1;
    if j == n {
        assert(ks.remove(j) =~= ks.drop_last());
    } else {
        let r = ks.remove(j);
        assert(r.drop_last() =~= ks.drop_last().remove(j));
        assert(r.last() == ks.last());
        lemma_leaves_remove(ks.drop_last(), j, d);
    }
}

/// Two rows of trees, one per move of two lists of the same moves, where
/// trees of the same move have the same leaves, have the same leaves in all.
proof fn lemma_leaves_reordered(
    l1: Seq<HyperMove>,
    k1: Seq<PerftTree>,
    l2: Seq<HyperMove>,
    k2: Seq<PerftTree>,
    d: nat,
)
    requires
        l1.no_duplicates(),
        l2.no_duplicates(),
        k1.len() == l1.len(),
        k2.len() == l2.len(),
        forall|m: HyperMove|
            #![trigger l1.contains(m)]
            #![trigger l2.contains(m)]
            l1.contains(m) == l2.contains(m),
        forall|i: int, j: int|
            0 <= i < l1.len() && 0 <= j < l2.len() && l1[i] == l2[j] ==> leaf_count(
                #[trigger] k1[i],
                d,
            ) == leaf_count(#[trigger] k2[j], d),
    ensures
        leaves_below(k1, d) == leaves_below(k2, d),
    decreases l1.len(),
{
    if l1.len() == 0 {
        if l2.len() > 0 {
            assert(l2.contains(l2[0]));
        }
        assert(k2.len() == 0);
    } else {
        let i = l1.len() - 1;
        let m = l1[i];
        assert(l1.contains(m));
        assert(l2.contains(m));
        let j = choose|j: int| 0 <= j < l2.len() && l2[j] == m;
        let l1r = l1.drop_last();
        let k1r = k1.drop_last();
        let l2r = l2.remove(j);
        let k2r = k2.remove(j);
        assert forall|x: HyperMove| #[trigger] l1r.contains(x) == l2r.contains(x) by {
            if l1r.contains(x) {
                let a = choose|a: int| 0 <= a < l1r.len() && l1r[a] == x;
                assert(l1[a] == x);
                assert(x != m);
                assert(l1.contains(x));
                assert(l2.contains(x));
                let b = choose|b: int| 0 <= b < l2.len() && l2[b] == x;
                assert(b != j);
                if b < j {
                    assert(l2r[b] == x);
                } else {
                    assert(l2r[b - 1] == x);
                }
            }
            if l2r.contains(x) {
                let b = choose|b: int| 0 <= b < l2r.len() && l2r[b] == x;
                let bb = if b < j { b } else { b + 1 };
                assert(l2[bb] == x);
                assert(x != m);
                assert(l1.contains(x));
                let a = choose|a: int| 0 <= a < l1.len() && l1[a] == x;
                assert(a != i);
                assert(l1r[a] == x);
            }
        }
        assert forall|a: int, b: int|
            0 <= a < l1r.len() && 0 <= b < l2r.len() && l1r[a] == l2r[b] implies leaf_count(
            #[trigger] k1r[a],
            d,
        ) == leaf_count(#[trigger] k2r[b], d) by {
            let bb = if b < j { b } else { b + 1 };
            assert(l2r[b] == l2[bb]);
            assert(k2r[b] == k2[bb]);
            assert(k1r[a] == k1[a]);
            assert(l1r[a] == l1[a]);
        }
        lemma_leaves_reordered(l1r, k1r, l2r, k2r, d);
        lemma_leaves_remove(k2, j, d);
        assert(k1r =~= k1.drop_last());
        assert(leaf_count(k1[i], d) == leaf_count(k2[j], d));
    }
}

/// Two lists of the same moves without repeats are equally long.
proof fn lemma_same_length(l1: Seq<HyperMove>, l2: Seq<HyperMove>)
    requires
        l1.no_duplicates(),
        l2.no_duplicates(),
        forall|m: HyperMove| #[trigger] l1.contains(m) == l2.contains(m),
    ensures
        l1.len() == l2.len(),
{
    l1.unique_seq_to_set();
    l2.unique_seq_to_set();
    assert(l1.to_set() =~= l2.to_set());
}

/// Trees of boards that agree on what the move rules read have the same
/// leaves.
proof fn lemma_same_play_leaves(t1: PerftTree, t2: PerftTree, d: nat)
    requires
        same_play(t1.board, t2.board),
        tree_ok(t1, d),
        tree_ok(t2, d),
    ensures
        leaf_count(t1, d) == leaf_count(t2, d),
    decreases d,
{
    if d == 0 {
    } else {
        assert forall|m: HyperMove| #[trigger] t1.moves.contains(m) == t2.moves.contains(m) by {
            lemma_same_moves(t1.board, t2.board, m);
            if t1.moves.contains(m) {
                let a = choose|a: int| 0 <= a < t1.moves.len() && t1.moves[a] == m;
                assert(movable(t1.board, t1.moves[a]));
            }
            if t2.moves.contains(m) {
                let b = choose|b: int| 0 <= b < t2.moves.len() && t2.moves[b] == m;
                assert(movable(t2.board, t2.moves[b]));
            }
        }
        if d == 1 {
            lemma_same_length(t1.moves, t2.moves);
        } else {
            let e = (d - 1) as nat;
            assert forall|i: int, j: int|
                0 <= i < t1.moves.len() && 0 <= j < t2.moves.len() && t1.moves[i]
                    == t2.moves[j] implies leaf_count(#[trigger] t1.kids[i], e) == leaf_count(
                #[trigger] t2.kids[j],
                e,
            ) by {
                assert(t1.board.applied(t1.moves[i], t1.kids[i].board) && tree_ok(t1.kids[i], e));
                assert(t2.board.applied(t2.moves[j], t2.kids[j].board) && tree_ok(t2.kids[j], e));
                lemma_same_step(t1.board, t2.board, t1.moves[i], t1.kids[i].board, t2.kids[j].board);
                lemma_same_play_leaves(t1.kids[i], t2.kids[j], e);
            }
            lemma_leaves_reordered(t1.moves, t1.kids, t2.moves, t2.kids, e);
        }
    }
}

/// Perft is a function of the position: any two trees of legal moves of
/// the same depth below the same board have the same number of leaves,
/// whatever order their moves are listed in.
pub proof fn lemma_perft_count_unique(t1: PerftTree, t2: PerftTree, d: nat)
    requires
        t1.board == t2.board,
        tree_ok(t1, d),
        tree_ok(t2, d),
    ensures
        leaf_count(t1, d) == leaf_count(t2, d),
{
    lemma_same_play_leaves(t1, t2, d);
}

/// The perft count of a board is the number of leaves of any tree of legal
/// moves below it.
pub proof fn lemma_perft_count_of(t: PerftTree, d: nat)
    requires
        tree_ok(t, d),
    ensures
        perft_count(t.board, d) == leaf_count(t, d),
{
    let c = choose|c: PerftTree| c.board == t.board && #[trigger] tree_ok(c, d);
    assert(t.board == t.board && tree_ok(t, d));
    lemma_perft_count_unique(c, t, d);
}

/// The perft counts at depth `d` of the positions of the trees `ks`, added
/// up.
pub open spec fn perft_sum(ks: Seq<PerftTree>, d: nat) -> nat
    decreases ks.len(),
{
    if ks.len() == 0 {
        0
    } else {
        perft_sum(ks.drop_last(), d) + perft_count(ks.last().board, d)
    }
}

/// Trees of depth `d` have as many leaves as the perft counts of their
/// positions add up to.
proof fn lemma_leaves_are_counts(ks: Seq<PerftTree>, d: nat)
    requires
        forall|k: int| 0 <= k < ks.len() ==> tree_ok(#[trigger] ks[k], d),
    ensures
        leaves_below(ks, d) == perft_sum(ks, d),
    decreases ks.len(),
{
    if ks.len() > 0 {
        let init = ks.drop_last();
        assert forall|k: int| 0 <= k < init.len() implies tree_ok(#[trigger] init[k], d) by {
            assert(init[k] == ks[k]);
        }
        lemma_leaves_are_counts(init, d);
        assert(tree_ok(ks[ks.len() - 1], d));
        lemma_perft_count_of(ks.last(), d);
    }
}

/// Perft one level deeper is the sum, over the moves of the position, of
/// the perft counts of the positions they lead to.
pub proof fn lemma_perft_children(t: PerftTree, d: nat)
    requires
        d >= 1,
        tree_ok(t, d + 1),
    ensures
        t.kids.len() == t.moves.len(),
        forall|k: int|
            0 <= k < t.kids.len() ==> #[trigger] t.board.applied(t.moves[k], t.kids[k].board),
        perft_count(t.board, d + 1) == perft_sum(t.kids, d),
{
    assert forall|k: int| 0 <= k < t.kids.len() implies tree_ok(#[trigger] t.kids[k], d) by {
        assert(t.board.applied(t.moves[k], t.kids[k].board) && tree_ok(t.kids[k], d));
    }
    lemma_leaves_are_counts(t.kids, d);
    lemma_perft_count_of(t, d + 1);
}

} // verus!
