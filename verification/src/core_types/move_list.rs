//! MoveList — a growable list of moves — and its scored counterpart.

use vstd::prelude::*;

use super::piece_move::{HyperMove, ScoringMove};
use vstd::std_specs::iter::IteratorSpec;

verus! {

/// A list of moves.
pub struct MoveList {
    inner: Vec<HyperMove>,
}

impl View for MoveList {
    type V = Seq<HyperMove>;

    closed spec fn view(&self) -> Seq<HyperMove> {
        self.inner@
    }
}

impl MoveList {
    /// Creates an empty MoveList.
    pub fn new() -> (r: Self)
        ensures
            r@ == Seq::<HyperMove>::empty(),
    {
        MoveList { inner: Vec::new() }
    }

    /// Pushes a move onto the list.
    pub fn push(&mut self, m: HyperMove)
        ensures
            final(self)@ == old(self)@.push(m),
    {
        self.inner.push(m);
    }

    /// Returns the number of moves.
    pub fn len(&self) -> (r: usize)
        ensures
            r == self@.len(),
    {
        self.inner.len()
    }

    /// Returns true if empty.
    pub fn is_empty(&self) -> (r: bool)
        ensures
            r == (self@.len() == 0),
    {
        self.inner.len() == 0
    }

    /// Returns a slice of all moves.
    pub fn as_slice(&self) -> (r: &[HyperMove])
        ensures
            r@ == self@,
    {
        self.inner.as_slice()
    }

    /// Returns a mutable slice of all moves.
    pub fn as_mut_slice(&mut self) -> (r: &mut [HyperMove])
        ensures
            r@ == old(self)@,
            final(r)@ == final(self)@,
    {
        self.inner.as_mut_slice()
    }

    /// The moves as a vector, in order.
    pub fn to_vec(&self) -> (r: Vec<HyperMove>)
        ensures
            r@ == self@,
    {
        let mut v: Vec<HyperMove> = Vec::new();
        let mut i: usize = 0;
        while i < self.inner.len()
            invariant
                i <= self.inner@.len(),
                v@ == self.inner@.take(i as int),
            decreases self.inner@.len() - i,
        {
            v.push(self.inner[i]);
            i += 1;
            assert(v@ =~= self.inner@.take(i as int));
        }
        assert(self.inner@.take(self.inner@.len() as int) =~= self.inner@);
        v
    }

    /// Returns an iterator over the moves.
    pub fn iter(&self) -> (r: std::slice::Iter<'_, HyperMove>)
        ensures
            IteratorSpec::remaining(&r) == self@.as_ref(),
    {
        broadcast use vstd::std_specs::slice::axiom_spec_slice_iter;

        self.inner.as_slice().iter()
    }

    /// Gets a move by index.
    pub fn get(&self, idx: usize) -> (r: HyperMove)
        requires
            idx < self@.len(),
        ensures
            r == self@[idx as int],
    {
        self.inner[idx]
    }

    /// Checks if the list contains a specific move.
    pub fn contains(&self, m: HyperMove) -> (r: bool)
        ensures
            r == self@.contains(m),
    {
        let mut i: usize = 0;
        while i < self.inner.len()
            invariant
                i <= self.inner.len(),
                forall|j: int| 0 <= j < i ==> self.inner@[j] != m,
            decreases self.inner.len() - i,
        {
            if self.inner[i].get_raw() == m.get_raw() {
                proof {
                    HyperMove::lemma_bits_injective(self.inner@[i as int], m);
                }
                return true;
            }
            proof {
                HyperMove::lemma_bits_injective(self.inner@[i as int], m);
            }
            i += 1;
        }
        false
    }
}

/// `s` is ordered by score, highest first.
pub open spec fn sorted_by_score_desc(s: Seq<ScoringMove>) -> bool {
    forall|i: int, j: int| 0 <= i < j < s.len() ==> s[i].score >= s[j].score
}

/// A list of scored moves for move ordering.
pub struct ScoringMoveList {
    inner: Vec<ScoringMove>,
}

impl View for ScoringMoveList {
    type V = Seq<ScoringMove>;

    closed spec fn view(&self) -> Seq<ScoringMove> {
        self.inner@
    }
}

impl ScoringMoveList {
    /// Creates an empty list.
    pub fn new() -> (r: Self)
        ensures
            r@ == Seq::<ScoringMove>::empty(),
    {
        ScoringMoveList { inner: Vec::new() }
    }

    /// Pushes a scored move.
    pub fn push(&mut self, m: ScoringMove)
        ensures
            final(self)@ == old(self)@.push(m),
    {
        self.inner.push(m);
    }

    /// Pushes a move with score 0.
    pub fn push_move(&mut self, m: HyperMove)
        ensures
            final(self)@ == old(self)@.push(ScoringMove { hyper_move: m, score: 0 }),
    {
        self.push(ScoringMove::new(m));
    }

    /// Returns the number of moves.
    pub fn len(&self) -> (r: usize)
        ensures
            r == self@.len(),
    {
        self.inner.len()
    }

    /// Returns true if empty.
    pub fn is_empty(&self) -> (r: bool)
        ensures
            r == (self@.len() == 0),
    {
        self.inner.len() == 0
    }

    /// Returns a slice of all scored moves.
    pub fn as_slice(&self) -> (r: &[ScoringMove])
        ensures
            r@ == self@,
    {
        self.inner.as_slice()
    }

    /// Returns a mutable slice of all scored moves.
    pub fn as_mut_slice(&mut self) -> (r: &mut [ScoringMove])
        ensures
            r@ == old(self)@,
            final(r)@ == final(self)@,
    {
        self.inner.as_mut_slice()
    }

    /// Sort moves by score (highest first) for move ordering.
    pub fn sort(&mut self)
        ensures
            final(self)@.to_multiset() == old(self)@.to_multiset(),
            final(self)@.len() == old(self)@.len(),
            sorted_by_score_desc(final(self)@),
    {
        let n = self.inner.len();
        let mut i: usize = 1;
        if n == 0 {
            return;
        }
        while i < n
            invariant
                1 <= i <= n,
                n == self.inner.len(),
                self.inner@.to_multiset() == old(self)@.to_multiset(),
                forall|a: int, b: int| 0 <= a < b < i ==> self.inner@[a].score >= self.inner@[b].score,
            decreases n - i,
        {
            let mut j = i;
            while j > 0 && self.inner[j - 1].score < self.inner[j].score
                invariant
                    0 <= j <= i < n,
                    n == self.inner.len(),
                    self.inner@.to_multiset() == old(self)@.to_multiset(),
                    forall|a: int, b: int|
                        0 <= a < b <= i && b != j && a != j ==> self.inner@[a].score
                            >= self.inner@[b].score,
                    forall|a: int|
                        0 <= a < j && j + 1 <= i ==> #[trigger] self.inner@[a].score
                            >= self.inner@[j + 1].score,
                    forall|b: int| j < b <= i ==> self.inner@[j as int].score > self.inner@[b].score,
                decreases j,
            {
                let ghost before = self.inner@;
                let x = self.inner[j - 1];
                let y = self.inner[j];
                self.inner.set(j - 1, y);
                self.inner.set(j, x);
                proof {
                    let s1 = before.update(j - 1, y);
                    assert(self.inner@ =~= s1.update(j as int, x));
                    vstd::seq_lib::to_multiset_update(before, j - 1, y);
                    vstd::seq_lib::to_multiset_update(s1, j as int, x);
                    assert(before[j - 1] == x);
                    assert(before.contains(x));
                    vstd::seq_lib::to_multiset_contains(before, x);
                    broadcast use vstd::multiset::group_multiset_axioms;

                    assert(before.to_multiset().insert(y).remove(x).insert(x).remove(y)
                        =~= before.to_multiset());
                }
                j -= 1;
            }
            i += 1;
        }
    }
}

} // verus!
