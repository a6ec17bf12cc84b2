//! Piece locations — maps each of the 144 squares to the piece on it.

use vstd::prelude::*;

use crate::core_types::piece::{type_of_piece, Piece};
use crate::core_types::piece_type::PieceType;
use crate::core_types::sq::SQ;

verus! {

/// Maps each square to the piece on it (`Piece::Empty` if empty).
#[derive(Clone, Debug)]
pub struct PieceLocations {
    data: Vec<Piece>,
}

impl View for PieceLocations {
    type V = Seq<Piece>;

    closed spec fn view(&self) -> Seq<Piece> {
        self.data@
    }
}

impl PieceLocations {
    /// Creates an empty board.
    pub fn new() -> (r: Self)
        ensures
            r@.len() == 144,
            forall|s: int| 0 <= s < 144 ==> r@[s] == Piece::Empty,
    {
        let mut data: Vec<Piece> = Vec::new();
        let mut i: usize = 0;
        while i < 144
            invariant
                i <= 144,
                data@.len() == i,
                forall|s: int| 0 <= s < i ==> data@[s] == Piece::Empty,
            decreases 144 - i,
        {
            data.push(Piece::Empty);
            i += 1;
        }
        PieceLocations { data }
    }

    /// A copy that the caller may keep.
    pub fn copy(&self) -> (r: Self)
        ensures
            r@ == self@,
    {
        PieceLocations { data: self.data.clone() }
    }

    /// Places a piece on a square.
    pub fn place(&mut self, sq: SQ, piece: Piece)
        requires
            sq.0 < old(self)@.len(),
        ensures
            final(self)@ == old(self)@.update(sq.0 as int, piece),
    {
        self.data.set(sq.0 as usize, piece);
    }

    /// Removes a piece from a square, returning what was there.
    pub fn remove(&mut self, sq: SQ) -> (r: Piece)
        requires
            sq.0 < old(self)@.len(),
        ensures
            r == old(self)@[sq.0 as int],
            final(self)@ == old(self)@.update(sq.0 as int, Piece::Empty),
    {
        let piece = self.data[sq.0 as usize];
        self.data.set(sq.0 as usize, Piece::Empty);
        piece
    }

    /// Returns the piece on a square.
    pub fn piece_at(&self, sq: SQ) -> (r: Piece)
        requires
            sq.0 < self@.len(),
        ensures
            r == self@[sq.0 as int],
    {
        self.data[sq.0 as usize]
    }

    /// Returns the piece type on a square.
    pub fn piece_type_at(&self, sq: SQ) -> (r: PieceType)
        requires
            sq.0 < self@.len(),
        ensures
            r == type_of_piece(self@[sq.0 as int]),
    {
        self.data[sq.0 as usize].type_of()
    }

    /// Moves a piece from one square to another, leaving the first empty.
    pub fn move_piece(&mut self, from: SQ, to: SQ)
        requires
            from.0 < old(self)@.len(),
            to.0 < old(self)@.len(),
        ensures
            final(self)@ == old(self)@.update(to.0 as int, old(self)@[from.0 as int]).update(
                from.0 as int,
                Piece::Empty,
            ),
    {
        let piece = self.data[from.0 as usize];
        self.data.set(to.0 as usize, piece);
        self.data.set(from.0 as usize, Piece::Empty);
    }

    /// Returns the pieces, square by square.
    pub fn as_slice(&self) -> (r: &[Piece])
        ensures
            r@ == self@,
    {
        self.data.as_slice()
    }
}

} // verus!
