//! Board glyphs for chess-font rendering.

use vstd::prelude::*;

use crate::core_types::piece::Piece;

verus! {

/// The chess-font character of a piece.
pub open spec fn glyph_of(piece: Piece) -> Option<char> {
    match piece {
        Piece::WhiteKing => Some('k'),
        Piece::BlackKing => Some('l'),
        Piece::WhiteQueen => Some('q'),
        Piece::BlackQueen => Some('w'),
        Piece::WhiteRook => Some('r'),
        Piece::BlackRook => Some('t'),
        Piece::WhiteBishop => Some('b'),
        Piece::BlackBishop => Some('n'),
        Piece::WhiteKnight => Some('h'),
        Piece::BlackKnight => Some('j'),
        Piece::WhitePawn => Some('p'),
        Piece::BlackPawn => Some('o'),
        Piece::WhiteEagle => Some('v'),
        Piece::BlackEagle => Some('u'),
        Piece::WhiteHawk => Some('f'),
        Piece::BlackHawk => Some('e'),
        Piece::Empty => None,
    }
}

/// The chess-font character of a piece; none for an empty square.
pub fn piece_glyph(piece: Piece) -> (r: Option<char>)
    ensures
        r == glyph_of(piece),
{
    match piece {
        Piece::WhiteKing => Some('k'),
        Piece::BlackKing => Some('l'),
        Piece::WhiteQueen => Some('q'),
        Piece::BlackQueen => Some('w'),
        Piece::WhiteRook => Some('r'),
        Piece::BlackRook => Some('t'),
        Piece::WhiteBishop => Some('b'),
        Piece::BlackBishop => Some('n'),
        Piece::WhiteKnight => Some('h'),
        Piece::BlackKnight => Some('j'),
        Piece::WhitePawn => Some('p'),
        Piece::BlackPawn => Some('o'),
        Piece::WhiteEagle => Some('v'),
        Piece::BlackEagle => Some('u'),
        Piece::WhiteHawk => Some('f'),
        Piece::BlackHawk => Some('e'),
        Piece::Empty => None,
    }
}

} // verus!
