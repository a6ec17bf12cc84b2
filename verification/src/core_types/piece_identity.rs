//! Identity-HFEN piece characters.
//!
//! HFEN-I assigns a stable character to every original starting piece. The
//! character is identity, not piece type: for example `Q` is the white pawn
//! that starts on e3, while `F` is the white queen that starts on f2.

use vstd::prelude::*;

use super::piece::Piece;

verus! {

/// No identity is present on this square.
pub const NO_PIECE_ID: char = '\0';

/// Starting position in HyperChess Identity-HFEN (HFEN-I).
pub const START_HFEN_I: &'static str =
    "12/abcdefghijkl/mnopqrstuvwx/12/12/12/12/12/12/MNOPQRSTUVWX/ABCDEFGHIJKL/12 w - - 0 1";

/// `c` is an HFEN-I identity character (`A`-`X` or `a`-`x`).
pub open spec fn identity_char(c: char) -> bool {
    ('A' <= c <= 'X') || ('a' <= c <= 'x')
}

/// `c` is one of the type-based HFEN piece letters.
pub open spec fn legacy_piece_char(c: char) -> bool {
    c == 'P' || c == 'N' || c == 'B' || c == 'R' || c == 'Q' || c == 'K' || c == 'E' || c == 'H'
        || c == 'p' || c == 'n' || c == 'b' || c == 'r' || c == 'q' || c == 'k' || c == 'e' || c
        == 'h'
}

/// `c` can only be read as an identity character.
pub open spec fn identity_only_char(c: char) -> bool {
    identity_char(c) && !legacy_piece_char(c)
}

/// The piece an identity character starts the game as.
pub open spec fn identity_piece(c: char) -> Option<Piece> {
    if c == 'A' || c == 'L' {
        Some(Piece::WhiteEagle)
    } else if c == 'B' || c == 'K' {
        Some(Piece::WhiteHawk)
    } else if c == 'C' || c == 'J' {
        Some(Piece::WhiteRook)
    } else if c == 'D' || c == 'I' {
        Some(Piece::WhiteKnight)
    } else if c == 'E' || c == 'H' {
        Some(Piece::WhiteBishop)
    } else if c == 'F' {
        Some(Piece::WhiteQueen)
    } else if c == 'G' {
        Some(Piece::WhiteKing)
    } else if 'M' <= c <= 'X' {
        Some(Piece::WhitePawn)
    } else if c == 'a' || c == 'l' {
        Some(Piece::BlackEagle)
    } else if c == 'b' || c == 'k' {
        Some(Piece::BlackHawk)
    } else if c == 'c' || c == 'j' {
        Some(Piece::BlackRook)
    } else if c == 'd' || c == 'i' {
        Some(Piece::BlackKnight)
    } else if c == 'e' || c == 'h' {
        Some(Piece::BlackBishop)
    } else if c == 'f' {
        Some(Piece::BlackQueen)
    } else if c == 'g' {
        Some(Piece::BlackKing)
    } else if 'm' <= c <= 'x' {
        Some(Piece::BlackPawn)
    } else {
        None
    }
}

/// Material value of a piece by its type (kings count nothing).
pub open spec fn piece_material(p: Piece) -> int {
    match p {
        Piece::WhitePawn | Piece::BlackPawn => 100,
        Piece::WhiteKnight | Piece::BlackKnight => 320,
        Piece::WhiteBishop | Piece::BlackBishop => 330,
        Piece::WhiteRook | Piece::BlackRook => 500,
        Piece::WhiteQueen | Piece::BlackQueen => 900,
        Piece::WhiteEagle | Piece::BlackEagle => 700,
        Piece::WhiteHawk | Piece::BlackHawk => 550,
        _ => 0,
    }
}

/// Returns true when `c` is a legal HFEN-I identity character.
pub fn is_identity_char(c: char) -> (r: bool)
    ensures
        r == identity_char(c),
{
    ('A' <= c && c <= 'X') || ('a' <= c && c <= 'x')
}

/// Returns true when `c` is an ordinary type-based HyperChess HFEN character.
pub fn is_legacy_piece_char(c: char) -> (r: bool)
    ensures
        r == legacy_piece_char(c),
{
    c == 'P' || c == 'N' || c == 'B' || c == 'R' || c == 'Q' || c == 'K' || c == 'E' || c == 'H'
        || c == 'p' || c == 'n' || c == 'b' || c == 'r' || c == 'q' || c == 'k' || c == 'e' || c
        == 'h'
}

/// Whether the characters `s` hold an identity-only character.
pub fn chars_use_identity(s: &Vec<char>) -> (r: bool)
    ensures
        r == (exists|i: int| 0 <= i < s.len() && #[trigger] identity_only_char(s@[i])),
{
    let mut i: usize = 0;
    while i < s.len()
        invariant
            i <= s.len(),
            forall|j: int| 0 <= j < i ==> !#[trigger] identity_only_char(s@[j]),
        decreases s.len() - i,
    {
        let c = s[i];
        if is_identity_char(c) && !is_legacy_piece_char(c) {
            assert(identity_only_char(s@[i as int]));
            return true;
        }
        i += 1;
    }
    false
}

/// A position field is considered HFEN-I when it contains at least one
/// identity-only character. This keeps old tactical/test FENs parseable.
pub fn position_uses_identity(position: &str) -> (r: bool)
    ensures
        r == (exists|i: int| 0 <= i < position@.len() && #[trigger] identity_only_char(position@[i])),
{
    let v = crate::text::chars_of(position);
    chars_use_identity(&v)
}

/// Maps an HFEN-I identity character to the piece type it starts as.
pub fn piece_from_identity(c: char) -> (r: Option<Piece>)
    ensures
        r == identity_piece(c),
{
    if c == 'A' || c == 'L' {
        Some(Piece::WhiteEagle)
    } else if c == 'B' || c == 'K' {
        Some(Piece::WhiteHawk)
    } else if c == 'C' || c == 'J' {
        Some(Piece::WhiteRook)
    } else if c == 'D' || c == 'I' {
        Some(Piece::WhiteKnight)
    } else if c == 'E' || c == 'H' {
        Some(Piece::WhiteBishop)
    } else if c == 'F' {
        Some(Piece::WhiteQueen)
    } else if c == 'G' {
        Some(Piece::WhiteKing)
    } else if 'M' <= c && c <= 'X' {
        Some(Piece::WhitePawn)
    } else if c == 'a' || c == 'l' {
        Some(Piece::BlackEagle)
    } else if c == 'b' || c == 'k' {
        Some(Piece::BlackHawk)
    } else if c == 'c' || c == 'j' {
        Some(Piece::BlackRook)
    } else if c == 'd' || c == 'i' {
        Some(Piece::BlackKnight)
    } else if c == 'e' || c == 'h' {
        Some(Piece::BlackBishop)
    } else if c == 'f' {
        Some(Piece::BlackQueen)
    } else if c == 'g' {
        Some(Piece::BlackKing)
    } else if 'm' <= c && c <= 'x' {
        Some(Piece::BlackPawn)
    } else {
        None
    }
}

/// Material value of a piece by its type.
pub fn material_of(p: Piece) -> (r: i32)
    ensures
        r == piece_material(p),
{
    match p {
        Piece::WhitePawn | Piece::BlackPawn => 100,
        Piece::WhiteKnight | Piece::BlackKnight => 320,
        Piece::WhiteBishop | Piece::BlackBishop => 330,
        Piece::WhiteRook | Piece::BlackRook => 500,
        Piece::WhiteQueen | Piece::BlackQueen => 900,
        Piece::WhiteEagle | Piece::BlackEagle => 700,
        Piece::WhiteHawk | Piece::BlackHawk => 550,
        _ => 0,
    }
}

/// Material value for an HFEN-I identity character, using its starting type.
pub fn identity_material_value(c: char) -> (r: Option<i32>)
    ensures
        r == (match identity_piece(c) {
            Some(p) => Some(piece_material(p) as i32),
            None => None,
        }),
{
    match piece_from_identity(c) {
        Some(p) => Some(material_of(p)),
        None => None,
    }
}

} // verus!
