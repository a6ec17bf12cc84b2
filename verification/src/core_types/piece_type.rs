//! The `PieceType` enum (kind of piece, side-agnostic) and move-generation kinds.

use vstd::prelude::*;

verus! {

/// Which subset of moves a generation pass should emit.
#[derive(Copy, Clone, Debug, PartialEq, Eq, Structural)]
pub enum GenTypes {
    /// Every pseudo-legal move.
    All,
    /// Captures only, including en passant and capture-promotions.
    Captures,
    /// Non-capturing moves only.
    Quiets,
    /// Quiet moves that give check.
    QuietChecks,
    /// Moves that answer an existing check.
    Evasions,
    /// Everything except evasions.
    NonEvasions,
}

/// A colourless piece kind. `None` is the empty-square marker and `All` a
/// table sentinel for "every piece".
#[derive(Copy, Clone, PartialEq, Eq, Structural, Debug, Hash)]
pub enum PieceType {
    /// Empty square / no piece.
    Empty,
    P,
    N,
    B,
    R,
    Q,
    K,
    /// Eagle.
    E,
    /// Hawk.
    H,
    All,
}

/// The discriminant of a piece type: None 0, P 1, N 2, B 3, R 4, Q 5, K 6,
/// E 7, H 8, All 9.
pub open spec fn pt_index(t: PieceType) -> int {
    match t {
        PieceType::Empty => 0,
        PieceType::P => 1,
        PieceType::N => 2,
        PieceType::B => 3,
        PieceType::R => 4,
        PieceType::Q => 5,
        PieceType::K => 6,
        PieceType::E => 7,
        PieceType::H => 8,
        PieceType::All => 9,
    }
}

/// The piece type with discriminant `i` (`None` outside `1..=8`).
pub open spec fn pt_from_index(i: int) -> PieceType {
    if i == 1 {
        PieceType::P
    } else if i == 2 {
        PieceType::N
    } else if i == 3 {
        PieceType::B
    } else if i == 4 {
        PieceType::R
    } else if i == 5 {
        PieceType::Q
    } else if i == 6 {
        PieceType::K
    } else if i == 7 {
        PieceType::E
    } else if i == 8 {
        PieceType::H
    } else {
        PieceType::Empty
    }
}

/// Whether a piece type names an actual piece kind.
pub open spec fn is_real_type(t: PieceType) -> bool {
    t != PieceType::Empty && t != PieceType::All
}

/// The lowercase HFEN letter of a real piece type, `'?'` otherwise.
pub open spec fn pt_char_lower(t: PieceType) -> char {
    match t {
        PieceType::P => 'p',
        PieceType::N => 'n',
        PieceType::B => 'b',
        PieceType::R => 'r',
        PieceType::Q => 'q',
        PieceType::K => 'k',
        PieceType::E => 'e',
        PieceType::H => 'h',
        _ => '?',
    }
}

/// The uppercase HFEN letter of a real piece type, `'?'` otherwise.
pub open spec fn pt_char_upper(t: PieceType) -> char {
    match t {
        PieceType::P => 'P',
        PieceType::N => 'N',
        PieceType::B => 'B',
        PieceType::R => 'R',
        PieceType::Q => 'Q',
        PieceType::K => 'K',
        PieceType::E => 'E',
        PieceType::H => 'H',
        _ => '?',
    }
}

/// `char::to_ascii_lowercase`.
pub open spec fn ascii_lower(c: char) -> char {
    if 'A' <= c && c <= 'Z' {
        (c as int + 32) as char
    } else {
        c
    }
}

/// The piece type named by a letter, case-insensitively.
pub open spec fn pt_from_char(c: char) -> Option<PieceType> {
    let l = ascii_lower(c);
    if l == 'p' {
        Some(PieceType::P)
    } else if l == 'n' {
        Some(PieceType::N)
    } else if l == 'b' {
        Some(PieceType::B)
    } else if l == 'r' {
        Some(PieceType::R)
    } else if l == 'q' {
        Some(PieceType::Q)
    } else if l == 'k' {
        Some(PieceType::K)
    } else if l == 'e' {
        Some(PieceType::E)
    } else if l == 'h' {
        Some(PieceType::H)
    } else {
        None
    }
}

/// The promotion choices, in generation order: Q, R, B, N, E, H.
pub open spec fn promo_type_of(i: int) -> PieceType {
    if i == 0 {
        PieceType::Q
    } else if i == 1 {
        PieceType::R
    } else if i == 2 {
        PieceType::B
    } else if i == 3 {
        PieceType::N
    } else if i == 4 {
        PieceType::E
    } else {
        PieceType::H
    }
}

/// `char::to_ascii_lowercase`.
pub fn to_ascii_lowercase(c: char) -> (r: char)
    ensures
        r == ascii_lower(c),
{
    if 'A' <= c && c <= 'Z' {
        ((c as u32 + 32) as u8) as char
    } else {
        c
    }
}

impl PieceType {
    /// Relative material value (for MVV-LVA ordering).
    pub fn value(self) -> (r: i16)
        ensures
            r == (match self {
                PieceType::P => 1i16,
                PieceType::N => 3i16,
                PieceType::B => 3i16,
                PieceType::R => 5i16,
                PieceType::H => 5i16,
                PieceType::E => 7i16,
                PieceType::Q => 9i16,
                _ => 0i16,
            }),
    {
        match self {
            PieceType::P => 1,
            PieceType::N | PieceType::B => 3,
            PieceType::R => 5,
            PieceType::H => 5,
            PieceType::E => 7,
            PieceType::Q => 9,
            _ => 0,
        }
    }

    /// Whether this is the empty-square marker.
    pub fn is_none(self) -> (r: bool)
        ensures
            r == (self == PieceType::Empty),
    {
        match self {
            PieceType::Empty => true,
            _ => false,
        }
    }

    /// Whether this is anything other than `None` (still true for `All`).
    pub fn is_some(self) -> (r: bool)
        ensures
            r == (self != PieceType::Empty),
    {
        !self.is_none()
    }

    /// Whether this names an actual piece kind (neither `None` nor `All`).
    pub fn is_real(self) -> (r: bool)
        ensures
            r == is_real_type(self),
    {
        match self {
            PieceType::Empty | PieceType::All => false,
            _ => true,
        }
    }

    /// Lowercase character for HFEN notation (`'?'` for `None`/`All`).
    pub fn char_lower(self) -> (r: char)
        ensures
            r == pt_char_lower(self),
    {
        match self {
            PieceType::P => 'p',
            PieceType::N => 'n',
            PieceType::B => 'b',
            PieceType::R => 'r',
            PieceType::Q => 'q',
            PieceType::K => 'k',
            PieceType::E => 'e',
            PieceType::H => 'h',
            _ => '?',
        }
    }

    /// Uppercase character for HFEN notation (`'?'` for `None`/`All`).
    pub fn char_upper(self) -> (r: char)
        ensures
            r == pt_char_upper(self),
    {
        match self {
            PieceType::P => 'P',
            PieceType::N => 'N',
            PieceType::B => 'B',
            PieceType::R => 'R',
            PieceType::Q => 'Q',
            PieceType::K => 'K',
            PieceType::E => 'E',
            PieceType::H => 'H',
            _ => '?',
        }
    }

    /// Parse from a character, case-insensitively.
    pub fn from_char(c: char) -> (r: Option<PieceType>)
        ensures
            r == pt_from_char(c),
    {
        let l = to_ascii_lowercase(c);
        if l == 'p' {
            Some(PieceType::P)
        } else if l == 'n' {
            Some(PieceType::N)
        } else if l == 'b' {
            Some(PieceType::B)
        } else if l == 'r' {
            Some(PieceType::R)
        } else if l == 'q' {
            Some(PieceType::Q)
        } else if l == 'k' {
            Some(PieceType::K)
        } else if l == 'e' {
            Some(PieceType::E)
        } else if l == 'h' {
            Some(PieceType::H)
        } else {
            None
        }
    }

    /// Index for array access (the discriminant).
    pub fn index(self) -> (r: usize)
        ensures
            r as int == pt_index(self),
    {
        match self {
            PieceType::Empty => 0,
            PieceType::P => 1,
            PieceType::N => 2,
            PieceType::B => 3,
            PieceType::R => 4,
            PieceType::Q => 5,
            PieceType::K => 6,
            PieceType::E => 7,
            PieceType::H => 8,
            PieceType::All => 9,
        }
    }

    /// The piece type with discriminant `i`, `None` outside `1..=8`.
    pub fn from_index(i: u32) -> (r: PieceType)
        ensures
            r == pt_from_index(i as int),
    {
        match i {
            1 => PieceType::P,
            2 => PieceType::N,
            3 => PieceType::B,
            4 => PieceType::R,
            5 => PieceType::Q,
            6 => PieceType::K,
            7 => PieceType::E,
            8 => PieceType::H,
            _ => PieceType::Empty,
        }
    }

    /// The `i`-th promotion choice: Q, R, B, N, E, H.
    pub fn promo_type(i: usize) -> (r: PieceType)
        requires
            i < 6,
        ensures
            r == promo_type_of(i as int),
            is_real_type(r),
    {
        match i {
            0 => PieceType::Q,
            1 => PieceType::R,
            2 => PieceType::B,
            3 => PieceType::N,
            4 => PieceType::E,
            _ => PieceType::H,
        }
    }
}

} // verus!
