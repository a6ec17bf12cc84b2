//! The `Piece` enum (player + piece type combined) and its HFEN mapping.

use vstd::prelude::*;

use super::piece_type::{is_real_type, pt_index, PieceType};
use super::player::{player_index, Player};

verus! {

/// Total number of unique Piece enum values (excluding None).
pub const PIECE_ENUM_CNT: usize = 17;

/// A piece together with its owner, as stored in the board's square array.
/// White's pieces come first (1-8), Black's repeat the same order (9-16).
#[derive(Copy, Clone, PartialEq, Eq, Structural, Hash, Debug)]
pub enum Piece {
    /// Empty square.
    Empty,
    WhitePawn,
    WhiteKnight,
    WhiteBishop,
    WhiteRook,
    WhiteQueen,
    WhiteKing,
    WhiteEagle,
    WhiteHawk,
    BlackPawn,
    BlackKnight,
    BlackBishop,
    BlackRook,
    BlackQueen,
    BlackKing,
    BlackEagle,
    BlackHawk,
}

/// The discriminant of a piece (0 for `None`, 1-8 White, 9-16 Black).
pub open spec fn piece_index(p: Piece) -> int {
    match p {
        Piece::Empty => 0,
        Piece::WhitePawn => 1,
        Piece::WhiteKnight => 2,
        Piece::WhiteBishop => 3,
        Piece::WhiteRook => 4,
        Piece::WhiteQueen => 5,
        Piece::WhiteKing => 6,
        Piece::WhiteEagle => 7,
        Piece::WhiteHawk => 8,
        Piece::BlackPawn => 9,
        Piece::BlackKnight => 10,
        Piece::BlackBishop => 11,
        Piece::BlackRook => 12,
        Piece::BlackQueen => 13,
        Piece::BlackKing => 14,
        Piece::BlackEagle => 15,
        Piece::BlackHawk => 16,
    }
}

/// The kind of a piece.
pub open spec fn type_of_piece(p: Piece) -> PieceType {
    match p {
        Piece::Empty => PieceType::Empty,
        Piece::WhitePawn | Piece::BlackPawn => PieceType::P,
        Piece::WhiteKnight | Piece::BlackKnight => PieceType::N,
        Piece::WhiteBishop | Piece::BlackBishop => PieceType::B,
        Piece::WhiteRook | Piece::BlackRook => PieceType::R,
        Piece::WhiteQueen | Piece::BlackQueen => PieceType::Q,
        Piece::WhiteKing | Piece::BlackKing => PieceType::K,
        Piece::WhiteEagle | Piece::BlackEagle => PieceType::E,
        Piece::WhiteHawk | Piece::BlackHawk => PieceType::H,
    }
}

/// The owner of a piece (`None` for the empty marker).
pub open spec fn owner_of(p: Piece) -> Option<Player> {
    if p == Piece::Empty {
        None
    } else if piece_index(p) <= 8 {
        Some(Player::White)
    } else {
        Some(Player::Black)
    }
}

/// The owner by discriminant: Black from 9 up, White below (so White for `None`).
pub open spec fn owner_lossy(p: Piece) -> Player {
    if piece_index(p) >= 9 {
        Player::Black
    } else {
        Player::White
    }
}

/// The piece of `pl` of kind `t` for a real kind.
pub open spec fn piece_of(pl: Player, t: PieceType) -> Piece {
    match pl {
        Player::White => match t {
            PieceType::P => Piece::WhitePawn,
            PieceType::N => Piece::WhiteKnight,
            PieceType::B => Piece::WhiteBishop,
            PieceType::R => Piece::WhiteRook,
            PieceType::Q => Piece::WhiteQueen,
            PieceType::K => Piece::WhiteKing,
            PieceType::E => Piece::WhiteEagle,
            PieceType::H => Piece::WhiteHawk,
            PieceType::Empty => Piece::Empty,
            PieceType::All => Piece::BlackPawn,
        },
        Player::Black => match t {
            PieceType::P => Piece::BlackPawn,
            PieceType::N => Piece::BlackKnight,
            PieceType::B => Piece::BlackBishop,
            PieceType::R => Piece::BlackRook,
            PieceType::Q => Piece::BlackQueen,
            PieceType::K => Piece::BlackKing,
            PieceType::E => Piece::BlackEagle,
            PieceType::H => Piece::BlackHawk,
            PieceType::Empty => Piece::WhiteHawk,
            PieceType::All => Piece::Empty,
        },
    }
}

/// The HFEN letter of a piece: uppercase for White, lowercase for Black.
pub open spec fn piece_char(p: Piece) -> char {
    match p {
        Piece::WhitePawn => 'P',
        Piece::BlackPawn => 'p',
        Piece::WhiteKnight => 'N',
        Piece::BlackKnight => 'n',
        Piece::WhiteBishop => 'B',
        Piece::BlackBishop => 'b',
        Piece::WhiteRook => 'R',
        Piece::BlackRook => 'r',
        Piece::WhiteQueen => 'Q',
        Piece::BlackQueen => 'q',
        Piece::WhiteKing => 'K',
        Piece::BlackKing => 'k',
        Piece::WhiteEagle => 'E',
        Piece::BlackEagle => 'e',
        Piece::WhiteHawk => 'H',
        Piece::BlackHawk => 'h',
        Piece::Empty => '?',
    }
}

/// The piece an HFEN letter names.
pub open spec fn piece_from_char(c: char) -> Option<Piece> {
    if c == 'P' { Some(Piece::WhitePawn) }
    else if c == 'p' { Some(Piece::BlackPawn) }
    else if c == 'N' { Some(Piece::WhiteKnight) }
    else if c == 'n' { Some(Piece::BlackKnight) }
    else if c == 'B' { Some(Piece::WhiteBishop) }
    else if c == 'b' { Some(Piece::BlackBishop) }
    else if c == 'R' { Some(Piece::WhiteRook) }
    else if c == 'r' { Some(Piece::BlackRook) }
    else if c == 'Q' { Some(Piece::WhiteQueen) }
    else if c == 'q' { Some(Piece::BlackQueen) }
    else if c == 'K' { Some(Piece::WhiteKing) }
    else if c == 'k' { Some(Piece::BlackKing) }
    else if c == 'E' { Some(Piece::WhiteEagle) }
    else if c == 'e' { Some(Piece::BlackEagle) }
    else if c == 'H' { Some(Piece::WhiteHawk) }
    else if c == 'h' { Some(Piece::BlackHawk) }
    else { None }
}

/// Every non-empty piece is the piece of its owner and its kind, and its
/// letter names it back.
pub proof fn lemma_piece_roundtrip(p: Piece)
    requires
        p != Piece::Empty,
    ensures
        piece_of(owner_lossy(p), type_of_piece(p)) == p,
        owner_of(p) == Some(owner_lossy(p)),
        is_real_type(type_of_piece(p)),
        piece_from_char(piece_char(p)) == Some(p),
{
}

impl Piece {
    /// The piece of `player` of kind `piece_type`: `Some(None)` for the
    /// `None` kind, `None` for the `All` sentinel.
    pub fn make(player: Player, piece_type: PieceType) -> (r: Option<Piece>)
        ensures
            r == (if piece_type == PieceType::Empty {
                Some(Piece::Empty)
            } else if piece_type == PieceType::All {
                None
            } else {
                Some(piece_of(player, piece_type))
            }),
    {
        match piece_type {
            PieceType::Empty => Some(Piece::Empty),
            PieceType::All => None,
            _ => Some(Piece::make_lossy(player, piece_type)),
        }
    }

    /// The piece at flat index `player * 8 + piece_type` of the piece table,
    /// without checks (for a real kind, the piece of that player and kind).
    pub fn make_lossy(player: Player, piece_type: PieceType) -> (r: Piece)
        ensures
            r == piece_of(player, piece_type),
    {
        match player {
            Player::White => match piece_type {
                PieceType::P => Piece::WhitePawn,
                PieceType::N => Piece::WhiteKnight,
                PieceType::B => Piece::WhiteBishop,
                PieceType::R => Piece::WhiteRook,
                PieceType::Q => Piece::WhiteQueen,
                PieceType::K => Piece::WhiteKing,
                PieceType::E => Piece::WhiteEagle,
                PieceType::H => Piece::WhiteHawk,
                PieceType::Empty => Piece::Empty,
                PieceType::All => Piece::BlackPawn,
            },
            Player::Black => match piece_type {
                PieceType::P => Piece::BlackPawn,
                PieceType::N => Piece::BlackKnight,
                PieceType::B => Piece::BlackBishop,
                PieceType::R => Piece::BlackRook,
                PieceType::Q => Piece::BlackQueen,
                PieceType::K => Piece::BlackKing,
                PieceType::E => Piece::BlackEagle,
                PieceType::H => Piece::BlackHawk,
                PieceType::Empty => Piece::WhiteHawk,
                PieceType::All => Piece::Empty,
            },
        }
    }

    /// Returns the PieceType.
    pub fn type_of(self) -> (r: PieceType)
        ensures
            r == type_of_piece(self),
    {
        match self {
            Piece::Empty => PieceType::Empty,
            Piece::WhitePawn | Piece::BlackPawn => PieceType::P,
            Piece::WhiteKnight | Piece::BlackKnight => PieceType::N,
            Piece::WhiteBishop | Piece::BlackBishop => PieceType::B,
            Piece::WhiteRook | Piece::BlackRook => PieceType::R,
            Piece::WhiteQueen | Piece::BlackQueen => PieceType::Q,
            Piece::WhiteKing | Piece::BlackKing => PieceType::K,
            Piece::WhiteEagle | Piece::BlackEagle => PieceType::E,
            Piece::WhiteHawk | Piece::BlackHawk => PieceType::H,
        }
    }

    /// Returns the Player, if any.
    pub fn player(self) -> (r: Option<Player>)
        ensures
            r == owner_of(self),
    {
        match self {
            Piece::Empty => None,
            Piece::WhitePawn
            | Piece::WhiteKnight
            | Piece::WhiteBishop
            | Piece::WhiteRook
            | Piece::WhiteQueen
            | Piece::WhiteKing
            | Piece::WhiteEagle
            | Piece::WhiteHawk => Some(Player::White),
            _ => Some(Player::Black),
        }
    }

    /// The owner by discriminant (White for `None`).
    pub fn player_lossy(self) -> (r: Player)
        ensures
            r == owner_lossy(self),
    {
        if self.index() >= 9 {
            Player::Black
        } else {
            Player::White
        }
    }

    /// Returns (Player, PieceType).
    pub fn player_piece_lossy(self) -> (r: (Player, PieceType))
        ensures
            r == (owner_lossy(self), type_of_piece(self)),
    {
        (self.player_lossy(), self.type_of())
    }

    /// Returns the HFEN character for this piece (`None` for the empty marker).
    pub fn character(self) -> (r: Option<char>)
        ensures
            r == (if self == Piece::Empty {
                None::<char>
            } else {
                Some(piece_char(self))
            }),
    {
        match self {
            Piece::Empty => None,
            _ => Some(self.character_lossy()),
        }
    }

    /// Returns the HFEN character of a non-empty piece.
    pub fn character_lossy(self) -> (r: char)
        requires
            self != Piece::Empty,
        ensures
            r == piece_char(self),
    {
        match self {
            Piece::WhitePawn => 'P',
            Piece::BlackPawn => 'p',
            Piece::WhiteKnight => 'N',
            Piece::BlackKnight => 'n',
            Piece::WhiteBishop => 'B',
            Piece::BlackBishop => 'b',
            Piece::WhiteRook => 'R',
            Piece::BlackRook => 'r',
            Piece::WhiteQueen => 'Q',
            Piece::BlackQueen => 'q',
            Piece::WhiteKing => 'K',
            Piece::BlackKing => 'k',
            Piece::WhiteEagle => 'E',
            Piece::BlackEagle => 'e',
            Piece::WhiteHawk => 'H',
            Piece::BlackHawk => 'h',
            Piece::Empty => '?',
        }
    }

    /// Parse from a HFEN character.
    pub fn from_char(c: char) -> (r: Option<Piece>)
        ensures
            r == piece_from_char(c),
    {
        if c == 'P' { Some(Piece::WhitePawn) }
        else if c == 'p' { Some(Piece::BlackPawn) }
        else if c == 'N' { Some(Piece::WhiteKnight) }
        else if c == 'n' { Some(Piece::BlackKnight) }
        else if c == 'B' { Some(Piece::WhiteBishop) }
        else if c == 'b' { Some(Piece::BlackBishop) }
        else if c == 'R' { Some(Piece::WhiteRook) }
        else if c == 'r' { Some(Piece::BlackRook) }
        else if c == 'Q' { Some(Piece::WhiteQueen) }
        else if c == 'q' { Some(Piece::BlackQueen) }
        else if c == 'K' { Some(Piece::WhiteKing) }
        else if c == 'k' { Some(Piece::BlackKing) }
        else if c == 'E' { Some(Piece::WhiteEagle) }
        else if c == 'e' { Some(Piece::BlackEagle) }
        else if c == 'H' { Some(Piece::WhiteHawk) }
        else if c == 'h' { Some(Piece::BlackHawk) }
        else { None }
    }

    /// Index for array access (0-16).
    pub fn index(self) -> (r: usize)
        ensures
            r as int == piece_index(self),
    {
        match self {
            Piece::Empty => 0,
            Piece::WhitePawn => 1,
            Piece::WhiteKnight => 2,
            Piece::WhiteBishop => 3,
            Piece::WhiteRook => 4,
            Piece::WhiteQueen => 5,
            Piece::WhiteKing => 6,
            Piece::WhiteEagle => 7,
            Piece::WhiteHawk => 8,
            Piece::BlackPawn => 9,
            Piece::BlackKnight => 10,
            Piece::BlackBishop => 11,
            Piece::BlackRook => 12,
            Piece::BlackQueen => 13,
            Piece::BlackKing => 14,
            Piece::BlackEagle => 15,
            Piece::BlackHawk => 16,
        }
    }
}

} // verus!
