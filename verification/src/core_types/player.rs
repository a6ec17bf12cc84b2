//! The `Player` (side) type and helpers.

use vstd::prelude::*;

use super::file_rank::{rank_index, Rank};
use super::masks::{NORTH, SOUTH};
use crate::text::{extend_str, string_from};

verus! {

/// The side to move or the owner of a piece.
#[derive(Copy, Clone, Debug, PartialEq, Eq, Structural, Hash)]
pub enum Player {
    White,
    Black,
}

/// Array index of a player: White 0, Black 1.
pub open spec fn player_index(p: Player) -> int {
    match p {
        Player::White => 0,
        Player::Black => 1,
    }
}

/// The other side.
pub open spec fn opponent(p: Player) -> Player {
    match p {
        Player::White => Player::Black,
        Player::Black => Player::White,
    }
}

/// The square offset of a single pawn step for `p`.
pub open spec fn pawn_push_of(p: Player) -> int {
    match p {
        Player::White => 12,
        Player::Black => -12,
    }
}

/// The name of a side.
pub open spec fn player_name(p: Player) -> Seq<char> {
    match p {
        Player::White => "White"@,
        Player::Black => "Black"@,
    }
}

impl Player {
    /// The side's name, `White` or `Black`.
    pub fn to_string(self) -> (r: String)
        ensures
            r@ == player_name(self),
    {
        let mut v: Vec<char> = Vec::new();
        match self {
            Player::White => extend_str(&mut v, "White"),
            Player::Black => extend_str(&mut v, "Black"),
        }
        string_from(&v)
    }

    /// The opponent.
    pub fn other_player(self) -> (r: Player)
        ensures
            r == opponent(self),
    {
        match self {
            Player::White => Player::Black,
            Player::Black => Player::White,
        }
    }

    /// Square offset of one pawn step forward.
    pub fn pawn_push(self) -> (r: i16)
        ensures
            r as int == pawn_push_of(self),
    {
        match self {
            Player::White => NORTH,
            Player::Black => SOUTH,
        }
    }

    /// Pawn start rank index.
    pub fn pawn_start_rank(self) -> (r: u8)
        ensures
            r == (match self {
                Player::White => 2u8,
                Player::Black => 9u8,
            }),
    {
        match self {
            Player::White => 2,
            Player::Black => 9,
        }
    }

    /// Promotion rank index — the empty back rank the pawn steps onto.
    pub fn promotion_rank(self) -> (r: u8)
        ensures
            r == (match self {
                Player::White => 11u8,
                Player::Black => 0u8,
            }),
    {
        match self {
            Player::White => 11,
            Player::Black => 0,
        }
    }

    /// En passant capture rank index.
    pub fn ep_rank(self) -> (r: u8)
        ensures
            r == (match self {
                Player::White => 4u8,
                Player::Black => 7u8,
            }),
    {
        match self {
            Player::White => 4,
            Player::Black => 7,
        }
    }

    /// The rank index XOR-ed with 0 (White) or 11 (Black), as a rank. For
    /// Black this mirrors ranks 1-4 and 9-12; ranks 5-8 map outside the board.
    pub fn relative_rank(self, rank: Rank) -> (r: Rank)
        requires
            self == Player::White || rank_index(rank) < 4 || rank_index(rank) > 7,
        ensures
            rank_index(r) == (rank_index(rank) as u8 ^ (if self == Player::White {
                0u8
            } else {
                11u8
            })),
    {
        let m: u8 = match self {
            Player::White => 0,
            Player::Black => 11,
        };
        let x = rank.index();
        let idx = x ^ m;
        proof {
            assert(x < 4 || x > 7 || m == 0 ==> (x < 12 ==> (x ^ m) < 12)) by (bit_vector)
                requires
                    m == 0 || m == 11,
            ;
        }
        Rank::from_index(idx)
    }

    /// Index for array access.
    pub fn index(self) -> (r: usize)
        ensures
            r as int == player_index(self),
    {
        match self {
            Player::White => 0,
            Player::Black => 1,
        }
    }
}

impl core::ops::Not for Player {
    type Output = Player;

    fn not(self) -> (r: Player)
        ensures
            r == opponent(self),
    {
        self.other_player()
    }
}

impl vstd::std_specs::ops::NotSpecImpl for Player {
    open spec fn obeys_not_spec() -> bool {
        true
    }

    open spec fn not_req(self) -> bool {
        true
    }

    open spec fn not_spec(self) -> Player {
        opponent(self)
    }
}

} // verus!
