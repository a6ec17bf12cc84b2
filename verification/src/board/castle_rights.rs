//! Castling rights for HyperChess (12x12 board).

use vstd::prelude::*;

use crate::core_types::masks::{
    BLACK_KING_START, C_BLACK_K_MASK, C_BLACK_Q_MASK, C_WHITE_K_MASK, C_WHITE_Q_MASK,
    ROOK_BLACK_KSIDE_START, ROOK_BLACK_QSIDE_START, ROOK_WHITE_KSIDE_START,
    ROOK_WHITE_QSIDE_START, WHITE_KING_START,
};
use crate::core_types::player::Player;
use crate::core_types::sq::SQ;
use crate::text::{chars_of, string_from};

verus! {

/// Castling rights stored as a u8 bitmask.
/// Bit 3: White king-side
/// Bit 2: White queen-side
/// Bit 1: Black king-side
/// Bit 0: Black queen-side
#[derive(Copy, Clone, PartialEq, Eq, Structural, Hash, Debug)]
pub struct CastleRights(pub u8);

/// The king-side bit of `p`.
pub open spec fn king_side_mask(p: Player) -> u8 {
    if p == Player::White {
        8u8
    } else {
        2u8
    }
}

/// The queen-side bit of `p`.
pub open spec fn queen_side_mask(p: Player) -> u8 {
    if p == Player::White {
        4u8
    } else {
        1u8
    }
}

/// The bits a letter of the HFEN castling field grants.
pub open spec fn castle_letter_bits(c: char) -> u8 {
    if c == 'K' {
        8u8
    } else if c == 'Q' {
        4u8
    } else if c == 'k' {
        2u8
    } else if c == 'q' {
        1u8
    } else {
        0u8
    }
}

/// The union of the bits of every letter of `s`.
pub open spec fn castle_bits_of(s: Seq<char>) -> u8
    decreases s.len(),
{
    if s.len() == 0 {
        0u8
    } else {
        castle_bits_of(s.drop_last()) | castle_letter_bits(s.last())
    }
}

/// The HFEN castling field for the rights `r`: `"-"` for none, else the
/// letters of the set bits in the order `KQkq`.
pub open spec fn castle_text(r: u8) -> Seq<char> {
    if r == 0 {
        seq!['-']
    } else {
        (if r & 8 != 0 {
            seq!['K']
        } else {
            Seq::<char>::empty()
        }) + (if r & 4 != 0 {
            seq!['Q']
        } else {
            Seq::<char>::empty()
        }) + (if r & 2 != 0 {
            seq!['k']
        } else {
            Seq::<char>::empty()
        }) + (if r & 1 != 0 {
            seq!['q']
        } else {
            Seq::<char>::empty()
        })
    }
}

/// The rights left after a piece moves from `from` to `to`: a king leaving
/// or entering its start square clears both of its side's rights, a rook
/// start square touched clears that rook's right.
pub open spec fn rights_after_move(r: u8, from: int, to: int) -> u8 {
    let r1 = if from == 18 || to == 18 {
        r & !12u8
    } else {
        r
    };
    let r2 = if from == 126 || to == 126 {
        r1 & !3u8
    } else {
        r1
    };
    let r3 = if from == 21 || to == 21 {
        r2 & !8u8
    } else {
        r2
    };
    let r4 = if from == 14 || to == 14 {
        r3 & !4u8
    } else {
        r3
    };
    let r5 = if from == 129 || to == 129 {
        r4 & !2u8
    } else {
        r4
    };
    if from == 122 || to == 122 {
        r5 & !1u8
    } else {
        r5
    }
}

/// The rights without those of `p`.
pub open spec fn rights_without_player(r: u8, p: Player) -> u8 {
    if p == Player::White {
        r & !12u8
    } else {
        r & !3u8
    }
}

/// Bit facts about the rights word.
proof fn lemma_rights_bits(r: u8, s: u8)
    by (bit_vector)
    ensures
        r < 16 ==> (r & !12u8) < 16 && (r & !3u8) < 16 && (r & !8u8) < 16 && (r & !4u8) < 16 && (r
            & !2u8) < 16 && (r & !1u8) < 16,
        r < 16 && s < 16 ==> (r | s) < 16,
        (r & !s) <= r,
{
}

impl CastleRights {
    /// No rights.
    pub fn none() -> (r: CastleRights)
        ensures
            r.0 == 0,
    {
        CastleRights(0)
    }

    /// All four rights.
    pub fn all() -> (r: CastleRights)
        ensures
            r.0 == 15,
    {
        CastleRights(15)
    }

    /// Can the given player castle king-side?
    pub fn can_king_side(self, player: Player) -> (r: bool)
        ensures
            r == (self.0 & king_side_mask(player) != 0),
    {
        let mask = match player {
            Player::White => C_WHITE_K_MASK,
            Player::Black => C_BLACK_K_MASK,
        };
        self.0 & mask != 0
    }

    /// Can the given player castle queen-side?
    pub fn can_queen_side(self, player: Player) -> (r: bool)
        ensures
            r == (self.0 & queen_side_mask(player) != 0),
    {
        let mask = match player {
            Player::White => C_WHITE_Q_MASK,
            Player::Black => C_BLACK_Q_MASK,
        };
        self.0 & mask != 0
    }

    /// Has any castling right.
    pub fn has_any(self) -> (r: bool)
        ensures
            r == (self.0 != 0),
    {
        self.0 != 0
    }

    /// Remove a specific right.
    pub fn remove(&mut self, right: CastleRights)
        ensures
            final(self).0 == old(self).0 & !right.0,
    {
        self.0 = self.0 & !right.0;
    }

    /// Remove all rights for a player.
    pub fn remove_player(&mut self, player: Player)
        ensures
            final(self).0 == rights_without_player(old(self).0, player),
            old(self).0 < 16 ==> final(self).0 < 16,
    {
        proof {
            lemma_rights_bits(self.0, 0);
        }
        assert(8u8 | 4u8 == 12u8 && 2u8 | 1u8 == 3u8) by (bit_vector);
        match player {
            Player::White => self.0 = self.0 & !(C_WHITE_K_MASK | C_WHITE_Q_MASK),
            Player::Black => self.0 = self.0 & !(C_BLACK_K_MASK | C_BLACK_Q_MASK),
        }
    }

    /// Update castling rights when a piece moves from `from` to `to`.
    pub fn update_for_move(&mut self, from: SQ, to: SQ)
        ensures
            final(self).0 == rights_after_move(old(self).0, from.0 as int, to.0 as int),
            old(self).0 < 16 ==> final(self).0 < 16,
    {
        proof {
            lemma_rights_bits(self.0, 0);
            lemma_rights_bits(self.0 & !12u8, 0);
            lemma_rights_bits(self.0 & !3u8, 0);
        }
        assert(8u8 | 4u8 == 12u8 && 2u8 | 1u8 == 3u8) by (bit_vector);
        let ghost r0 = self.0;
        if from.0 == WHITE_KING_START || to.0 == WHITE_KING_START {
            self.0 = self.0 & !(C_WHITE_K_MASK | C_WHITE_Q_MASK);
        }
        let ghost r1 = self.0;
        if from.0 == BLACK_KING_START || to.0 == BLACK_KING_START {
            self.0 = self.0 & !(C_BLACK_K_MASK | C_BLACK_Q_MASK);
        }
        let ghost r2 = self.0;
        if from.0 == ROOK_WHITE_KSIDE_START || to.0 == ROOK_WHITE_KSIDE_START {
            self.0 = self.0 & !C_WHITE_K_MASK;
        }
        let ghost r3 = self.0;
        if from.0 == ROOK_WHITE_QSIDE_START || to.0 == ROOK_WHITE_QSIDE_START {
            self.0 = self.0 & !C_WHITE_Q_MASK;
        }
        let ghost r4 = self.0;
        if from.0 == ROOK_BLACK_KSIDE_START || to.0 == ROOK_BLACK_KSIDE_START {
            self.0 = self.0 & !C_BLACK_K_MASK;
        }
        let ghost r5 = self.0;
        if from.0 == ROOK_BLACK_QSIDE_START || to.0 == ROOK_BLACK_QSIDE_START {
            self.0 = self.0 & !C_BLACK_Q_MASK;
        }
        proof {
            lemma_rights_bits(r1, 0);
            lemma_rights_bits(r2, 0);
            lemma_rights_bits(r3, 0);
            lemma_rights_bits(r4, 0);
            lemma_rights_bits(r5, 0);
        }
    }

    /// Rights from the characters of an HFEN castling field.
    pub fn from_chars(s: &Vec<char>) -> (r: CastleRights)
        ensures
            r.0 == (if s@ == seq!['-'] {
                0u8
            } else {
                castle_bits_of(s@)
            }),
            r.0 < 16,
    {
        if s.len() == 1 && s[0] == '-' {
            assert(s@ =~= seq!['-']);
            return CastleRights(0);
        }
        let mut rights: u8 = 0;
        let mut i: usize = 0;
        while i < s.len()
            invariant
                i <= s.len(),
                rights == castle_bits_of(s@.take(i as int)),
                rights < 16,
            decreases s.len() - i,
        {
            let c = s[i];
            let bits: u8 = if c == 'K' {
                C_WHITE_K_MASK
            } else if c == 'Q' {
                C_WHITE_Q_MASK
            } else if c == 'k' {
                C_BLACK_K_MASK
            } else if c == 'q' {
                C_BLACK_Q_MASK
            } else {
                0
            };
            proof {
                lemma_rights_bits(rights, bits);
                assert(s@.take(i + 1).drop_last() =~= s@.take(i as int));
            }
            rights = rights | bits;
            i += 1;
        }
        assert(s@.take(s.len() as int) =~= s@);
        proof {
            if s@ == seq!['-'] {
                assert(s.len() == 1 && s[0] == '-');
            }
        }
        CastleRights(rights)
    }

    /// Parse from HFEN string (e.g., "KQkq", "Kq", "-").
    pub fn from_hfen(s: &str) -> (r: CastleRights)
        ensures
            r.0 == (if s@ == seq!['-'] {
                0u8
            } else {
                castle_bits_of(s@)
            }),
            r.0 < 16,
    {
        let v = chars_of(s);
        CastleRights::from_chars(&v)
    }

    /// The characters of [`CastleRights::to_hfen`].
    pub fn text(self) -> (r: Vec<char>)
        ensures
            r@ == castle_text(self.0),
    {
        let mut v: Vec<char> = Vec::new();
        if self.0 == 0 {
            v.push('-');
            assert(v@ =~= castle_text(self.0));
            return v;
        }
        if self.0 & C_WHITE_K_MASK != 0 {
            v.push('K');
        }
        if self.0 & C_WHITE_Q_MASK != 0 {
            v.push('Q');
        }
        if self.0 & C_BLACK_K_MASK != 0 {
            v.push('k');
        }
        if self.0 & C_BLACK_Q_MASK != 0 {
            v.push('q');
        }
        assert(v@ =~= castle_text(self.0));
        v
    }

    /// Convert to HFEN string.
    pub fn to_hfen(self) -> (r: String)
        ensures
            r@ == castle_text(self.0),
    {
        let v = self.text();
        string_from(&v)
    }
}

} // verus!
