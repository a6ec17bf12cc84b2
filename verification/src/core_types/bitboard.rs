//! BitBoard type for the 12x12 HyperChess board.
//!
//! A `BitBoard` is three 64-bit words (192 bits), of which the first 144 are
//! squares: bit `i` of the board is bit `i % 64` of word `i / 64`. A board is
//! *valid* when none of the bits 144..192 is set.

use vstd::prelude::*;

use super::bits::{
    bit64, lemma_bit_ops, lemma_bit_single, lemma_shl_one, lemma_shl_pair, lemma_shr_one,
    lemma_shr_pair, lemma_word_eq, lemma_word_zero, pop64, popcount,
};
use super::player::Player;
use super::sq::SQ;

verus! {

broadcast use vstd::std_specs::bits::axiom_u64_trailing_zeros,
    vstd::std_specs::bits::axiom_u64_leading_zeros;

/// Mask for the valid bits in the top word (squares 128-143, 16 bits).
pub const WORD2_MASK: u64 = 0xFFFF;

/// A 192-bit bitboard for the 12x12 board.
#[derive(Copy, Clone, Default, Hash, PartialEq, Eq, Structural, Debug)]
pub struct BitBoard(pub u64, pub u64, pub u64);

impl BitBoard {
    /// Word `k` (0, 1 or 2).
    pub open spec fn word(self, k: int) -> u64 {
        if k == 0 {
            self.0
        } else if k == 1 {
            self.1
        } else {
            self.2
        }
    }

    /// Whether bit `i` (0..192) is set.
    pub open spec fn has(self, i: int) -> bool {
        0 <= i < 192 && bit64(self.word(i / 64), i % 64)
    }

    /// No bit at or above 144 is set.
    pub open spec fn valid(self) -> bool {
        self.2 < 65536
    }

    /// The number of set bits.
    pub open spec fn count(self) -> nat {
        pop64(self.0) + pop64(self.1) + pop64(self.2)
    }

    /// No bit is set.
    pub open spec fn none_set(self) -> bool {
        self.0 == 0 && self.1 == 0 && self.2 == 0
    }

    /// A board with all words zero has no bit set, and conversely.
    pub proof fn lemma_none_set(self)
        ensures
            self.none_set() <==> (forall|i: int| !#[trigger] self.has(i)),
    {
        if self.none_set() {
            assert forall|i: int| !#[trigger] self.has(i) by {
                if 0 <= i < 192 {
                    lemma_bit_ops(0, 0, (i % 64) as u64);
                }
            }
        }
        if forall|i: int| !#[trigger] self.has(i) {
            assert forall|b: int| 0 <= b < 64 implies !#[trigger] bit64(self.0, b) by {
                assert(!self.has(b));
            }
            assert forall|b: int| 0 <= b < 64 implies !#[trigger] bit64(self.1, b) by {
                assert(!self.has(64 + b));
            }
            assert forall|b: int| 0 <= b < 64 implies !#[trigger] bit64(self.2, b) by {
                assert(!self.has(128 + b));
            }
            lemma_word_zero(self.0);
            lemma_word_zero(self.1);
            lemma_word_zero(self.2);
        }
    }

    /// Two boards with the same squares set are equal.
    pub proof fn lemma_ext(self, other: BitBoard)
        requires
            forall|i: int| #[trigger] self.has(i) == other.has(i),
        ensures
            self == other,
    {
        assert forall|b: int| 0 <= b < 64 implies #[trigger] bit64(self.0, b) == bit64(other.0, b) by {
            assert(self.has(b) == other.has(b));
        }
        assert forall|b: int| 0 <= b < 64 implies #[trigger] bit64(self.1, b) == bit64(other.1, b) by {
            assert(self.has(64 + b) == other.has(64 + b));
        }
        assert forall|b: int| 0 <= b < 64 implies #[trigger] bit64(self.2, b) == bit64(other.2, b) by {
            assert(self.has(128 + b) == other.has(128 + b));
        }
        lemma_word_eq(self.0, other.0);
        lemma_word_eq(self.1, other.1);
        lemma_word_eq(self.2, other.2);
    }

    /// The empty board.
    pub fn empty() -> (r: BitBoard)
        ensures
            r.none_set(),
            r.valid(),
            forall|i: int| !#[trigger] r.has(i),
    {
        let r = BitBoard(0, 0, 0);
        proof {
            r.lemma_none_set();
        }
        r
    }

    /// All 144 valid squares set.
    pub fn all() -> (r: BitBoard)
        ensures
            r.valid(),
            forall|i: int| #[trigger] r.has(i) == (0 <= i < 144),
    {
        let r = BitBoard(0xFFFF_FFFF_FFFF_FFFF, 0xFFFF_FFFF_FFFF_FFFF, WORD2_MASK);
        assert forall|i: int| #[trigger] r.has(i) == (0 <= i < 144) by {
            if 0 <= i < 192 {
                lemma_bit_ops(0, 0, (i % 64) as u64);
            }
        }
        r
    }

    /// Creates a bitboard with a single square set.
    pub fn from_sq(sq: SQ) -> (r: BitBoard)
        requires
            sq.0 < 192,
        ensures
            forall|i: int| #[trigger] r.has(i) == (i == sq.0),
            sq.0 < 144 ==> r.valid(),
    {
        let mut bb = BitBoard::empty();
        bb.set_bit(sq);
        bb
    }

    /// Sets a bit at the given square.
    pub fn set_bit(&mut self, sq: SQ)
        requires
            sq.0 < 192,
        ensures
            forall|i: int| #[trigger] final(self).has(i) == (old(self).has(i) || i == sq.0),
            old(self).valid() && sq.0 < 144 ==> final(self).valid(),
    {
        let idx = sq.0;
        let b = (idx % 64) as u64;
        if idx < 64 {
            self.0 = self.0 | (1u64 << b);
        } else if idx < 128 {
            self.1 = self.1 | (1u64 << b);
        } else {
            self.2 = self.2 | (1u64 << b);
        }
        proof {
            lemma_bit_single(old(self).2, b, 0);
            assert forall|i: int| #[trigger] self.has(i) == (old(self).has(i) || i == sq.0) by {
                if 0 <= i < 192 {
                    lemma_bit_single(old(self).word(i / 64), b, (i % 64) as u64);
                }
            }
        }
    }

    /// Clears a bit at the given square.
    pub fn clear_bit(&mut self, sq: SQ)
        requires
            sq.0 < 192,
        ensures
            forall|i: int| #[trigger] final(self).has(i) == (old(self).has(i) && i != sq.0),
            old(self).valid() ==> final(self).valid(),
    {
        let idx = sq.0;
        let b = (idx % 64) as u64;
        if idx < 64 {
            self.0 = self.0 & !(1u64 << b);
        } else if idx < 128 {
            self.1 = self.1 & !(1u64 << b);
        } else {
            self.2 = self.2 & !(1u64 << b);
        }
        proof {
            lemma_bit_single(old(self).2, b, 0);
            assert forall|i: int| #[trigger] self.has(i) == (old(self).has(i) && i != sq.0) by {
                if 0 <= i < 192 {
                    lemma_bit_single(old(self).word(i / 64), b, (i % 64) as u64);
                }
            }
        }
    }

    /// Tests if a bit is set at the given square.
    pub fn test_bit(self, sq: SQ) -> (r: bool)
        requires
            sq.0 < 192,
        ensures
            r == self.has(sq.0 as int),
    {
        let idx = sq.0;
        let b = (idx % 64) as u64;
        let w = if idx < 64 {
            self.0
        } else if idx < 128 {
            self.1
        } else {
            self.2
        };
        proof {
            lemma_bit_ops(w, 0, b);
        }
        (w >> b) & 1 != 0
    }

    /// Returns the number of set bits.
    pub fn count_bits(self) -> (r: u32)
        ensures
            r as nat == self.count(),
    {
        popcount(self.0) + popcount(self.1) + popcount(self.2)
    }

    /// Returns true if the bitboard is empty.
    pub fn is_empty(self) -> (r: bool)
        ensures
            r == self.none_set(),
            r == (forall|i: int| !#[trigger] self.has(i)),
    {
        proof {
            self.lemma_none_set();
        }
        self.0 == 0 && self.1 == 0 && self.2 == 0
    }

    /// Returns true if the bitboard is not empty.
    pub fn is_not_empty(self) -> (r: bool)
        ensures
            r == !self.none_set(),
            r == (exists|i: int| #[trigger] self.has(i)),
    {
        !self.is_empty()
    }

    /// Returns true if more than one bit is set.
    pub fn more_than_one(self) -> (r: bool)
        ensures
            r == (self.count() > 1),
    {
        self.count_bits() > 1
    }

    /// Returns the least significant set bit as a square.
    pub fn bit_scan_forward(self) -> (r: SQ)
        requires
            !self.none_set(),
        ensures
            r.0 < 192,
            self.has(r.0 as int),
            forall|j: int| 0 <= j < r.0 ==> !#[trigger] self.has(j),
    {
        if self.0 != 0 {
            let t = self.0.trailing_zeros();
            let r = SQ(t as u8);
            proof {
                assert forall|j: int| 0 <= j < r.0 implies !#[trigger] self.has(j) by {
                    assert((self.0 >> (j as u64)) & 1u64 == 0u64);
                }
            }
            r
        } else if self.1 != 0 {
            let t = self.1.trailing_zeros();
            let r = SQ(64 + t as u8);
            proof {
                assert forall|j: int| 0 <= j < r.0 implies !#[trigger] self.has(j) by {
                    if j < 64 {
                        lemma_bit_ops(0, 0, j as u64);
                    } else {
                        assert((self.1 >> ((j - 64) as u64)) & 1u64 == 0u64);
                    }
                }
            }
            r
        } else {
            let t = self.2.trailing_zeros();
            let r = SQ(128 + t as u8);
            proof {
                assert forall|j: int| 0 <= j < r.0 implies !#[trigger] self.has(j) by {
                    if j < 128 {
                        lemma_bit_ops(0, 0, (j % 64) as u64);
                    } else {
                        assert((self.2 >> ((j - 128) as u64)) & 1u64 == 0u64);
                    }
                }
            }
            r
        }
    }

    /// Returns the most significant set bit as a square.
    pub fn bit_scan_reverse(self) -> (r: SQ)
        requires
            !self.none_set(),
        ensures
            r.0 < 192,
            self.has(r.0 as int),
            forall|j: int| r.0 < j ==> !#[trigger] self.has(j),
    {
        if self.2 != 0 {
            let l = self.2.leading_zeros();
            let r = SQ(128 + (63 - l as u8));
            proof {
                lemma_bit_ops(self.2, 0, (63 - l) as u64);
                assert forall|j: int| r.0 < j implies !#[trigger] self.has(j) by {
                    if j < 192 {
                        assert((self.2 >> ((j - 128) as u64)) & 1u64 == 0u64);
                    }
                }
            }
            r
        } else if self.1 != 0 {
            let l = self.1.leading_zeros();
            let r = SQ(64 + (63 - l as u8));
            proof {
                lemma_bit_ops(self.1, 0, (63 - l) as u64);
                assert forall|j: int| r.0 < j implies !#[trigger] self.has(j) by {
                    if j < 128 {
                        assert((self.1 >> ((j - 64) as u64)) & 1u64 == 0u64);
                    } else if j < 192 {
                        lemma_bit_ops(0, 0, (j - 128) as u64);
                    }
                }
            }
            r
        } else {
            let l = self.0.leading_zeros();
            let r = SQ(63 - l as u8);
            proof {
                lemma_bit_ops(self.0, 0, (63 - l) as u64);
                assert forall|j: int| r.0 < j implies !#[trigger] self.has(j) by {
                    if j < 64 {
                        assert((self.0 >> (j as u64)) & 1u64 == 0u64);
                    } else if j < 192 {
                        lemma_bit_ops(0, 0, (j % 64) as u64);
                    }
                }
            }
            r
        }
    }

    /// Converts a single-bit bitboard to its square (the least set bit).
    pub fn to_sq(self) -> (r: SQ)
        requires
            !self.none_set(),
        ensures
            r.0 < 192,
            self.has(r.0 as int),
            forall|j: int| 0 <= j < r.0 ==> !#[trigger] self.has(j),
    {
        self.bit_scan_forward()
    }

    /// Pops and returns the least significant bit as a SQ.
    pub fn pop_lsb(&mut self) -> (r: SQ)
        requires
            !old(self).none_set(),
        ensures
            r.0 < 192,
            old(self).has(r.0 as int),
            forall|j: int| 0 <= j < r.0 ==> !#[trigger] old(self).has(j),
            forall|i: int| #[trigger] final(self).has(i) == (old(self).has(i) && i != r.0),
            old(self).valid() ==> final(self).valid(),
    {
        let sq = self.bit_scan_forward();
        self.clear_bit(sq);
        sq
    }

    /// Pops the LSB if any.
    pub fn pop_some_lsb(&mut self) -> (r: Option<SQ>)
        ensures
            old(self).none_set() ==> r is None && *final(self) == *old(self),
            !old(self).none_set() ==> r is Some,
            r matches Some(sq) ==> {
                &&& sq.0 < 192
                &&& old(self).has(sq.0 as int)
                &&& forall|j: int| 0 <= j < sq.0 ==> !#[trigger] old(self).has(j)
                &&& forall|i: int| #[trigger] final(self).has(i) == (old(self).has(i) && i != sq.0)
            },
            old(self).valid() ==> final(self).valid(),
    {
        if self.is_empty() {
            None
        } else {
            Some(self.pop_lsb())
        }
    }

    /// Returns the front-most square for a player (the highest for White,
    /// the lowest for Black).
    pub fn frontmost_sq(self, player: Player) -> (r: SQ)
        requires
            !self.none_set(),
        ensures
            r.0 < 192,
            self.has(r.0 as int),
            player == Player::White ==> forall|j: int| r.0 < j ==> !#[trigger] self.has(j),
            player == Player::Black ==> forall|j: int| 0 <= j < r.0 ==> !#[trigger] self.has(j),
    {
        match player {
            Player::White => self.bit_scan_reverse(),
            Player::Black => self.bit_scan_forward(),
        }
    }

    /// Returns the back-most square for a player (the lowest for White, the
    /// highest for Black).
    pub fn backmost_sq(self, player: Player) -> (r: SQ)
        requires
            !self.none_set(),
        ensures
            r.0 < 192,
            self.has(r.0 as int),
            player == Player::White ==> forall|j: int| 0 <= j < r.0 ==> !#[trigger] self.has(j),
            player == Player::Black ==> forall|j: int| r.0 < j ==> !#[trigger] self.has(j),
    {
        match player {
            Player::White => self.bit_scan_forward(),
            Player::Black => self.bit_scan_reverse(),
        }
    }

    /// The squares of `self` moved up by `shift` indices, before dropping
    /// those past the last word.
    fn shl_raw(self, shift: u32) -> (r: BitBoard)
        requires
            0 < shift < 192,
        ensures
            forall|i: int|
                #[trigger] r.has(i) == (0 <= i < 192 && i >= shift && self.has(i - shift)),
    {
        if shift >= 128 {
            let s = (shift - 128) as u64;
            let r = BitBoard(0, 0, self.0 << s);
            proof {
                assert forall|i: int|
                    #[trigger] r.has(i) == (0 <= i < 192 && i >= shift && self.has(i - shift)) by {
                    if 0 <= i < 192 {
                        let b = (i % 64) as u64;
                        lemma_bit_ops(0, 0, b);
                        if i >= 128 {
                            lemma_shl_one(self.0, s, b, (b - s) as u64);
                        }
                    }
                }
            }
            r
        } else if shift >= 64 {
            let s = (shift - 64) as u64;
            if s == 0 {
                let r = BitBoard(0, self.0, self.1);
                proof {
                    assert forall|i: int|
                        #[trigger] r.has(i) == (0 <= i < 192 && i >= shift && self.has(
                            i - shift,
                        )) by {
                        if 0 <= i < 192 {
                            lemma_bit_ops(0, 0, (i % 64) as u64);
                        }
                    }
                }
                r
            } else {
                let r = BitBoard(0, self.0 << s, (self.1 << s) | (self.0 >> (64 - s)));
                proof {
                    assert forall|i: int|
                        #[trigger] r.has(i) == (0 <= i < 192 && i >= shift && self.has(
                            i - shift,
                        )) by {
                        if 0 <= i < 192 {
                            let b = (i % 64) as u64;
                            lemma_bit_ops(0, 0, b);
                            if 64 <= i < 128 {
                                lemma_shl_one(self.0, s, b, (b - s) as u64);
                            } else if i >= 128 {
                                if b >= s {
                                    lemma_shl_pair(self.1, self.0, s, (64 - s) as u64, b, (b - s) as u64);
                                } else {
                                    lemma_shl_pair(self.1, self.0, s, (64 - s) as u64, b, (b + 64 - s) as u64);
                                }
                            }
                        }
                    }
                }
                r
            }
        } else {
            let s = shift as u64;
            let r = BitBoard(
                self.0 << s,
                (self.1 << s) | (self.0 >> (64 - s)),
                (self.2 << s) | (self.1 >> (64 - s)),
            );
            proof {
                assert forall|i: int|
                    #[trigger] r.has(i) == (0 <= i < 192 && i >= shift && self.has(i - shift)) by {
                    if 0 <= i < 192 {
                        let b = (i % 64) as u64;
                        if i < 64 {
                            lemma_shl_one(self.0, s, b, (b - s) as u64);
                        } else if i < 128 {
                            if b >= s {
                                lemma_shl_pair(self.1, self.0, s, (64 - s) as u64, b, (b - s) as u64);
                            } else {
                                lemma_shl_pair(self.1, self.0, s, (64 - s) as u64, b, (b + 64 - s) as u64);
                            }
                        } else {
                            if b >= s {
                                lemma_shl_pair(self.2, self.1, s, (64 - s) as u64, b, (b - s) as u64);
                            } else {
                                lemma_shl_pair(self.2, self.1, s, (64 - s) as u64, b, (b + 64 - s) as u64);
                            }
                        }
                    }
                }
            }
            r
        }
    }

    /// Moves every square up by `shift` indices; squares pushed past the
    /// last square are dropped.
    pub fn shl(self, shift: u32) -> (r: BitBoard)
        ensures
            shift == 0 ==> r == self,
            shift > 0 ==> r.valid(),
            shift > 0 ==> forall|i: int|
                #[trigger] r.has(i) == (0 <= i < 144 && i >= shift && self.has(i - shift)),
    {
        if shift == 0 {
            return self;
        }
        if shift >= 192 {
            return BitBoard::empty();
        }
        self.shl_raw(shift).mask_valid()
    }

    /// Moves every square down by `shift` indices; squares pushed below the
    /// first square are dropped.
    pub fn shr(self, shift: u32) -> (r: BitBoard)
        ensures
            shift == 0 ==> r == self,
            forall|i: int|
                #[trigger] r.has(i) == (0 <= i && i + shift < 192 && self.has(i + shift)),
            self.valid() ==> r.valid(),
    {
        if shift == 0 {
            return self;
        }
        if shift >= 192 {
            return BitBoard::empty();
        }
        if shift >= 128 {
            let s = (shift - 128) as u64;
            let r = BitBoard(self.2 >> s, 0, 0);
            proof {
                lemma_shr_one(self.2, s, 0, 0);
                assert forall|i: int|
                    #[trigger] r.has(i) == (0 <= i && i + shift < 192 && self.has(i + shift)) by {
                    if 0 <= i < 192 {
                        let b = (i % 64) as u64;
                        lemma_bit_ops(0, 0, b);
                        if i < 64 {
                            lemma_shr_one(self.2, s, b, (b + s) as u64);
                        }
                    }
                }
            }
            r
        } else if shift >= 64 {
            let s = (shift - 64) as u64;
            if s == 0 {
                let r = BitBoard(self.1, self.2, 0);
                proof {
                    lemma_bit_ops(0, 0, 0);
                    assert forall|i: int|
                        #[trigger] r.has(i) == (0 <= i && i + shift < 192 && self.has(
                            i + shift,
                        )) by {
                        if 0 <= i < 192 {
                            lemma_bit_ops(0, 0, (i % 64) as u64);
                        }
                    }
                }
                r
            } else {
                let r = BitBoard((self.1 >> s) | (self.2 << (64 - s)), self.2 >> s, 0);
                proof {
                    lemma_bit_ops(0, 0, 0);
                    assert forall|i: int|
                        #[trigger] r.has(i) == (0 <= i && i + shift < 192 && self.has(
                            i + shift,
                        )) by {
                        if 0 <= i < 192 {
                            let b = (i % 64) as u64;
                            lemma_bit_ops(0, 0, b);
                            if i < 64 {
                                if b + s < 64 {
                                    lemma_shr_pair(self.1, self.2, s, (64 - s) as u64, b, (b + s) as u64);
                                } else {
                                    lemma_shr_pair(self.1, self.2, s, (64 - s) as u64, b, (b + s - 64) as u64);
                                }
                            } else if i < 128 {
                                lemma_shr_one(self.2, s, b, (b + s) as u64);
                            }
                        }
                    }
                }
                r
            }
        } else {
            let s = shift as u64;
            let r = BitBoard(
                (self.0 >> s) | (self.1 << (64 - s)),
                (self.1 >> s) | (self.2 << (64 - s)),
                self.2 >> s,
            );
            proof {
                lemma_shr_one(self.2, s, 0, 0);
                assert forall|i: int|
                    #[trigger] r.has(i) == (0 <= i && i + shift < 192 && self.has(i + shift)) by {
                    if 0 <= i < 192 {
                        let b = (i % 64) as u64;
                        if i < 64 {
                            if b + s < 64 {
                                lemma_shr_pair(self.0, self.1, s, (64 - s) as u64, b, (b + s) as u64);
                            } else {
                                lemma_shr_pair(self.0, self.1, s, (64 - s) as u64, b, (b + s - 64) as u64);
                            }
                        } else if i < 128 {
                            if b + s < 64 {
                                lemma_shr_pair(self.1, self.2, s, (64 - s) as u64, b, (b + s) as u64);
                            } else {
                                lemma_shr_pair(self.1, self.2, s, (64 - s) as u64, b, (b + s - 64) as u64);
                            }
                        } else {
                            lemma_shr_one(self.2, s, b, (b + s) as u64);
                        }
                    }
                }
            }
            r
        }
    }

    /// The set squares, in increasing order.
    pub fn squares(self) -> (r: Vec<SQ>)
        ensures
            forall|k: int| 0 <= k < r.len() ==> #[trigger] self.has(r[k].0 as int),
            forall|k: int, l: int| 0 <= k < l < r.len() ==> r[k].0 < r[l].0,
            forall|i: int|
                #[trigger] self.has(i) ==> exists|k: int| 0 <= k < r.len() && r[k].0 == i,
    {
        let mut bb = self;
        let mut v: Vec<SQ> = Vec::new();
        let ghost mut lo: int = 0;
        while !bb.is_empty()
            invariant
                0 <= lo <= 192,
                forall|i: int| #[trigger] bb.has(i) == (self.has(i) && i >= lo),
                forall|k: int| 0 <= k < v.len() ==> #[trigger] self.has(v[k].0 as int),
                forall|k: int| 0 <= k < v.len() ==> #[trigger] v[k].0 < lo,
                forall|k: int, l: int| 0 <= k < l < v.len() ==> v[k].0 < v[l].0,
                forall|i: int|
                    #[trigger] self.has(i) && i < lo ==> exists|k: int|
                        0 <= k < v.len() && v[k].0 == i,
            decreases 192 - lo,
        {
            let ghost v0 = v@;
            let ghost lo0 = lo;
            let ghost bb0 = bb;
            let sq = bb.pop_lsb();
            v.push(sq);
            proof {
                lo = sq.0 + 1;
                assert(v[v.len() - 1] == sq);
                assert forall|i: int| #[trigger] self.has(i) && i < lo implies exists|k: int|
                    0 <= k < v.len() && v[k].0 == i by {
                    if i == sq.0 {
                        assert(v[v.len() - 1].0 == i);
                    } else {
                        if i >= lo0 {
                            assert(bb0.has(i));
                        }
                        assert(self.has(i) && i < lo0);
                        let k = choose|k: int| 0 <= k < v0.len() && v0[k].0 == i;
                        assert(v[k].0 == i);
                    }
                }
            }
        }
        assert forall|i: int| #[trigger] self.has(i) implies exists|k: int|
            0 <= k < v.len() && v[k].0 == i by {
            assert(!bb.has(i));
        }
        v
    }

    /// Shift the entire bitboard north by one rank (add 12).
    pub fn shift_north(self) -> (r: BitBoard)
        ensures
            r.valid(),
            forall|i: int| #[trigger] r.has(i) == (0 <= i < 144 && i >= 12 && self.has(i - 12)),
    {
        self.shl(12)
    }

    /// Shift south by one rank (subtract 12).
    pub fn shift_south(self) -> (r: BitBoard)
        ensures
            self.valid() ==> r.valid(),
            forall|i: int| #[trigger] r.has(i) == (0 <= i && i + 12 < 192 && self.has(i + 12)),
    {
        self.shr(12)
    }

    /// Mask to only valid squares (clear bits 144+).
    pub fn mask_valid(self) -> (r: BitBoard)
        ensures
            r == BitBoard(self.0, self.1, self.2 & WORD2_MASK),
            r.valid(),
            forall|i: int| #[trigger] r.has(i) == (self.has(i) && i < 144),
    {
        let r = BitBoard(self.0, self.1, self.2 & WORD2_MASK);
        proof {
            lemma_bit_ops(self.2, 0, 0);
            assert forall|i: int| #[trigger] r.has(i) == (self.has(i) && i < 144) by {
                if 128 <= i < 192 {
                    lemma_bit_ops(self.2, 0, (i - 128) as u64);
                }
            }
        }
        r
    }

    /// Bitwise and: the squares in both.
    pub fn and_bb(self, rhs: BitBoard) -> (r: BitBoard)
        ensures
            r == BitBoard(self.0 & rhs.0, self.1 & rhs.1, self.2 & rhs.2),
            forall|i: int| #[trigger] r.has(i) == (self.has(i) && rhs.has(i)),
            self.valid() || rhs.valid() ==> r.valid(),
    {
        let r = BitBoard(self.0 & rhs.0, self.1 & rhs.1, self.2 & rhs.2);
        proof {
            lemma_bit_ops(self.2, rhs.2, 0);
            lemma_bit_ops(rhs.2, self.2, 0);
            assert forall|i: int| #[trigger] r.has(i) == (self.has(i) && rhs.has(i)) by {
                if 0 <= i < 192 {
                    lemma_bit_ops(self.word(i / 64), rhs.word(i / 64), (i % 64) as u64);
                }
            }
        }
        r
    }

    /// Bitwise or: the squares in either.
    pub fn or_bb(self, rhs: BitBoard) -> (r: BitBoard)
        ensures
            r == BitBoard(self.0 | rhs.0, self.1 | rhs.1, self.2 | rhs.2),
            forall|i: int| #[trigger] r.has(i) == (self.has(i) || rhs.has(i)),
            self.valid() && rhs.valid() ==> r.valid(),
    {
        let r = BitBoard(self.0 | rhs.0, self.1 | rhs.1, self.2 | rhs.2);
        proof {
            lemma_bit_ops(self.2, rhs.2, 0);
            assert forall|i: int| #[trigger] r.has(i) == (self.has(i) || rhs.has(i)) by {
                if 0 <= i < 192 {
                    lemma_bit_ops(self.word(i / 64), rhs.word(i / 64), (i % 64) as u64);
                }
            }
        }
        r
    }

    /// Bitwise xor: the squares in exactly one.
    pub fn xor_bb(self, rhs: BitBoard) -> (r: BitBoard)
        ensures
            r == BitBoard(self.0 ^ rhs.0, self.1 ^ rhs.1, self.2 ^ rhs.2),
            forall|i: int| #[trigger] r.has(i) == (self.has(i) != rhs.has(i)),
            self.valid() && rhs.valid() ==> r.valid(),
    {
        let r = BitBoard(self.0 ^ rhs.0, self.1 ^ rhs.1, self.2 ^ rhs.2);
        proof {
            lemma_bit_ops(self.2, rhs.2, 0);
            assert forall|i: int| #[trigger] r.has(i) == (self.has(i) != rhs.has(i)) by {
                if 0 <= i < 192 {
                    lemma_bit_ops(self.word(i / 64), rhs.word(i / 64), (i % 64) as u64);
                }
            }
        }
        r
    }

    /// Complement within the 144 squares.
    pub fn not_bb(self) -> (r: BitBoard)
        ensures
            r == BitBoard(!self.0, !self.1, !self.2 & WORD2_MASK),
            r.valid(),
            forall|i: int| #[trigger] r.has(i) == (0 <= i < 144 && !self.has(i)),
    {
        let r = BitBoard(!self.0, !self.1, !self.2 & WORD2_MASK);
        proof {
            lemma_bit_ops(self.2, 0, 0);
            assert forall|i: int| #[trigger] r.has(i) == (0 <= i < 144 && !self.has(i)) by {
                if 0 <= i < 192 {
                    lemma_bit_ops(self.word(i / 64), 0, (i % 64) as u64);
                    lemma_bit_ops(!self.word(i / 64), 0, (i % 64) as u64);
                }
            }
        }
        r
    }
}

impl std::ops::BitAnd for BitBoard {
    type Output = BitBoard;

    fn bitand(self, rhs: BitBoard) -> (r: BitBoard) {
        self.and_bb(rhs)
    }
}

impl vstd::std_specs::ops::BitAndSpecImpl for BitBoard {
    open spec fn obeys_bitand_spec() -> bool {
        true
    }

    open spec fn bitand_req(self, rhs: BitBoard) -> bool {
        true
    }

    open spec fn bitand_spec(self, rhs: BitBoard) -> BitBoard {
        BitBoard(self.0 & rhs.0, self.1 & rhs.1, self.2 & rhs.2)
    }
}

impl std::ops::BitOr for BitBoard {
    type Output = BitBoard;

    fn bitor(self, rhs: BitBoard) -> (r: BitBoard) {
        self.or_bb(rhs)
    }
}

impl vstd::std_specs::ops::BitOrSpecImpl for BitBoard {
    open spec fn obeys_bitor_spec() -> bool {
        true
    }

    open spec fn bitor_req(self, rhs: BitBoard) -> bool {
        true
    }

    open spec fn bitor_spec(self, rhs: BitBoard) -> BitBoard {
        BitBoard(self.0 | rhs.0, self.1 | rhs.1, self.2 | rhs.2)
    }
}

impl std::ops::BitXor for BitBoard {
    type Output = BitBoard;

    fn bitxor(self, rhs: BitBoard) -> (r: BitBoard) {
        self.xor_bb(rhs)
    }
}

impl vstd::std_specs::ops::BitXorSpecImpl for BitBoard {
    open spec fn obeys_bitxor_spec() -> bool {
        true
    }

    open spec fn bitxor_req(self, rhs: BitBoard) -> bool {
        true
    }

    open spec fn bitxor_spec(self, rhs: BitBoard) -> BitBoard {
        BitBoard(self.0 ^ rhs.0, self.1 ^ rhs.1, self.2 ^ rhs.2)
    }
}

impl std::ops::Not for BitBoard {
    type Output = BitBoard;

    fn not(self) -> (r: BitBoard) {
        self.not_bb()
    }
}

impl vstd::std_specs::ops::NotSpecImpl for BitBoard {
    open spec fn obeys_not_spec() -> bool {
        true
    }

    open spec fn not_req(self) -> bool {
        true
    }

    open spec fn not_spec(self) -> BitBoard {
        BitBoard(!self.0, !self.1, !self.2 & WORD2_MASK)
    }
}

} // verus!
