//! Square type for the 12x12 board (0-143).

use vstd::prelude::*;

use super::bitboard::BitBoard;
use super::file_rank::{file_index, file_letter, rank_index, File, Rank};
use crate::text::{dec_digits, push_decimal, string_from};

verus! {

/// A square on the 12x12 board: `sq = rank * 12 + file` where a1=0, l1=11,
/// a2=12, ..., l12=143. Index 144 is the "no square" sentinel.
#[derive(Copy, Clone, PartialEq, Eq, Structural, PartialOrd, Ord, Hash, Default, Debug)]
pub struct SQ(pub u8);

/// Sentinel index for "no square".
pub const NO_SQ_INDEX: u8 = 144;

/// The file (column) of square index `i`.
pub open spec fn sq_file(i: int) -> int {
    i % 12
}

/// The rank (row) of square index `i`.
pub open spec fn sq_rank(i: int) -> int {
    i / 12
}

/// The algebraic name of square index `i` (`"a1"` .. `"l12"`), `"--"` off the board.
pub open spec fn sq_notation(i: int) -> Seq<char> {
    if 0 <= i < 144 {
        seq![file_letter(sq_file(i))] + dec_digits((sq_rank(i) + 1) as nat)
    } else {
        seq!['-', '-']
    }
}

/// Absolute difference.
pub open spec fn abs_diff(a: int, b: int) -> int {
    if a > b {
        a - b
    } else {
        b - a
    }
}

/// Chebyshev distance between square indices.
pub open spec fn sq_distance(a: int, b: int) -> int {
    let fd = abs_diff(sq_file(a), sq_file(b));
    let rd = abs_diff(sq_rank(a), sq_rank(b));
    if fd >= rd {
        fd
    } else {
        rd
    }
}

/// Square `i` moved by `dir`, if the result is on the board and at most two
/// files away from `i` (so that no step wraps around the board edge).
pub open spec fn offset_of(i: int, dir: int) -> Option<SQ> {
    let n = i + dir;
    if !(0 <= n < 144) {
        None
    } else if abs_diff(sq_file(i), sq_file(n)) > 2 {
        None
    } else {
        Some(SQ(n as u8))
    }
}

/// The no-square sentinel.
pub fn no_sq() -> (r: SQ)
    ensures
        r.0 == 144,
{
    SQ(NO_SQ_INDEX)
}

impl SQ {
    /// Creates a SQ from file and rank indices (0-based).
    pub fn make(file: u8, rank: u8) -> (r: SQ)
        requires
            rank * 12 + file < 256,
        ensures
            r.0 == rank * 12 + file,
    {
        SQ(rank * 12 + file)
    }

    /// Returns the file index (0-11).
    pub fn file_idx(self) -> (r: u8)
        ensures
            r as int == sq_file(self.0 as int),
    {
        self.0 % 12
    }

    /// Returns the rank index (square index divided by 12).
    pub fn rank_idx(self) -> (r: u8)
        ensures
            r as int == sq_rank(self.0 as int),
    {
        self.0 / 12
    }

    /// Returns true if the square index is valid (0-143).
    pub fn is_okay(self) -> (r: bool)
        ensures
            r == (self.0 < 144),
    {
        self.0 < 144
    }

    /// Returns the File enum.
    pub fn file(self) -> (r: File)
        ensures
            file_index(r) == sq_file(self.0 as int),
    {
        File::from_index(self.file_idx())
    }

    /// Returns the Rank enum.
    pub fn rank(self) -> (r: Rank)
        requires
            self.0 < 144,
        ensures
            rank_index(r) == sq_rank(self.0 as int),
    {
        Rank::from_index(self.rank_idx())
    }

    /// Converts this square to a single-bit BitBoard.
    pub fn to_bb(self) -> (r: BitBoard)
        requires
            self.0 < 192,
        ensures
            forall|i: int| #[trigger] r.has(i) == (i == self.0),
            self.0 < 144 ==> r.valid(),
    {
        BitBoard::from_sq(self)
    }

    /// Appends the square's name to `out` (see [`SQ::notation`]).
    pub fn push_notation(self, out: &mut Vec<char>)
        ensures
            final(out)@ == old(out)@ + sq_notation(self.0 as int),
    {
        if !self.is_okay() {
            out.push('-');
            out.push('-');
        } else {
            out.push((97u8 + self.file_idx()) as char);
            push_decimal(out, (self.rank_idx() + 1) as u64);
        }
        assert(out@ =~= old(out)@ + sq_notation(self.0 as int));
    }

    /// Returns the string representation (e.g., "a1", "l12", "--" off the board).
    pub fn notation(self) -> (r: String)
        ensures
            r@ == sq_notation(self.0 as int),
    {
        let mut v: Vec<char> = Vec::new();
        self.push_notation(&mut v);
        assert(v@ =~= sq_notation(self.0 as int));
        string_from(&v)
    }

    /// Computes the Chebyshev distance between two squares.
    pub fn distance(self, other: SQ) -> (r: u8)
        ensures
            r as int == sq_distance(self.0 as int, other.0 as int),
    {
        let file_dist = if self.file_idx() > other.file_idx() {
            self.file_idx() - other.file_idx()
        } else {
            other.file_idx() - self.file_idx()
        };
        let rank_dist = if self.rank_idx() > other.rank_idx() {
            self.rank_idx() - other.rank_idx()
        } else {
            other.rank_idx() - self.rank_idx()
        };
        if file_dist >= rank_dist {
            file_dist
        } else {
            rank_dist
        }
    }

    /// Applies a direction offset, returning None if the result is off-board
    /// or more than two files away (a wrap around the edge).
    pub fn offset(self, dir: i16) -> (r: Option<SQ>)
        ensures
            r == offset_of(self.0 as int, dir as int),
    {
        let new_sq = self.0 as i32 + dir as i32;
        if !(0 <= new_sq && new_sq < 144) {
            return None;
        }
        let new_sq = new_sq as u8;
        let old_file = self.file_idx() as i32;
        let new_file = (new_sq % 12) as i32;
        let file_diff = if old_file > new_file {
            old_file - new_file
        } else {
            new_file - old_file
        };
        if file_diff > 2 {
            return None;
        }
        Some(SQ(new_sq))
    }

    /// Same as [`SQ::offset`]: the file-distance check allows up to two files,
    /// which covers knight steps as well as single steps.
    pub fn offset_unchecked(self, dir: i16) -> (r: Option<SQ>)
        ensures
            r == offset_of(self.0 as int, dir as int),
    {
        self.offset(dir)
    }

    /// Bottom-left corner, index 0.
    pub fn a1() -> (r: SQ)
        ensures
            r.0 == 0,
    {
        SQ(0)
    }

    /// b1.
    pub fn b1() -> (r: SQ)
        ensures
            r.0 == 1,
    {
        SQ(1)
    }

    /// c1.
    pub fn c1() -> (r: SQ)
        ensures
            r.0 == 2,
    {
        SQ(2)
    }

    /// Bottom-right corner — the l-file is the 12th.
    pub fn l1() -> (r: SQ)
        ensures
            r.0 == 11,
    {
        SQ(11)
    }

    /// a2.
    pub fn a2() -> (r: SQ)
        ensures
            r.0 == 12,
    {
        SQ(12)
    }

    /// White's king start (rank 2: the back rank carries the extra pieces).
    pub fn g2() -> (r: SQ)
        ensures
            r.0 == 18,
    {
        SQ(18)
    }

    /// Top-left corner.
    pub fn a12() -> (r: SQ)
        ensures
            r.0 == 132,
    {
        SQ(132)
    }

    /// Top-right corner, index 143.
    pub fn l12() -> (r: SQ)
        ensures
            r.0 == 143,
    {
        SQ(143)
    }

    /// Black's king start, mirroring g2.
    pub fn g11() -> (r: SQ)
        ensures
            r.0 == 126,
    {
        SQ(126)
    }
}

} // verus!
