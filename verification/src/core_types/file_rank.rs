//! The `File` and `Rank` coordinate enums for the 12×12 board.

use vstd::prelude::*;

verus! {

/// A board column, `A`..=`L`. HyperChess is 12 wide, so files run two past
/// standard chess's `H`.
#[derive(Copy, Clone, PartialEq, Eq, Structural, Debug, Ord, PartialOrd, Hash)]
pub enum File {
    A,
    B,
    C,
    D,
    E,
    F,
    G,
    H,
    I,
    J,
    K,
    L,
}

/// A board row, `R1`..=`R12`. `R1` is White's back rank and `R12` is Black's.
#[derive(Copy, Clone, PartialEq, Eq, Structural, Debug, Ord, PartialOrd, Hash)]
pub enum Rank {
    R1,
    R2,
    R3,
    R4,
    R5,
    R6,
    R7,
    R8,
    R9,
    R10,
    R11,
    R12,
}

/// The 0-based column index of a file.
pub open spec fn file_index(f: File) -> int {
    match f {
        File::A => 0,
        File::B => 1,
        File::C => 2,
        File::D => 3,
        File::E => 4,
        File::F => 5,
        File::G => 6,
        File::H => 7,
        File::I => 8,
        File::J => 9,
        File::K => 10,
        File::L => 11,
    }
}

/// The 0-based row index of a rank.
pub open spec fn rank_index(r: Rank) -> int {
    match r {
        Rank::R1 => 0,
        Rank::R2 => 1,
        Rank::R3 => 2,
        Rank::R4 => 3,
        Rank::R5 => 4,
        Rank::R6 => 5,
        Rank::R7 => 6,
        Rank::R8 => 7,
        Rank::R9 => 8,
        Rank::R10 => 9,
        Rank::R11 => 10,
        Rank::R12 => 11,
    }
}

/// The display letter of the file with index `i` (`'a'`..=`'l'`).
pub open spec fn file_letter(i: int) -> char {
    (i + 'a' as int) as char
}

impl File {
    /// Column index (0-11) to `File`.
    pub fn from_index(idx: u8) -> (r: File)
        requires
            idx < 12,
        ensures
            file_index(r) == idx,
    {
        match idx {
            0 => File::A,
            1 => File::B,
            2 => File::C,
            3 => File::D,
            4 => File::E,
            5 => File::F,
            6 => File::G,
            7 => File::H,
            8 => File::I,
            9 => File::J,
            10 => File::K,
            _ => File::L,
        }
    }

    /// The column index.
    pub fn index(self) -> (r: u8)
        ensures
            r == file_index(self),
    {
        match self {
            File::A => 0,
            File::B => 1,
            File::C => 2,
            File::D => 3,
            File::E => 4,
            File::F => 5,
            File::G => 6,
            File::H => 7,
            File::I => 8,
            File::J => 9,
            File::K => 10,
            File::L => 11,
        }
    }

    /// Absolute column separation.
    pub fn distance(self, other: File) -> (r: u8)
        ensures
            r as int == if file_index(self) > file_index(other) {
                file_index(self) - file_index(other)
            } else {
                file_index(other) - file_index(self)
            },
    {
        let a = self.index();
        let b = other.index();
        if a > b {
            a - b
        } else {
            b - a
        }
    }

    /// Display letter for this file (`'a'`..=`'l'`), as used by HFEN and UCI.
    pub fn char(self) -> (r: char)
        ensures
            r == file_letter(file_index(self)),
    {
        (97u8 + self.index()) as char
    }
}

impl Rank {
    /// Row index (0-11) to `Rank`.
    pub fn from_index(idx: u8) -> (r: Rank)
        requires
            idx < 12,
        ensures
            rank_index(r) == idx,
    {
        match idx {
            0 => Rank::R1,
            1 => Rank::R2,
            2 => Rank::R3,
            3 => Rank::R4,
            4 => Rank::R5,
            5 => Rank::R6,
            6 => Rank::R7,
            7 => Rank::R8,
            8 => Rank::R9,
            9 => Rank::R10,
            10 => Rank::R11,
            _ => Rank::R12,
        }
    }

    /// The row index.
    pub fn index(self) -> (r: u8)
        ensures
            r == rank_index(self),
    {
        match self {
            Rank::R1 => 0,
            Rank::R2 => 1,
            Rank::R3 => 2,
            Rank::R4 => 3,
            Rank::R5 => 4,
            Rank::R6 => 5,
            Rank::R7 => 6,
            Rank::R8 => 7,
            Rank::R9 => 8,
            Rank::R10 => 9,
            Rank::R11 => 10,
            Rank::R12 => 11,
        }
    }

    /// Absolute row separation.
    pub fn distance(self, other: Rank) -> (r: u8)
        ensures
            r as int == if rank_index(self) > rank_index(other) {
                rank_index(self) - rank_index(other)
            } else {
                rank_index(other) - rank_index(self)
            },
    {
        let a = self.index();
        let b = other.index();
        if a > b {
            a - b
        } else {
            b - a
        }
    }
}

} // verus!
