//! Zobrist hashing keys for HyperChess (144 squares, 17 pieces, 12 en
//! passant files, 16 castling-right sets and the side to move).
//!
//! Every key is a fixed function of its slot: the slot number is offset by
//! a seed and run through the SplitMix64 finaliser, so hashes are
//! reproducible across runs and machines.

use vstd::prelude::*;

use crate::core_types::piece::{piece_index, Piece};
use crate::core_types::sq::SQ;

verus! {

/// Seed of the key sequence.
pub const ZOBRIST_SEED: u64 = 1070372;

/// Number of piece slots (indexed by the piece's discriminant).
pub const ZOBRIST_PIECE_CNT: u64 = 18;

/// First slot of the en passant keys.
pub const EP_BASE: u64 = 2592;

/// First slot of the castling keys.
pub const CASTLE_BASE: u64 = 2604;

/// Slot of the side-to-move key.
pub const SIDE_SLOT: u64 = 2620;

/// The SplitMix64 finaliser of `x + 0x9E37_79B9_7F4A_7C15`.
pub open spec fn mix64(x: u64) -> u64 {
    let z = x.wrapping_add(0x9E37_79B9_7F4A_7C15u64);
    let z = (z ^ (z >> 30u64)).wrapping_mul(0xBF58_476D_1CE4_E5B9u64);
    let z = (z ^ (z >> 27u64)).wrapping_mul(0x94D0_49BB_1331_11EBu64);
    z ^ (z >> 31u64)
}

/// The key of slot `n`.
pub open spec fn key_of(n: u64) -> u64 {
    mix64(ZOBRIST_SEED.wrapping_add(n.wrapping_mul(0x9E37_79B9_7F4A_7C15u64)))
}

/// Computes [`mix64`].
pub fn mix(x: u64) -> (r: u64)
    ensures
        r == mix64(x),
{
    let z = x.wrapping_add(0x9E37_79B9_7F4A_7C15u64);
    let z = (z ^ (z >> 30u64)).wrapping_mul(0xBF58_476D_1CE4_E5B9u64);
    let z = (z ^ (z >> 27u64)).wrapping_mul(0x94D0_49BB_1331_11EBu64);
    z ^ (z >> 31u64)
}

/// Computes [`key_of`].
pub fn key(n: u64) -> (r: u64)
    ensures
        r == key_of(n),
{
    mix(ZOBRIST_SEED.wrapping_add(n.wrapping_mul(0x9E37_79B9_7F4A_7C15u64)))
}

/// Zobrist hash keys.
pub struct ZobristKeys {
    /// Side to move.
    pub side: u64,
    /// Rule version salt.
    pub version_salt: u64,
}

/// The key of piece `p` on square `s`.
pub open spec fn piece_key(p: Piece, s: int) -> u64 {
    key_of((piece_index(p) * 144 + s) as u64)
}

/// The key of en passant file `f`.
pub open spec fn ep_key(f: int) -> u64 {
    key_of((EP_BASE + f) as u64)
}

/// The key of the castling-rights set `c`.
pub open spec fn castle_key(c: int) -> u64 {
    key_of((CASTLE_BASE + c) as u64)
}

/// The salt every position hash starts from.
pub const VERSION_SALT: u64 = 0xb1cb_fed6_6a8c_6417;

/// The key of the side to move.
pub open spec fn side_key() -> u64 {
    key_of(SIDE_SLOT)
}

/// The key of piece `piece` on square `sq`.
pub fn piece_square_key(piece: Piece, sq: SQ) -> (r: u64)
    requires
        sq.0 < 144,
    ensures
        r == piece_key(piece, sq.0 as int),
{
    let n = piece.index() as u64 * 144 + sq.0 as u64;
    key(n)
}

/// The key of en passant file `file`.
pub fn ep_file_key(file: u8) -> (r: u64)
    requires
        file < 12,
    ensures
        r == ep_key(file as int),
{
    key(EP_BASE + file as u64)
}

/// The key of the castling-rights set `rights`.
pub fn castle_rights_key(rights: u8) -> (r: u64)
    requires
        rights < 16,
    ensures
        r == castle_key(rights as int),
{
    key(CASTLE_BASE + rights as u64)
}

/// The key of the side to move.
pub fn side_to_move_key() -> (r: u64)
    ensures
        r == side_key(),
{
    key(SIDE_SLOT)
}

impl ZobristKeys {
    /// The key set.
    pub fn new() -> (r: Self)
        ensures
            r.side == side_key(),
            r.version_salt == 0xb1cb_fed6_6a8c_6417u64,
    {
        ZobristKeys { side: side_to_move_key(), version_salt: VERSION_SALT }
    }

    /// Returns the Zobrist key for a piece on a square.
    pub fn piece_at(&self, piece: Piece, sq: SQ) -> (r: u64)
        requires
            sq.0 < 144,
        ensures
            r == piece_key(piece, sq.0 as int),
    {
        piece_square_key(piece, sq)
    }

    /// Returns the Zobrist key for an en passant file.
    pub fn ep_file(&self, file: u8) -> (r: u64)
        requires
            file < 12,
        ensures
            r == ep_key(file as int),
    {
        ep_file_key(file)
    }

    /// Returns the Zobrist key for castling rights.
    pub fn castle(&self, rights: u8) -> (r: u64)
        requires
            rights < 16,
        ensures
            r == castle_key(rights as int),
    {
        castle_rights_key(rights)
    }
}

} // verus!
