//! Masks and constants for the 12x12 HyperChess board.

use vstd::prelude::*;

use super::player::{player_index, Player};

verus! {

/// Total number of players.
pub const PLAYER_CNT: usize = 2;

/// Total number of piece types (None, P, N, B, R, Q, K, E, H, All).
pub const PIECE_TYPE_CNT: usize = 10;

/// Total number of piece+player combinations.
pub const PIECE_CNT: usize = 20;

/// Total number of squares on the 12x12 board.
pub const SQ_CNT: usize = 144;

/// Total number of files (a-l).
pub const FILE_CNT: usize = 12;

/// Total number of ranks (1-12).
pub const RANK_CNT: usize = 12;

/// Maximum number of moves in a position.
pub const MAX_MOVES: usize = 512;

/// Game phases.
pub const PHASE_CNT: usize = 2;

/// Castling sides (king-side, queen-side).
pub const CASTLING_SIDES: usize = 2;

/// Total castling combinations per player.
pub const TOTAL_CASTLING_CNT: usize = 4;

/// Total castling rights for both players.
pub const ALL_CASTLING_RIGHTS: usize = 16;

/// Direction north on a 12-wide board.
pub const NORTH: i16 = 12;

/// Direction south on a 12-wide board.
pub const SOUTH: i16 = -12;

/// Direction east.
pub const EAST: i16 = 1;

/// Direction west.
pub const WEST: i16 = -1;

/// Direction northeast.
pub const NORTH_EAST: i16 = 13;

/// Direction northwest.
pub const NORTH_WEST: i16 = 11;

/// Direction southeast.
pub const SOUTH_EAST: i16 = -11;

/// Direction southwest.
pub const SOUTH_WEST: i16 = -13;

/// White king starting square: g2 = 1*12 + 6 = 18
pub const WHITE_KING_START: u8 = 18;

/// Black king starting square: g11 = 10*12 + 6 = 126
pub const BLACK_KING_START: u8 = 126;

/// White king-side rook: j2 = 1*12 + 9 = 21
pub const ROOK_WHITE_KSIDE_START: u8 = 21;

/// White queen-side rook: c2 = 1*12 + 2 = 14
pub const ROOK_WHITE_QSIDE_START: u8 = 14;

/// Black king-side rook: j11 = 10*12 + 9 = 129
pub const ROOK_BLACK_KSIDE_START: u8 = 129;

/// Black queen-side rook: c11 = 10*12 + 2 = 122
pub const ROOK_BLACK_QSIDE_START: u8 = 122;

/// Castling right bit: White king-side.
pub const C_WHITE_K_MASK: u8 = 8;

/// Castling right bit: White queen-side.
pub const C_WHITE_Q_MASK: u8 = 4;

/// Castling right bit: Black king-side.
pub const C_BLACK_K_MASK: u8 = 2;

/// Castling right bit: Black queen-side.
pub const C_BLACK_Q_MASK: u8 = 1;

/// HFEN piece characters for parsing.
pub const HFEN_PIECE_CHARS: &'static str = "PNBRQKEHpnbrqkeh";

/// Starting HFEN for HyperChess (the identity form).
pub const START_HFEN: &'static str =
    "12/abcdefghijkl/mnopqrstuvwx/12/12/12/12/12/12/MNOPQRSTUVWX/ABCDEFGHIJKL/12 w - - 0 1";

/// Starting rook square for `player` on castling `side` (0 = king, 1 = queen).
pub open spec fn rook_start_of(p: Player, side: int) -> int {
    if player_index(p) == 0 {
        if side == 0 { 21 } else { 14 }
    } else {
        if side == 0 { 129 } else { 122 }
    }
}

/// King destination square for `player` castling on `side`.
pub open spec fn king_dst_of(p: Player, side: int) -> int {
    if player_index(p) == 0 {
        if side == 0 { 20 } else { 16 }
    } else {
        if side == 0 { 128 } else { 124 }
    }
}

/// Rook destination square for `player` castling on `side`.
pub open spec fn rook_dst_of(p: Player, side: int) -> int {
    if player_index(p) == 0 {
        if side == 0 { 19 } else { 17 }
    } else {
        if side == 0 { 127 } else { 125 }
    }
}

/// King starting square of `p`.
pub open spec fn king_start_of(p: Player) -> int {
    if player_index(p) == 0 { 18 } else { 126 }
}

/// Starting rook square for `player` on castling `side` (0 = king, 1 = queen).
pub fn castling_rook_start(p: Player, side: usize) -> (r: u8)
    requires
        side < 2,
    ensures
        r as int == rook_start_of(p, side as int),
{
    match p {
        Player::White => if side == 0 { ROOK_WHITE_KSIDE_START } else { ROOK_WHITE_QSIDE_START },
        Player::Black => if side == 0 { ROOK_BLACK_KSIDE_START } else { ROOK_BLACK_QSIDE_START },
    }
}

/// King destination square for castling.
pub fn castling_king_dst(p: Player, side: usize) -> (r: u8)
    requires
        side < 2,
    ensures
        r as int == king_dst_of(p, side as int),
{
    match p {
        Player::White => if side == 0 { 20 } else { 16 },
        Player::Black => if side == 0 { 128 } else { 124 },
    }
}

/// Rook destination square for castling.
pub fn castling_rook_dst(p: Player, side: usize) -> (r: u8)
    requires
        side < 2,
    ensures
        r as int == rook_dst_of(p, side as int),
{
    match p {
        Player::White => if side == 0 { 19 } else { 17 },
        Player::Black => if side == 0 { 127 } else { 125 },
    }
}

/// King starting square per player.
pub fn king_start(p: Player) -> (r: u8)
    ensures
        r as int == king_start_of(p),
{
    match p {
        Player::White => WHITE_KING_START,
        Player::Black => BLACK_KING_START,
    }
}

/// Rank display characters: `1`..`9`, then `T`, `E`, `W` for ranks 10-12.
pub open spec fn rank_display_of(i: int) -> char {
    if i < 9 {
        (i + '1' as int) as char
    } else if i == 9 {
        'T'
    } else if i == 10 {
        'E'
    } else {
        'W'
    }
}

/// The display character of rank index `i`.
pub fn rank_display(i: u8) -> (r: char)
    requires
        i < 12,
    ensures
        r == rank_display_of(i as int),
{
    if i < 9 {
        (49u8 + i) as char
    } else if i == 9 {
        'T'
    } else if i == 10 {
        'E'
    } else {
        'W'
    }
}

/// The square index shown at display position `k` (top rank first, left to right).
pub open spec fn display_square(k: int) -> int {
    (11 - k / 12) * 12 + k % 12
}

/// Display order for squares (top-to-bottom, left-to-right).
pub fn sq_display_order() -> (r: Vec<u8>)
    ensures
        r@.len() == 144,
        forall|k: int| 0 <= k < 144 ==> #[trigger] r@[k] as int == display_square(k),
{
    let mut order: Vec<u8> = Vec::new();
    let mut rank: u8 = 12;
    while rank > 0
        invariant
            rank <= 12,
            order@.len() == (12 - rank) * 12,
            forall|k: int| 0 <= k < order@.len() ==> #[trigger] order@[k] as int == display_square(k),
        decreases rank,
    {
        rank -= 1;
        let mut file: u8 = 0;
        while file < 12
            invariant
                rank < 12,
                file <= 12,
                order@.len() == (11 - rank) * 12 + file,
                forall|k: int| 0 <= k < order@.len() ==> #[trigger] order@[k] as int == display_square(k),
            decreases 12 - file,
        {
            order.push(rank * 12 + file);
            proof {
                let k = (11 - rank) * 12 + file;
                assert(k / 12 == 11 - rank) by (nonlinear_arith)
                    requires k == (11 - rank) * 12 + file, file < 12, rank < 12;
                assert(k % 12 == file) by (nonlinear_arith)
                    requires k == (11 - rank) * 12 + file, file < 12, rank < 12;
            }
            file += 1;
        }
    }
    order
}

/// Knight move offsets for a 12-wide board.
pub open spec fn knight_offset_of(i: int) -> int {
    if i == 0 { 25 } else if i == 1 { 23 } else if i == 2 { 14 } else if i == 3 { 10 }
    else if i == 4 { -23 } else if i == 5 { -25 } else if i == 6 { -10 } else { -14 }
}

/// The `i`-th knight offset.
pub fn knight_offset(i: usize) -> (r: i16)
    requires
        i < 8,
    ensures
        r as int == knight_offset_of(i as int),
{
    match i {
        0 => 2 * NORTH + EAST,
        1 => 2 * NORTH + WEST,
        2 => NORTH + 2 * EAST,
        3 => NORTH + 2 * WEST,
        4 => 2 * SOUTH + EAST,
        5 => 2 * SOUTH + WEST,
        6 => SOUTH + 2 * EAST,
        _ => SOUTH + 2 * WEST,
    }
}

/// All 8 ray directions: N, S, E, W, NE, NW, SE, SW.
pub open spec fn dir_of(i: int) -> int {
    if i == 0 { 12 } else if i == 1 { -12 } else if i == 2 { 1 } else if i == 3 { -1 }
    else if i == 4 { 13 } else if i == 5 { 11 } else if i == 6 { -11 } else { -13 }
}

/// The `i`-th of the eight directions (the first four orthogonal, the last
/// four diagonal). King offsets are the same eight values.
pub fn direction(i: usize) -> (r: i16)
    requires
        i < 8,
    ensures
        r as int == dir_of(i as int),
{
    match i {
        0 => NORTH,
        1 => SOUTH,
        2 => EAST,
        3 => WEST,
        4 => NORTH_EAST,
        5 => NORTH_WEST,
        6 => SOUTH_EAST,
        _ => SOUTH_WEST,
    }
}

} // verus!
