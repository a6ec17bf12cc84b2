//! Piece-square tables for 12x12 HyperChess.
//!
//! Values are from White's perspective; for Black the rank is mirrored.
//! They are computed on demand from the evaluator's piece-square formula.

use vstd::prelude::*;

use crate::core_types::piece_type::{pt_index, PieceType};
use crate::core_types::player::Player;
use crate::core_types::score::Score;
use crate::core_types::sq::{sq_file, sq_rank, SQ};
use crate::eval::{raw_psqt, raw_psqt_spec};

verus! {

/// The rank a player's table reads for square `s`: its own for White, the
/// mirrored one for Black.
pub open spec fn table_rank(s: int, player: Player) -> int {
    match player {
        Player::White => sq_rank(s),
        Player::Black => 11 - sq_rank(s),
    }
}

/// The piece-square score of a kind on square `s` for `player`: the
/// evaluator's `(mg, eg)` pair for the real kinds, zero otherwise.
pub open spec fn psqt_score(piece_type: PieceType, s: int, player: Player) -> (int, int) {
    let t = pt_index(piece_type);
    if 1 <= t <= 8 {
        raw_psqt_spec(t, table_rank(s, player), sq_file(s))
    } else {
        (0, 0)
    }
}

/// Nothing to prepare: piece-square values are computed on demand.
pub fn init_psqt() {
}

/// Returns the PSQT score for a piece on a square (from White's perspective).
/// For Black, mirror the square.
pub fn psqt_value(piece_type: PieceType, sq: SQ, player: Player) -> (r: Score)
    requires
        sq.0 < 144,
    ensures
        r.mg == psqt_score(piece_type, sq.0 as int, player).0,
        r.eg == psqt_score(piece_type, sq.0 as int, player).1,
{
    let rank = match player {
        Player::White => sq.rank_idx(),
        Player::Black => 11 - sq.rank_idx(),
    };
    let file = sq.file_idx();
    let t = piece_type.index();
    if 1 <= t && t <= 8 {
        let (mg, eg) = raw_psqt(t as i32, rank as i32, file as i32);
        Score::new(mg, eg)
    } else {
        Score::new(0, 0)
    }
}

} // verus!
