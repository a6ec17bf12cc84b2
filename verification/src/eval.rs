//! Static-evaluation arithmetic shared by every HyperChess evaluator.
//!
//! All values are from White's perspective; callers mirror the rank for
//! Black. Piece types are the `PieceType` discriminants: 0=None 1=P 2=N 3=B
//! 4=R 5=Q 6=K 7=E 8=H 9=All.

use vstd::prelude::*;

verus! {

/// Maximum phase weight present in the starting position
/// (4·N + 4·B + 4·R·2 + 2·Q·4 + 4·E·3 + 4·H·2 = 44).
pub const TOTAL_PHASE: i32 = 44;

/// Absolute value.
pub open spec fn abs_int(x: int) -> int {
    if x < 0 {
        -x
    } else {
        x
    }
}

/// Integer division rounding toward zero (Rust's `/`) by a positive divisor.
pub open spec fn trunc_div(a: int, d: int) -> int {
    if a >= 0 {
        a / d
    } else {
        -((-a) / d)
    }
}

/// `x` is an `i32` value.
pub open spec fn fits_i32(x: int) -> bool {
    i32::MIN <= x <= i32::MAX
}

/// The center bonus of `(rank, file)` is computed without overflow: the
/// doubled coordinates, their distances from the middle and the result all
/// fit in an `i32` (an absolute value of `i32::MIN` does not).
pub open spec fn center_ok(rank: int, file: int) -> bool {
    &&& fits_i32(file * 2)
    &&& fits_i32(rank * 2)
    &&& i32::MIN < file * 2 - 11 <= i32::MAX
    &&& i32::MIN < rank * 2 - 11 <= i32::MAX
    &&& fits_i32(22 - abs_int(file * 2 - 11))
    &&& fits_i32(center_bonus_spec(rank, file))
}

/// The king safety score of `(rank, file)` is computed without overflow.
pub open spec fn king_ok(rank: int, file: int) -> bool {
    (rank > 2 ==> fits_i32(-10 * rank)) && fits_i32(king_safety_spec(rank, file))
}

/// The center bonus: 22 less the distances of rank and file from the
/// board's middle line, each measured in half-squares.
pub open spec fn center_bonus_spec(rank: int, file: int) -> int {
    22 - abs_int(file * 2 - 11) - abs_int(rank * 2 - 11)
}

/// Center proximity bonus: 20 at the four central squares, decreasing to 0
/// at the corners of the 12×12 board.
pub fn center_bonus(rank: i32, file: i32) -> (r: i32)
    requires
        center_ok(rank as int, file as int),
    ensures
        r == center_bonus_spec(rank as int, file as int),
{
    let df = file * 2 - 11;
    let cf = if df < 0 {
        -df
    } else {
        df
    };
    let dr = rank * 2 - 11;
    let cr = if dr < 0 {
        -dr
    } else {
        dr
    };
    22 - cf - cr
}

/// The rook file bonus: 5 on the four central files.
pub open spec fn fifth_file_bonus_spec(file: int) -> int {
    if 4 <= file <= 7 {
        5
    } else {
        0
    }
}

/// Small bonus for rooks on the four central files (e–h, indices 4–7).
pub fn fifth_file_bonus(file: i32) -> (r: i32)
    ensures
        r == fifth_file_bonus_spec(file as int),
{
    if 4 <= file && file <= 7 {
        5
    } else {
        0
    }
}

/// The king placement score: 20 on the two back ranks, 10 on the third,
/// −10 per rank beyond; plus 10 on the three outer files of either side,
/// −5 in between.
pub open spec fn king_safety_spec(rank: int, file: int) -> int {
    (if rank <= 1 {
        20
    } else if rank <= 2 {
        10
    } else {
        -10 * rank
    }) + (if file <= 2 || file >= 9 {
        10
    } else {
        -5
    })
}

/// King placement score (middlegame): rewards staying on the back ranks and
/// near the corners, penalises wandering up the board.
pub fn king_safety_score(rank: i32, file: i32) -> (r: i32)
    requires
        king_ok(rank as int, file as int),
    ensures
        r == king_safety_spec(rank as int, file as int),
{
    let back_rank_bonus = if rank <= 1 {
        20
    } else if rank <= 2 {
        10
    } else {
        -10 * rank
    };
    let corner_bonus = if file <= 2 || file >= 9 {
        10
    } else {
        -5
    };
    back_rank_bonus + corner_bonus
}

/// The piece-square `(mg, eg)` bonus of a piece type at `(rank, file)`.
pub open spec fn raw_psqt_spec(piece_type: int, rank: int, file: int) -> (int, int) {
    let cb = center_bonus_spec(rank, file);
    if piece_type == 1 {
        (trunc_div(cb, 2) + rank * 5, rank * 5 + 10)
    } else if piece_type == 2 {
        (cb * 2, cb)
    } else if piece_type == 3 {
        (cb + 5, cb)
    } else if piece_type == 4 {
        (fifth_file_bonus_spec(file) + if rank == 9 {
            10int
        } else {
            0int
        }, trunc_div(cb, 2))
    } else if piece_type == 5 {
        (cb, trunc_div(cb, 2))
    } else if piece_type == 6 {
        (king_safety_spec(rank, file), cb * 2)
    } else if piece_type == 7 {
        (cb + 3, cb)
    } else if piece_type == 8 {
        (cb + 2, cb)
    } else {
        (0, 0)
    }
}

/// The piece-square bonus of a piece type at `(rank, file)` is computed
/// without overflow.
pub open spec fn psqt_ok(piece_type: int, rank: int, file: int) -> bool {
    let cb = center_bonus_spec(rank, file);
    &&& center_ok(rank, file)
    &&& piece_type == 1 ==> fits_i32(rank * 5) && fits_i32(rank * 5 + 10) && fits_i32(
        trunc_div(cb, 2) + rank * 5,
    )
    &&& piece_type == 2 || piece_type == 6 ==> fits_i32(cb * 2)
    &&& piece_type == 6 ==> king_ok(rank, file)
}

/// Halves toward zero.
fn half(x: i32) -> (r: i32)
    ensures
        r == trunc_div(x as int, 2),
{
    if x >= 0 {
        x / 2
    } else {
        -((-(x as i64) / 2) as i32)
    }
}

/// Piece-square `(mg, eg)` bonus for a piece type at `(rank, file)` from
/// White's perspective. `rank`/`file` are 0-based; Black callers pass the
/// mirrored rank.
pub fn raw_psqt(piece_type: i32, rank: i32, file: i32) -> (r: (i32, i32))
    requires
        psqt_ok(piece_type as int, rank as int, file as int),
    ensures
        r.0 == raw_psqt_spec(piece_type as int, rank as int, file as int).0,
        r.1 == raw_psqt_spec(piece_type as int, rank as int, file as int).1,
{
    let cb = center_bonus(rank, file);
    if piece_type == 1 {
        let adv = rank * 5;
        (half(cb) + adv, adv + 10)
    } else if piece_type == 2 {
        (cb * 2, cb)
    } else if piece_type == 3 {
        (cb + 5, cb)
    } else if piece_type == 4 {
        let seventh = if rank == 9 {
            10
        } else {
            0
        };
        (fifth_file_bonus(file) + seventh, half(cb))
    } else if piece_type == 5 {
        (cb, half(cb))
    } else if piece_type == 6 {
        (king_safety_score(rank, file), cb * 2)
    } else if piece_type == 7 {
        (cb + 3, cb)
    } else if piece_type == 8 {
        (cb + 2, cb)
    } else {
        (0, 0)
    }
}

/// The blended phase of a summed phase weight: the weight present, capped
/// at the total, scaled to 0..256 with rounding.
pub open spec fn normalize_phase_spec(w: int) -> int {
    let phase = if TOTAL_PHASE - w < 0 {
        0
    } else {
        TOTAL_PHASE - w
    };
    trunc_div((TOTAL_PHASE - phase) * 256 + TOTAL_PHASE / 2, TOTAL_PHASE as int)
}

/// Convert a summed phase weight of the non-pawn material present on the
/// board into a blended phase in `[0, 256]` (256 = pure middlegame, 0 =
/// pure endgame).
pub fn normalize_phase(present_weight_sum: i32) -> (r: i32)
    requires
        present_weight_sum >= -0x80_0000,
    ensures
        r == normalize_phase_spec(present_weight_sum as int),
{
    let p = TOTAL_PHASE - present_weight_sum;
    let phase = if p < 0 {
        0
    } else {
        p
    };
    let num = (TOTAL_PHASE - phase) * 256 + TOTAL_PHASE / 2;
    if num >= 0 {
        num / TOTAL_PHASE
    } else {
        -((-num) / TOTAL_PHASE)
    }
}

/// The blend of a middlegame and an endgame score by `phase`, before the
/// final cast: one rounded-toward-zero division by 256.
pub open spec fn blend_spec(mg: int, eg: int, phase: int) -> int {
    trunc_div(mg * phase + eg * (256 - phase), 256)
}

/// Blend middlegame and endgame scores by `phase` (256 = MG, 0 = EG) using
/// a single rounded division; the result is cast to `i32` as is.
pub fn blend(mg: i32, eg: i32, phase: i32) -> (r: i32)
    requires
        i64::MIN <= mg * phase + eg * (256 - phase) <= i64::MAX,
    ensures
        r == blend_spec(mg as int, eg as int, phase as int) as i32,
{
    assert(-0x4000_0080_0000_0000 <= mg * phase <= 0x4000_0080_0000_0000) by (nonlinear_arith)
        requires
            i32::MIN <= mg <= i32::MAX,
            i32::MIN <= phase <= i32::MAX,
    ;
    assert(-0x4000_0080_0000_0000 <= eg * (256 - phase) <= 0x4000_0080_0000_0000) by (nonlinear_arith)
        requires
            i32::MIN <= eg <= i32::MAX,
            i32::MIN + 256 <= 256 - phase <= i32::MAX + 257,
    ;
    let a = mg as i64 * phase as i64;
    let b = eg as i64 * (256 - phase as i64);
    let sum = a + b;
    let q = if sum >= 0 {
        sum / 256
    } else {
        -((-(sum as i128) / 256) as i64)
    };
    #[verifier::truncate]
    (q as i32)
}

/// The piece-square bonuses of the piece kinds (1 pawn, 2 knight, 3 bishop,
/// 4 rook, 5 queen, 6 king, 7 eagle, 8 hawk), by the center bonus `cb` of
/// the square (the rook's middlegame bonus is 5 on the central files plus 10
/// on the seventh rank, the king's its back-rank and corner score): the knight, bishop, eagle and hawk score the center bonus in
/// the endgame (the king twice it, the queen and rook half of it); in the
/// middlegame the knight scores it twice, the bishop, eagle and hawk score
/// it plus 5, 3 and 2, the queen scores it once; a pawn scores its
/// advancement; any other kind scores nothing.
pub proof fn lemma_psqt_by_kind(piece_type: int, rank: int, file: int)
    ensures
        ({
            let cb = center_bonus_spec(rank, file);
            let r = raw_psqt_spec(piece_type, rank, file);
            &&& piece_type == 1 ==> r == (trunc_div(cb, 2) + 5 * rank, 5 * rank + 10)
            &&& piece_type == 2 ==> r == (2 * cb, cb)
            &&& piece_type == 3 ==> r == (cb + 5, cb)
            &&& piece_type == 4 ==> r == ((if 4 <= file <= 7 { 5int } else { 0int }) + (if rank == 9 {
                10int
            } else {
                0int
            }), trunc_div(cb, 2))
            &&& piece_type == 5 ==> r == (cb, trunc_div(cb, 2))
            &&& piece_type == 6 ==> r == ((if rank <= 1 {
                20
            } else if rank <= 2 {
                10
            } else {
                -10 * rank
            }) + (if file <= 2 || file >= 9 {
                10int
            } else {
                -5int
            }), 2 * cb)
            &&& piece_type == 7 ==> r == (cb + 3, cb)
            &&& piece_type == 8 ==> r == (cb + 2, cb)
            &&& (piece_type < 1 || piece_type > 8) ==> r == (0int, 0int)
        }),
        raw_psqt_spec(8, rank, file).1 == raw_psqt_spec(3, rank, file).1,
        raw_psqt_spec(8, rank, file).0 + 3 == raw_psqt_spec(3, rank, file).0,
        raw_psqt_spec(7, rank, file).1 == raw_psqt_spec(3, rank, file).1,
        raw_psqt_spec(7, rank, file).0 + 2 == raw_psqt_spec(3, rank, file).0,
        raw_psqt_spec(2, rank, file).1 == raw_psqt_spec(8, rank, file).1,
{
}

/// The phase of a summed phase weight: 256 (pure middlegame) once the
/// weight reaches the total of 44, otherwise the weight scaled to 0..256
/// with rounding, `(w * 256 + 22) / 44` (toward zero); so it never exceeds
/// 256, is 0 at weight 0, and grows with the weight.
pub proof fn lemma_phase_scale(w: int, w2: int)
    ensures
        w >= 44 ==> normalize_phase_spec(w) == 256,
        w <= 44 ==> normalize_phase_spec(w) == trunc_div(w * 256 + 22, 44),
        0 <= w ==> 0 <= normalize_phase_spec(w) <= 256,
        0 <= w <= w2 ==> normalize_phase_spec(w) <= normalize_phase_spec(w2),
{
    if 0 <= w <= w2 {
        if w2 <= 44 {
            assert((w * 256 + 22) / 44 <= (w2 * 256 + 22) / 44) by (nonlinear_arith)
                requires
                    0 <= w <= w2,
            {
                vstd::arithmetic::div_mod::lemma_div_is_ordered(w * 256 + 22, w2 * 256 + 22, 44);
            }
        }
        if w <= 44 {
            assert((w * 256 + 22) / 44 <= 256) by (nonlinear_arith)
                requires
                    0 <= w <= 44,
            {
                vstd::arithmetic::div_mod::lemma_div_is_ordered(w * 256 + 22, 44int * 256 + 22, 44);
            }
            assert(0 <= (w * 256 + 22) / 44) by (nonlinear_arith)
                requires
                    0 <= w,
            {
            }
        }
    }
}

/// The blend gives the middlegame score at phase 256, the endgame score at
/// phase 0, and a score both phases agree on at every phase.
pub proof fn lemma_blend_ends(mg: int, eg: int, phase: int)
    ensures
        blend_spec(mg, eg, 256) == mg,
        blend_spec(mg, eg, 0) == eg,
        blend_spec(mg, mg, phase) == mg,
{
    assert(mg * 256 + eg * (256 - 256) == mg * 256) by (nonlinear_arith);
    assert(mg * 0 + eg * (256 - 0) == eg * 256) by (nonlinear_arith);
    assert(mg * phase + mg * (256 - phase) == mg * 256) by (nonlinear_arith);
    assert((mg * 256) / 256 == mg) by (nonlinear_arith);
    assert((eg * 256) / 256 == eg) by (nonlinear_arith);
    if mg < 0 {
        assert((-(mg * 256)) / 256 == -mg) by (nonlinear_arith);
    }
    if eg < 0 {
        assert((-(eg * 256)) / 256 == -eg) by (nonlinear_arith);
    }
}

} // verus!
