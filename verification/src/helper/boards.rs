//! Attack sets of the non-sliding pieces (knight, king, pawn), the shared
//! ray walker used by the sliding and jumping pieces, and the distance, line
//! and between relations of two squares.
//!
//! Every set is computed on demand from file and rank coordinates; each is
//! stated exactly as a spec function of the squares involved.

use vstd::prelude::*;

use crate::core_types::bitboard::BitBoard;
use crate::core_types::player::Player;
use crate::core_types::sq::{abs_diff, sq_distance, sq_file, sq_rank, SQ};

verus! {

/// File difference from `s` to `t`.
pub open spec fn fdiff(s: int, t: int) -> int {
    sq_file(t) - sq_file(s)
}

/// Rank difference from `s` to `t`.
pub open spec fn rdiff(s: int, t: int) -> int {
    sq_rank(t) - sq_rank(s)
}

/// `k` steps in direction `d` (one of -1, 0, 1).
pub open spec fn step(k: int, d: int) -> int {
    if d > 0 {
        k
    } else if d < 0 {
        -k
    } else {
        0
    }
}

/// The sign of `x`.
pub open spec fn sign(x: int) -> int {
    if x > 0 {
        1
    } else if x < 0 {
        -1
    } else {
        0
    }
}

/// The larger of two integers.
pub open spec fn max2(a: int, b: int) -> int {
    if a >= b {
        a
    } else {
        b
    }
}

/// The square `k` steps from `s` in direction `(df, dr)`.
pub open spec fn ray_point(s: int, df: int, dr: int, k: int) -> int {
    (sq_rank(s) + step(k, dr)) * 12 + sq_file(s) + step(k, df)
}

/// No square strictly before step `k` of the ray is occupied.
pub open spec fn ray_clear(s: int, df: int, dr: int, occ: BitBoard, k: int) -> bool {
    forall|j: int| 1 <= j < k ==> !#[trigger] occ.has(ray_point(s, df, dr, j))
}

/// `t` lies on the ray from `s` in direction `(df, dr)`, between 1 and
/// `limit` steps away; when `blocking`, no occupied square lies before it.
pub open spec fn ray_reach(
    s: int,
    t: int,
    df: int,
    dr: int,
    occ: BitBoard,
    limit: int,
    blocking: bool,
) -> bool {
    let k = max2(abs_diff(sq_file(s), sq_file(t)), abs_diff(sq_rank(s), sq_rank(t)));
    &&& 0 <= t < 144
    &&& 1 <= k <= limit
    &&& fdiff(s, t) == step(k, df)
    &&& rdiff(s, t) == step(k, dr)
    &&& blocking ==> ray_clear(s, df, dr, occ, k)
}

/// A knight on `s` attacks `t`.
pub open spec fn knight_target(s: int, t: int) -> bool {
    let fd = abs_diff(sq_file(s), sq_file(t));
    let rd = abs_diff(sq_rank(s), sq_rank(t));
    0 <= t < 144 && ((fd == 1 && rd == 2) || (fd == 2 && rd == 1))
}

/// A king on `s` attacks `t`.
pub open spec fn king_target(s: int, t: int) -> bool {
    0 <= t < 144 && t != s && abs_diff(sq_file(s), sq_file(t)) <= 1 && abs_diff(
        sq_rank(s),
        sq_rank(t),
    ) <= 1
}

/// A pawn of `p` on `s` attacks `t` (one file aside, one rank forward).
pub open spec fn pawn_target(p: Player, s: int, t: int) -> bool {
    0 <= t < 144 && abs_diff(sq_file(s), sq_file(t)) == 1 && rdiff(s, t) == (if p
        == Player::White {
        1int
    } else {
        -1int
    })
}

/// The two squares are distinct and share a rank, a file or a diagonal.
pub open spec fn aligned_pair(s1: int, s2: int) -> bool {
    let fd = fdiff(s1, s2);
    let rd = rdiff(s1, s2);
    s1 != s2 && (fd == 0 || rd == 0 || abs_diff(fd, 0) == abs_diff(rd, 0))
}

/// `t` is on the full line through two aligned squares.
pub open spec fn line_has(s1: int, s2: int, t: int) -> bool {
    let df = sign(fdiff(s1, s2));
    let dr = sign(rdiff(s1, s2));
    aligned_pair(s1, s2) && (t == s1 || ray_reach(s1, t, df, dr, BitBoard(0, 0, 0), 11, false)
        || ray_reach(s1, t, -df, -dr, BitBoard(0, 0, 0), 11, false))
}

/// `t` lies strictly between two aligned squares.
pub open spec fn between_has(s1: int, s2: int, t: int) -> bool {
    let df = sign(fdiff(s1, s2));
    let dr = sign(rdiff(s1, s2));
    aligned_pair(s1, s2) && ray_reach(s1, t, df, dr, BitBoard(0, 0, 0), sq_distance(s1, s2) - 1, false)
}

/// A ray read backwards: `t` is on the ray from `s` exactly when `s` is on
/// the opposite ray from `t`, with the same squares strictly between.
pub proof fn lemma_ray_sym(
    s: int,
    t: int,
    df: int,
    dr: int,
    occ: BitBoard,
    limit: int,
    blocking: bool,
)
    requires
        0 <= s < 144,
        0 <= t < 144,
        -1 <= df <= 1,
        -1 <= dr <= 1,
    ensures
        ray_reach(s, t, df, dr, occ, limit, blocking) == ray_reach(t, s, -df, -dr, occ, limit, blocking),
{
    {
        let k = max2(abs_diff(sq_file(s), sq_file(t)), abs_diff(sq_rank(s), sq_rank(t)));
        if fdiff(s, t) == step(k, df) && rdiff(s, t) == step(k, dr) {
            lemma_sq_coords(s);
            lemma_sq_coords(t);
            assert forall|j: int| 1 <= j < k implies #[trigger] ray_point(s, df, dr, j) == ray_point(
                t,
                -df,
                -dr,
                k - j,
            ) by {}
            if ray_clear(s, df, dr, occ, k) {
                assert forall|j: int| 1 <= j < k implies !#[trigger] occ.has(ray_point(t, -df, -dr, j)) by {
                    assert(ray_point(t, -df, -dr, j) == ray_point(s, df, dr, k - j));
                }
            }
            if ray_clear(t, -df, -dr, occ, k) {
                assert forall|j: int| 1 <= j < k implies !#[trigger] occ.has(ray_point(s, df, dr, j)) by {
                    assert(ray_point(s, df, dr, j) == ray_point(t, -df, -dr, k - j));
                }
            }
        }
    }
}

/// Squares strictly before the target of a ray are not the target.
pub proof fn lemma_ray_points_before(s: int, t: int, df: int, dr: int, j: int)
    requires
        0 <= s < 144,
        0 <= t < 144,
        -1 <= df <= 1,
        -1 <= dr <= 1,
        df != 0 || dr != 0,
        fdiff(s, t) == step(max2(abs_diff(sq_file(s), sq_file(t)), abs_diff(sq_rank(s), sq_rank(t))), df),
        rdiff(s, t) == step(max2(abs_diff(sq_file(s), sq_file(t)), abs_diff(sq_rank(s), sq_rank(t))), dr),
        1 <= j < max2(abs_diff(sq_file(s), sq_file(t)), abs_diff(sq_rank(s), sq_rank(t))),
    ensures
        ray_point(s, df, dr, j) != t,
{
    lemma_sq_coords(s);
    lemma_sq_coords(t);
    let k = max2(abs_diff(sq_file(s), sq_file(t)), abs_diff(sq_rank(s), sq_rank(t)));
    let f = sq_file(s) + step(j, df);
    let r = sq_rank(s) + step(j, dr);
    assert(0 <= f < 12 && 0 <= r < 12);
    lemma_coords_sq(f, r);
}

/// Occupancy only matters strictly between the ends of a ray.
pub proof fn lemma_ray_congruent(
    s: int,
    t: int,
    df: int,
    dr: int,
    occ1: BitBoard,
    occ2: BitBoard,
    limit: int,
    blocking: bool,
)
    requires
        0 <= s < 144,
        -1 <= df <= 1,
        -1 <= dr <= 1,
        df != 0 || dr != 0,
        forall|q: int| q != t ==> occ1.has(q) == occ2.has(q),
    ensures
        ray_reach(s, t, df, dr, occ1, limit, blocking) == ray_reach(s, t, df, dr, occ2, limit, blocking),
{
    if 0 <= t < 144 {
        let k = max2(abs_diff(sq_file(s), sq_file(t)), abs_diff(sq_rank(s), sq_rank(t)));
        if fdiff(s, t) == step(k, df) && rdiff(s, t) == step(k, dr) {
            assert forall|j: int| 1 <= j < k implies occ1.has(#[trigger] ray_point(s, df, dr, j)) == occ2.has(
                ray_point(s, df, dr, j),
            ) by {
                lemma_ray_points_before(s, t, df, dr, j);
            }
        }
    }
}

/// More occupied squares can only shorten a blocking ray.
pub proof fn lemma_ray_monotone(
    s: int,
    t: int,
    df: int,
    dr: int,
    occ1: BitBoard,
    occ2: BitBoard,
    limit: int,
    blocking: bool,
)
    requires
        forall|q: int| occ1.has(q) ==> occ2.has(q),
    ensures
        ray_reach(s, t, df, dr, occ2, limit, blocking) ==> ray_reach(s, t, df, dr, occ1, limit, blocking),
{
}

/// Relates a square index to its file and rank.
pub proof fn lemma_sq_coords(t: int)
    requires
        0 <= t,
    ensures
        t == sq_rank(t) * 12 + sq_file(t),
        0 <= sq_file(t) < 12,
        0 <= sq_rank(t),
        t < 144 ==> sq_rank(t) < 12,
{
}

/// The square with coordinates `(f, r)` has that file and rank.
pub proof fn lemma_coords_sq(f: int, r: int)
    requires
        0 <= f < 12,
        0 <= r < 12,
    ensures
        sq_file(r * 12 + f) == f,
        sq_rank(r * 12 + f) == r,
        0 <= r * 12 + f < 144,
{
}

/// The square at `(f, r)` is `t` exactly when `t` has that file and rank.
proof fn lemma_at(f: int, r: int, t: int)
    requires
        0 <= t < 144,
    ensures
        (0 <= f < 12 && 0 <= r < 12 && t == r * 12 + f) == (sq_file(t) == f && sq_rank(t) == r),
{
}

/// Adds the square at `(f, r)` to `bb` when it is on the board.
fn mark(bb: &mut BitBoard, f: i32, r: i32)
    requires
        old(bb).valid(),
    ensures
        final(bb).valid(),
        forall|t: int|
            #[trigger] final(bb).has(t) == (old(bb).has(t) || (0 <= f < 12 && 0 <= r < 12 && t == r
                * 12 + f)),
{
    if 0 <= f && f < 12 && 0 <= r && r < 12 {
        bb.set_bit(SQ((r * 12 + f) as u8));
    }
}

/// Nothing to prepare: attack sets are computed on demand.
pub fn init_boards() {
}

/// Returns knight attacks from a square.
pub fn knight_attacks(sq: SQ) -> (r: BitBoard)
    requires
        sq.0 < 144,
    ensures
        r.valid(),
        forall|t: int| #[trigger] r.has(t) == knight_target(sq.0 as int, t),
{
    let f = sq.file_idx() as i32;
    let k = sq.rank_idx() as i32;
    let mut bb = BitBoard::empty();
    mark(&mut bb, f + 1, k + 2);
    mark(&mut bb, f - 1, k + 2);
    mark(&mut bb, f + 2, k + 1);
    mark(&mut bb, f - 2, k + 1);
    mark(&mut bb, f + 2, k - 1);
    mark(&mut bb, f - 2, k - 1);
    mark(&mut bb, f + 1, k - 2);
    mark(&mut bb, f - 1, k - 2);
    assert forall|t: int| #[trigger] bb.has(t) == knight_target(sq.0 as int, t) by {
        if 0 <= t < 144 {
            lemma_at(f + 1, k + 2, t);
            lemma_at(f - 1, k + 2, t);
            lemma_at(f + 2, k + 1, t);
            lemma_at(f - 2, k + 1, t);
            lemma_at(f + 2, k - 1, t);
            lemma_at(f - 2, k - 1, t);
            lemma_at(f + 1, k - 2, t);
            lemma_at(f - 1, k - 2, t);
        }
    }
    bb
}

/// Returns king attacks from a square.
pub fn king_attacks(sq: SQ) -> (r: BitBoard)
    requires
        sq.0 < 144,
    ensures
        r.valid(),
        forall|t: int| #[trigger] r.has(t) == king_target(sq.0 as int, t),
{
    let f = sq.file_idx() as i32;
    let k = sq.rank_idx() as i32;
    let mut bb = BitBoard::empty();
    mark(&mut bb, f, k + 1);
    mark(&mut bb, f, k - 1);
    mark(&mut bb, f + 1, k);
    mark(&mut bb, f - 1, k);
    mark(&mut bb, f + 1, k + 1);
    mark(&mut bb, f - 1, k + 1);
    mark(&mut bb, f + 1, k - 1);
    mark(&mut bb, f - 1, k - 1);
    assert forall|t: int| #[trigger] bb.has(t) == king_target(sq.0 as int, t) by {
        if 0 <= t < 144 {
            lemma_at(f as int, k + 1, t);
            lemma_at(f as int, k - 1, t);
            lemma_at(f + 1, k as int, t);
            lemma_at(f - 1, k as int, t);
            lemma_at(f + 1, k + 1, t);
            lemma_at(f - 1, k + 1, t);
            lemma_at(f + 1, k - 1, t);
            lemma_at(f - 1, k - 1, t);
            lemma_sq_coords(t);
            lemma_sq_coords(sq.0 as int);
        }
    }
    bb
}

/// Returns pawn attacks for a player from a square.
pub fn pawn_attacks(player: Player, sq: SQ) -> (r: BitBoard)
    requires
        sq.0 < 144,
    ensures
        r.valid(),
        forall|t: int| #[trigger] r.has(t) == pawn_target(player, sq.0 as int, t),
{
    let f = sq.file_idx() as i32;
    let k = sq.rank_idx() as i32;
    let dr: i32 = match player {
        Player::White => 1,
        Player::Black => -1,
    };
    let mut bb = BitBoard::empty();
    mark(&mut bb, f + 1, k + dr);
    mark(&mut bb, f - 1, k + dr);
    assert forall|t: int| #[trigger] bb.has(t) == pawn_target(player, sq.0 as int, t) by {
        if 0 <= t < 144 {
            lemma_at(f + 1, k + dr, t);
            lemma_at(f - 1, k + dr, t);
        }
    }
    bb
}

/// The squares along one ray from `sq` in direction `(df, dr)`, at most
/// `limit` steps; when `blocking`, the walk stops on (and includes) the
/// first occupied square.
pub fn ray_attacks(sq: SQ, df: i32, dr: i32, occ: BitBoard, limit: i32, blocking: bool) -> (r:
    BitBoard)
    requires
        sq.0 < 144,
        -1 <= df <= 1,
        -1 <= dr <= 1,
        df != 0 || dr != 0,
        0 <= limit <= 12,
    ensures
        r.valid(),
        forall|t: int|
            #[trigger] r.has(t) == ray_reach(sq.0 as int, t, df as int, dr as int, occ, limit as int, blocking),
{
    let ghost s = sq.0 as int;
    let f0 = sq.file_idx() as i32;
    let r0 = sq.rank_idx() as i32;
    let mut cf = f0;
    let mut cr = r0;
    let mut k: i32 = 0;
    let mut done = false;
    let mut bb = BitBoard::empty();
    proof {
        lemma_sq_coords(s);
    }
    while k < limit && !done
        invariant
            0 <= k <= limit <= 12,
            -1 <= df <= 1,
            -1 <= dr <= 1,
            df != 0 || dr != 0,
            0 <= s < 144,
            f0 == sq_file(s),
            r0 == sq_rank(s),
            cf == f0 + step(k as int, df as int),
            cr == r0 + step(k as int, dr as int),
            0 <= cf < 12,
            0 <= cr < 12,
            bb.valid(),
            blocking && !done ==> ray_clear(s, df as int, dr as int, occ, k + 1),
            blocking ==> ray_clear(s, df as int, dr as int, occ, k as int),
            !done ==> forall|t: int|
                #[trigger] bb.has(t) == ray_reach(s, t, df as int, dr as int, occ, k as int, false),
            done ==> forall|t: int|
                #[trigger] bb.has(t) == ray_reach(s, t, df as int, dr as int, occ, limit as int, blocking),
        decreases limit - k + (if done {
            0int
        } else {
            1int
        }),
    {
        let nf = cf + df;
        let nr = cr + dr;
        if !(0 <= nf && nf < 12 && 0 <= nr && nr < 12) {
            done = true;
            proof {
                assert forall|t: int|
                    #[trigger] bb.has(t) == ray_reach(s, t, df as int, dr as int, occ, limit as int, blocking) by {
                    if 0 <= t < 144 {
                        lemma_sq_coords(t);
                    }
                }
            }
        } else {
            let ghost old_bb = bb;
            bb.set_bit(SQ((nr * 12 + nf) as u8));
            k += 1;
            cf = nf;
            cr = nr;
            proof {
                lemma_coords_sq(nf as int, nr as int);
                assert(ray_point(s, df as int, dr as int, k as int) == nr * 12 + nf);
                assert forall|t: int|
                    #[trigger] bb.has(t) == ray_reach(s, t, df as int, dr as int, occ, k as int, false) by {
                    if 0 <= t < 144 {
                        lemma_sq_coords(t);
                    }
                    assert(old_bb.has(t) == ray_reach(s, t, df as int, dr as int, occ, (k - 1) as int, false));
                }
            }
            if blocking && occ.test_bit(SQ((nr * 12 + nf) as u8)) {
                done = true;
                proof {
                    assert forall|t: int|
                        #[trigger] bb.has(t) == ray_reach(s, t, df as int, dr as int, occ, limit as int, blocking) by {
                        if 0 <= t < 144 {
                            lemma_sq_coords(t);
                            let kt = max2(abs_diff(sq_file(s), sq_file(t)), abs_diff(sq_rank(s), sq_rank(t)));
                            if kt > k && fdiff(s, t) == step(kt, df as int) && rdiff(s, t) == step(kt, dr as int) {
                                assert(!ray_clear(s, df as int, dr as int, occ, kt)) by {
                                    assert(occ.has(ray_point(s, df as int, dr as int, k as int)));
                                }
                            }
                        }
                    }
                }
            } else {
                proof {
                    if blocking {
                        assert forall|j: int| 1 <= j < k + 1 implies !#[trigger] occ.has(
                            ray_point(s, df as int, dr as int, j),
                        ) by {
                            if j == k {
                            } else {
                                assert(j < k);
                            }
                        }
                    }
                }
            }
        }
    }
    if !done {
        proof {
            assert(k == limit);
            assert forall|t: int|
                #[trigger] bb.has(t) == ray_reach(s, t, df as int, dr as int, occ, limit as int, blocking) by {
            }
        }
    }
    bb
}

/// Returns the Chebyshev distance between two squares.
pub fn distance(sq1: SQ, sq2: SQ) -> (r: u8)
    requires
        sq1.0 < 144,
        sq2.0 < 144,
    ensures
        r as int == sq_distance(sq1.0 as int, sq2.0 as int),
{
    sq1.distance(sq2)
}

/// The direction `(df, dr)` from `sq1` toward an aligned `sq2`.
fn direction_toward(sq1: SQ, sq2: SQ) -> (r: (i32, i32))
    requires
        sq1.0 < 144,
        sq2.0 < 144,
    ensures
        r.0 == sign(fdiff(sq1.0 as int, sq2.0 as int)),
        r.1 == sign(rdiff(sq1.0 as int, sq2.0 as int)),
{
    let df = sq2.file_idx() as i32 - sq1.file_idx() as i32;
    let dr = sq2.rank_idx() as i32 - sq1.rank_idx() as i32;
    let sf = if df > 0 {
        1
    } else if df < 0 {
        -1
    } else {
        0
    };
    let sr = if dr > 0 {
        1
    } else if dr < 0 {
        -1
    } else {
        0
    };
    (sf, sr)
}

/// Whether two squares are distinct and share a rank, file or diagonal.
fn is_aligned_pair(sq1: SQ, sq2: SQ) -> (r: bool)
    requires
        sq1.0 < 144,
        sq2.0 < 144,
    ensures
        r == aligned_pair(sq1.0 as int, sq2.0 as int),
{
    let df = sq2.file_idx() as i32 - sq1.file_idx() as i32;
    let dr = sq2.rank_idx() as i32 - sq1.rank_idx() as i32;
    let adf = if df < 0 {
        -df
    } else {
        df
    };
    let adr = if dr < 0 {
        -dr
    } else {
        dr
    };
    sq1.0 != sq2.0 && (df == 0 || dr == 0 || adf == adr)
}

/// Returns the full line through two squares (empty if not aligned).
pub fn line(sq1: SQ, sq2: SQ) -> (r: BitBoard)
    requires
        sq1.0 < 144,
        sq2.0 < 144,
    ensures
        r.valid(),
        forall|t: int| #[trigger] r.has(t) == line_has(sq1.0 as int, sq2.0 as int, t),
{
    if !is_aligned_pair(sq1, sq2) {
        return BitBoard::empty();
    }
    let (df, dr) = direction_toward(sq1, sq2);
    let empty = BitBoard::empty();
    let fwd = ray_attacks(sq1, df, dr, empty, 11, false);
    let back = ray_attacks(sq1, -df, -dr, empty, 11, false);
    let r = sq1.to_bb().or_bb(fwd).or_bb(back);
    assert(empty == BitBoard(0, 0, 0));
    r
}

/// Returns the squares strictly between two squares (empty if not aligned).
pub fn between(sq1: SQ, sq2: SQ) -> (r: BitBoard)
    requires
        sq1.0 < 144,
        sq2.0 < 144,
    ensures
        r.valid(),
        forall|t: int| #[trigger] r.has(t) == between_has(sq1.0 as int, sq2.0 as int, t),
{
    if !is_aligned_pair(sq1, sq2) {
        return BitBoard::empty();
    }
    let (df, dr) = direction_toward(sq1, sq2);
    let n = sq1.distance(sq2) as i32;
    let empty = BitBoard::empty();
    assert(empty == BitBoard(0, 0, 0));
    ray_attacks(sq1, df, dr, empty, n - 1, false)
}

/// Returns whether `sq3` lies on the line through `sq1` and `sq2`.
pub fn aligned(sq1: SQ, sq2: SQ, sq3: SQ) -> (r: bool)
    requires
        sq1.0 < 144,
        sq2.0 < 144,
        sq3.0 < 144,
    ensures
        r == line_has(sq1.0 as int, sq2.0 as int, sq3.0 as int),
{
    let l = line(sq1, sq2);
    proof {
        if l.has(sq3.0 as int) {
            assert(exists|i: int| #[trigger] l.has(i));
        }
    }
    l.is_not_empty() && l.test_bit(sq3)
}

} // verus!
