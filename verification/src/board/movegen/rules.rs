//! The moves the rules give the side to move, as words: what
//! [`Board::generate_moves`](crate::board::Board::generate_moves) lists once
//! the moves that leave the mover's king attacked are dropped.

use vstd::prelude::*;

use crate::board::attacks::attacker_at;
use crate::board::castle_rights::{king_side_mask, queen_side_mask};
use crate::board::Board;
use crate::core_types::bitboard::BitBoard;
use crate::core_types::masks::{king_dst_of, king_start_of, rook_dst_of, rook_start_of};
use crate::core_types::piece::{owner_of, piece_of, type_of_piece, Piece};
use crate::board::move_apply::{ep_victim, is_castle_move, is_ep_move};
use crate::core_types::piece_move::{
    lemma_encode, encode_move, HyperMove, FLAG_CAPTURE, FLAG_DOUBLE_PAWN, FLAG_EP, FLAG_KING_CASTLE, FLAG_PROMO,
    FLAG_PROMO_CAPTURE, FLAG_QUEEN_CASTLE, FLAG_QUIET,
};
use crate::core_types::piece_type::{promo_type_of, pt_index, PieceType};
use crate::core_types::player::{opponent, pawn_push_of, Player};
use crate::core_types::sq::sq_rank;
use crate::helper::boards::{between_has, king_target, pawn_target};
use crate::helper::prelude::piece_reach;

verus! {

/// The rank a pawn of `p` may double-push from.
pub open spec fn pawn_start_rank_of(p: Player) -> int {
    match p {
        Player::White => 2,
        Player::Black => 9,
    }
}

/// The rank a pawn of `p` promotes on.
pub open spec fn promo_rank_of(p: Player) -> int {
    match p {
        Player::White => 11,
        Player::Black => 0,
    }
}

/// The kinds that move along their attack pattern: every piece but the
/// pawn and the king.
pub open spec fn is_pattern_kind(t: PieceType) -> bool {
    t == PieceType::N || t == PieceType::B || t == PieceType::R || t == PieceType::Q || t
        == PieceType::E || t == PieceType::H
}

/// `m` is the word of a move from `s` to `d` with flag `flag` and no
/// promotion.
pub open spec fn is_word(m: HyperMove, flag: u32, s: int, d: int) -> bool {
    m.bits() == encode_move(flag, s as u8, d as u8, 0)
}

/// The flag of a move onto `d`: a capture when `d` holds a piece.
pub open spec fn landing_flag(locs: Seq<Piece>, d: int) -> u32 {
    if locs[d] != Piece::Empty {
        FLAG_CAPTURE
    } else {
        FLAG_QUIET
    }
}

/// `m` promotes a pawn from `s` on `d` to one of the six promotion kinds.
pub open spec fn is_promotion_word(m: HyperMove, s: int, d: int, capture: bool) -> bool {
    exists|i: int|
        0 <= i < 6 && #[trigger] m.bits() == encode_move(
            if capture {
                FLAG_PROMO_CAPTURE
            } else {
                FLAG_PROMO
            },
            s as u8,
            d as u8,
            pt_index(promo_type_of(i)) as u32,
        )
}

/// A move of a knight, bishop, rook, queen, eagle or hawk of the side to
/// move to a square its pattern reaches that holds no piece of its own.
pub open spec fn piece_rule(b: Board, m: HyperMove) -> bool {
    let us = b.side();
    let locs = b.locs();
    let s = m.src_index();
    let d = m.dst_index();
    &&& 0 <= s < 144
    &&& 0 <= d < 144
    &&& owner_of(locs[s]) == Some(us)
    &&& is_pattern_kind(type_of_piece(locs[s]))
    &&& piece_reach(type_of_piece(locs[s]), s, d, b.occ())
    &&& owner_of(locs[d]) != Some(us)
    &&& is_word(m, landing_flag(locs, d), s, d)
}

/// A pawn push of one square onto an empty square, promoting on the last
/// rank.
pub open spec fn pawn_push_rule(b: Board, m: HyperMove, s: int, d: int) -> bool {
    let us = b.side();
    &&& d == s + pawn_push_of(us)
    &&& 0 <= d < 144
    &&& b.locs()[d] == Piece::Empty
    &&& if sq_rank(d) == promo_rank_of(us) {
        is_promotion_word(m, s, d, false)
    } else {
        is_word(m, FLAG_QUIET, s, d)
    }
}

/// A double push from the start rank over an empty square onto an empty
/// square.
pub open spec fn pawn_double_rule(b: Board, m: HyperMove, s: int, d: int) -> bool {
    let us = b.side();
    let mid = s + pawn_push_of(us);
    &&& sq_rank(s) == pawn_start_rank_of(us)
    &&& 0 <= mid < 144
    &&& b.locs()[mid] == Piece::Empty
    &&& sq_rank(mid) != promo_rank_of(us)
    &&& d == mid + pawn_push_of(us)
    &&& 0 <= d < 144
    &&& b.locs()[d] == Piece::Empty
    &&& is_word(m, FLAG_DOUBLE_PAWN, s, d)
}

/// A diagonal capture of a piece of the opponent, promoting on the last
/// rank.
pub open spec fn pawn_capture_rule(b: Board, m: HyperMove, s: int, d: int) -> bool {
    let us = b.side();
    &&& pawn_target(us, s, d)
    &&& owner_of(b.locs()[d]) == Some(opponent(us))
    &&& if sq_rank(d) == promo_rank_of(us) {
        is_promotion_word(m, s, d, true)
    } else {
        is_word(m, FLAG_CAPTURE, s, d)
    }
}

/// An en passant capture onto the empty en passant square, taking the
/// opponent's pawn behind it.
pub open spec fn pawn_ep_rule(b: Board, m: HyperMove, s: int, d: int) -> bool {
    let us = b.side();
    let e = b.st().ep_square.0 as int;
    let victim = e - pawn_push_of(us);
    &&& e < 144
    &&& d == e
    &&& pawn_target(us, s, e)
    &&& 0 <= victim < 144
    &&& b.locs()[e] == Piece::Empty
    &&& b.locs()[victim] == piece_of(opponent(us), PieceType::P)
    &&& is_word(m, FLAG_EP, s, e)
}

/// A move of a pawn of the side to move.
pub open spec fn pawn_rule(b: Board, m: HyperMove) -> bool {
    let s = m.src_index();
    let d = m.dst_index();
    &&& 0 <= s < 144
    &&& b.locs()[s] == piece_of(b.side(), PieceType::P)
    &&& {
        ||| pawn_push_rule(b, m, s, d)
        ||| pawn_double_rule(b, m, s, d)
        ||| pawn_capture_rule(b, m, s, d)
        ||| pawn_ep_rule(b, m, s, d)
    }
}

/// A step of the king of the side to move, from its tracked square, to a
/// square that holds no piece of its own.
pub open spec fn king_rule(b: Board, m: HyperMove) -> bool {
    let us = b.side();
    let locs = b.locs();
    let s = m.src_index();
    let d = m.dst_index();
    &&& s == b.king_of(us)
    &&& 0 <= s < 144
    &&& locs[s] == piece_of(us, PieceType::K)
    &&& king_target(s, d)
    &&& owner_of(locs[d]) != Some(us)
    &&& is_word(m, landing_flag(locs, d), s, d)
}

/// `q` lies on the rank walk from `a` to `b`, both ends included.
pub open spec fn on_walk(a: int, b: int, q: int) -> bool {
    (a <= q <= b) || (b <= q <= a)
}

/// `o` is `occ` with the squares `a` and `b` emptied.
pub open spec fn lifted(occ: BitBoard, o: BitBoard, a: int, b: int) -> bool {
    forall|x: int| #[trigger] o.has(x) == (occ.has(x) && x != a && x != b)
}

/// No piece of `them` attacks a square of the rank walk from `a` to `b`,
/// with `o` as the occupied squares.
pub open spec fn walk_safe(locs: Seq<Piece>, them: Player, a: int, b: int, o: BitBoard) -> bool {
    forall|q: int, s: int| on_walk(a, b, q) ==> !#[trigger] attacker_at(locs, them, s, q, o)
}

/// `t` is on the segment from `a` to `b`, both ends included.
pub open spec fn on_segment(a: int, b: int, t: int) -> bool {
    between_has(a, b, t) || t == a || t == b
}

/// The side to move still holds its castling right on `side` (0 king
/// side, 1 queen side).
pub open spec fn castle_right(b: Board, side: int) -> bool {
    b.st().castling.0 & (if side == 0 {
        king_side_mask(b.side())
    } else {
        queen_side_mask(b.side())
    }) != 0
}

/// The position allows castling on `side`: the king stands on its start
/// square as the tracked king and the rook on its own, the side to move is
/// not in check, the squares the king and rook cross are empty (but for
/// where they stand), and, with both lifted off, no piece of the opponent
/// attacks a square the king walks over.
pub open spec fn castle_clear(b: Board, side: int) -> bool {
    let us = b.side();
    let locs = b.locs();
    let occ = b.occ();
    let kf = king_start_of(us);
    let kt = king_dst_of(us, side);
    let rf = rook_start_of(us, side);
    let rt = rook_dst_of(us, side);
    &&& b.king_of(us) == kf
    &&& locs[kf] == piece_of(us, PieceType::K)
    &&& locs[rf] == piece_of(us, PieceType::R)
    &&& b.st().checkers.none_set()
    &&& forall|t: int|
        (on_segment(kf, kt, t) || on_segment(rf, rt, t)) && t != kf && t != rf ==> !#[trigger] occ.has(
            t,
        )
    &&& exists|o: BitBoard| lifted(occ, o, kf, rf) && #[trigger] walk_safe(locs, opponent(us), kf, kt, o)
}

/// Castling on `side` is open: the right is held and the position allows
/// it.
pub open spec fn castle_open(b: Board, side: int) -> bool {
    castle_right(b, side) && castle_clear(b, side)
}

/// A castle of the side to move.
pub open spec fn castle_rule(b: Board, m: HyperMove) -> bool {
    let us = b.side();
    ||| castle_open(b, 0) && is_word(m, FLAG_KING_CASTLE, king_start_of(us), king_dst_of(us, 0))
    ||| castle_open(b, 1) && is_word(m, FLAG_QUEEN_CASTLE, king_start_of(us), king_dst_of(us, 1))
}

/// A move the rules give the side to move, before the king's safety is
/// asked for.
pub open spec fn rule_move(b: Board, m: HyperMove) -> bool {
    ||| piece_rule(b, m)
    ||| pawn_rule(b, m)
    ||| king_rule(b, m)
    ||| castle_rule(b, m)
}

/// An en passant capture whose captured pawn itself attacks the mover's
/// king: the legality test counts that pawn as still standing, so such a
/// capture is never listed.
pub open spec fn ep_checker_capture(b: Board, m: HyperMove) -> bool {
    let us = b.side();
    &&& is_ep_move(m)
    &&& pawn_target(opponent(us), ep_victim(us, m), b.king_of(us))
}

/// The flag a move word carries, and whether it is a capture or an en
/// passant capture.
pub proof fn lemma_word_flag(m: HyperMove, flag: u32, s: int, d: int, promo: u32)
    requires
        m.bits() == encode_move(flag, s as u8, d as u8, promo),
        flag == FLAG_QUIET || flag == FLAG_DOUBLE_PAWN || flag == FLAG_KING_CASTLE || flag
            == FLAG_QUEEN_CASTLE || flag == FLAG_CAPTURE || flag == FLAG_EP || flag == FLAG_PROMO
            || flag == FLAG_PROMO_CAPTURE,
        promo < 16,
    ensures
        m.flag_bits() == flag,
        m.capture_flag() == (flag == FLAG_CAPTURE || flag == FLAG_EP || flag == FLAG_PROMO_CAPTURE),
{
    lemma_encode(flag, s as u8, d as u8, promo);
    assert(0u32 & 4u32 == 0 && 1u32 & 4u32 == 0 && 2u32 & 4u32 == 0 && 3u32 & 4u32 == 0 && 4u32
        & 4u32 != 0 && 5u32 & 4u32 != 0 && 8u32 & 4u32 == 0 && 12u32 & 4u32 != 0) by (bit_vector);
}

/// A move of a pawn or piece that does not capture lands on an empty
/// square, and only the en passant rule gives en passant words.
pub proof fn lemma_rule_flags(b: Board, m: HyperMove)
    requires
        b.wf(),
        piece_rule(b, m) || pawn_rule(b, m),
    ensures
        is_ep_move(m) == (pawn_rule(b, m) && pawn_ep_rule(b, m, m.src_index(), m.dst_index())),
        !is_castle_move(m),
        !is_ep_move(m) && !m.capture_flag() ==> b.locs()[m.dst_index()] == Piece::Empty,
{
    let s = m.src_index();
    let d = m.dst_index();
    if piece_rule(b, m) {
        lemma_word_flag(m, landing_flag(b.locs(), d), s, d, 0);
        if pawn_rule(b, m) {
            assert(false);
        }
    } else {
        if pawn_push_rule(b, m, s, d) {
            if sq_rank(d) == promo_rank_of(b.side()) {
                let i = choose|i: int|
                    0 <= i < 6 && #[trigger] m.bits() == encode_move(
                        FLAG_PROMO,
                        s as u8,
                        d as u8,
                        pt_index(promo_type_of(i)) as u32,
                    );
                lemma_word_flag(m, FLAG_PROMO, s, d, pt_index(promo_type_of(i)) as u32);
            } else {
                lemma_word_flag(m, FLAG_QUIET, s, d, 0);
            }
        } else if pawn_double_rule(b, m, s, d) {
            lemma_word_flag(m, FLAG_DOUBLE_PAWN, s, d, 0);
        } else if pawn_capture_rule(b, m, s, d) {
            if sq_rank(d) == promo_rank_of(b.side()) {
                let i = choose|i: int|
                    0 <= i < 6 && #[trigger] m.bits() == encode_move(
                        FLAG_PROMO_CAPTURE,
                        s as u8,
                        d as u8,
                        pt_index(promo_type_of(i)) as u32,
                    );
                lemma_word_flag(m, FLAG_PROMO_CAPTURE, s, d, pt_index(promo_type_of(i)) as u32);
            } else {
                lemma_word_flag(m, FLAG_CAPTURE, s, d, 0);
            }
        } else {
            lemma_word_flag(m, FLAG_EP, s, d, 0);
        }
    }
}

/// A pseudo-legal move of the rules is a pawn or piece move.
pub proof fn lemma_pseudo_rule(b: Board, m: HyperMove)
    requires
        b.wf(),
        rule_move(b, m),
        b.move_shape_ok(m),
        !is_castle_move(m),
        is_ep_move(m) || m.promo_flag() || type_of_piece(b.locs()[m.src_index()]) != PieceType::K,
    ensures
        piece_rule(b, m) || pawn_rule(b, m),
{
    let s = m.src_index();
    let d = m.dst_index();
    if king_rule(b, m) && !piece_rule(b, m) && !pawn_rule(b, m) {
        lemma_word_flag(m, landing_flag(b.locs(), d), s, d, 0);
    }
    if castle_rule(b, m) && !piece_rule(b, m) && !pawn_rule(b, m) {
        let us = b.side();
        if castle_open(b, 0) && is_word(m, FLAG_KING_CASTLE, king_start_of(us), king_dst_of(us, 0)) {
            lemma_word_flag(m, FLAG_KING_CASTLE, king_start_of(us), king_dst_of(us, 0), 0);
        } else {
            lemma_word_flag(m, FLAG_QUEEN_CASTLE, king_start_of(us), king_dst_of(us, 1), 0);
        }
    }
}

/// The parts of a move word.
pub proof fn lemma_word_parts(m: HyperMove, flag: u32, s: u8, d: u8, p: u32)
    requires
        flag < 16,
        p < 16,
        m.bits() == encode_move(flag, s, d, p),
    ensures
        m.src_index() == s,
        m.dst_index() == d,
        m.flag_bits() == flag,
        m.promo_index() == p,
{
    lemma_encode(flag, s, d, p);
}

} // verus!
