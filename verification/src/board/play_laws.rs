//! What holds of every move the generator lists on a position in play:
//! it can be played and taken back, it leaves the mover's king unattacked,
//! and taking it back restores the position.

use vstd::prelude::*;

use super::attacks::{attacked_by, attacker_at};
use super::move_apply::{castle_side, ep_victim, is_castle_move, is_ep_move};
use super::movegen::rules::{
    castle_clear, castle_open, castle_rule, is_word, king_rule, landing_flag, lemma_rule_flags,
    lemma_word_flag, lemma_word_parts, on_segment, pawn_rule, piece_rule, rule_move,
};
use super::movegen::{movable, occupancy_of};
use super::Board;
use crate::core_types::bitboard::BitBoard;
use crate::core_types::piece_move::HyperMove;
use crate::core_types::masks::{king_dst_of, king_start_of, rook_dst_of, rook_start_of};
use crate::core_types::sq::SQ;
use crate::core_types::piece::{owner_of, piece_of, type_of_piece, Piece};
use crate::core_types::piece_move::{FLAG_KING_CASTLE, FLAG_QUEEN_CASTLE};
use crate::core_types::piece_type::PieceType;
use crate::core_types::player::{opponent, player_index, Player};

verus! {

/// Each side's stored king square holds that side's king.
pub open spec fn kings_placed(b: Board) -> bool {
    &&& b.locs()[b.king_of(Player::White)] == piece_of(Player::White, PieceType::K)
    &&& b.locs()[b.king_of(Player::Black)] == piece_of(Player::Black, PieceType::K)
}

/// The side that has just moved left no check: no piece of the side to move
/// attacks the other side's king.
pub open spec fn waiting_king_safe(b: Board) -> bool {
    !attacked_by(b.locs(), b.side(), b.king_of(opponent(b.side())), b.occ())
}

/// A position in play: well formed, both kings on the board on their stored
/// squares, the king of the side that has just moved not attacked, the
/// stored hash that of the position, and the counters with room for
/// another move.
pub open spec fn in_play(b: Board) -> bool {
    &&& b.wf()
    &&& b.king_of(Player::White) < 144
    &&& b.king_of(Player::Black) < 144
    &&& kings_placed(b)
    &&& waiting_king_safe(b)
    &&& b.hash_ok()
    &&& b.plies() < 0xffff
    &&& b.st().rule50 < 0xffff
    &&& b.st().fullmove < 0xffff
}

impl Board {
    /// Whether the board is in play: both kings on their stored squares, the
    /// side that has just moved not in check, the stored hash that of the
    /// position, and room in the counters for another move.
    pub fn is_in_play(&self) -> (r: bool)
        requires
            self.wf(),
        ensures
            r == in_play(*self),
    {
        let w = self.king_sq(Player::White);
        let bk = self.king_sq(Player::Black);
        if w.0 >= 144 || bk.0 >= 144 {
            return false;
        }
        if self.piece_at(w) != Piece::WhiteKing || self.piece_at(bk) != Piece::BlackKing {
            proof {
                super::lemma_slots();
                assert(piece_of(Player::White, PieceType::K) == Piece::WhiteKing);
                assert(piece_of(Player::Black, PieceType::K) == Piece::BlackKing);
            }
            return false;
        }
        proof {
            assert(piece_of(Player::White, PieceType::K) == Piece::WhiteKing);
            assert(piece_of(Player::Black, PieceType::K) == Piece::BlackKing);
        }
        let them = self.turn().other_player();
        if self.is_attacked(them) {
            return false;
        }
        self.compute_zobrist() == self.state.zobrist && self.ply() < 0xffff && self.state.rule50 < 0xffff
            && self.state.fullmove < 0xffff
    }
}

/// A board read from HFEN is in play when both kings stand on their
/// squares, the side that has just moved left no check, and its counters
/// have room for another move.
pub proof fn lemma_hfen_board_in_play(s: Seq<char>, b: Board)
    requires
        super::hfen_board(s, b),
        b.king_of(Player::White) < 144,
        b.king_of(Player::Black) < 144,
        kings_placed(b),
        waiting_king_safe(b),
        b.st().rule50 < 0xffff,
        b.st().fullmove < 0xffff,
    ensures
        in_play(b),
{
}

/// A move the rules give onto a square of the other side attacks that
/// square from its source.
proof fn lemma_capture_attacks(b: Board, m: HyperMove)
    requires
        b.wf(),
        rule_move(b, m),
        owner_of(b.locs()[m.dst_index()]) == Some(opponent(b.side())),
    ensures
        attacker_at(b.locs(), b.side(), m.src_index(), m.dst_index(), b.occ()),
{
    super::lemma_slots();
    let us = b.side();
    let locs = b.locs();
    let s = m.src_index();
    let d = m.dst_index();
    assert(us == Player::White || us == Player::Black);
    assert(owner_of(Piece::Empty) is None);
    if piece_rule(b, m) {
    } else if pawn_rule(b, m) {
        assert(owner_of(piece_of(us, PieceType::P)) == Some(us));
        assert(type_of_piece(piece_of(us, PieceType::P)) == PieceType::P);
    } else if king_rule(b, m) {
        assert(owner_of(piece_of(us, PieceType::K)) == Some(us));
        assert(type_of_piece(piece_of(us, PieceType::K)) == PieceType::K);
    } else {
        let side: int = if castle_open(b, 0) && is_word(m, FLAG_KING_CASTLE, king_start_of(us), king_dst_of(us, 0)) {
            0
        } else {
            1
        };
        let flag = if side == 0 { FLAG_KING_CASTLE } else { FLAG_QUEEN_CASTLE };
        assert(castle_clear(b, side));
        lemma_word_parts(m, flag, king_start_of(us) as u8, king_dst_of(us, side) as u8, 0);
        let kt = king_dst_of(us, side);
        assert(on_segment(king_start_of(us), kt, kt));
        assert(kt != king_start_of(us) && kt != rook_start_of(us, side));
        assert(!b.occ().has(kt));
        assert(false);
    }
}

/// Playing a listed move on a position in play gives a position in play,
/// when the counters still have room for another move.
pub proof fn lemma_play_stays_in_play(b: Board, m: HyperMove, a: Board)
    requires
        in_play(b),
        movable(b, m),
        b.applied(m, a),
        a.hash_ok(),
        a.plies() < 0xffff,
        a.st().rule50 < 0xffff,
        a.st().fullmove < 0xffff,
    ensures
        in_play(a),
{
    super::lemma_slots();
    lemma_listed_move_playable(b, m);
    let us = b.side();
    let them = opponent(us);
    let locs = b.locs();
    let s = m.src_index();
    let d = m.dst_index();
    let ku = b.king_of(us);
    let kt = b.king_of(them);
    assert(us == Player::White || us == Player::Black);
    assert(player_index(us) != player_index(them));
    assert(locs[kt] == piece_of(them, PieceType::K));
    assert(locs[ku] == piece_of(us, PieceType::K));
    assert(owner_of(piece_of(them, PieceType::K)) == Some(them));
    assert(owner_of(piece_of(us, PieceType::K)) == Some(us));
    // The move does not take the other side's king.
    if d == kt {
        lemma_capture_attacks(b, m);
        assert(attacked_by(locs, us, kt, b.occ()));
    }
    assert(d != kt);
    assert(s != kt);
    // The mover's king is safe after the move.
    assert(occupancy_of(a.occ(), a.locs()));
    assert(!attacked_by(a.locs(), them, a.kings()[player_index(us)].0 as int, a.occ()));
    assert(a.side() == them);
    assert(opponent(them) == us);
    lemma_placed_after(b, m, a);
}

/// A move the rules give, other than a castle, does not land on a piece of
/// the mover.
proof fn lemma_dest_not_own(b: Board, m: HyperMove)
    requires
        b.wf(),
        rule_move(b, m),
        !is_castle_move(m),
    ensures
        owner_of(b.locs()[m.dst_index()]) != Some(b.side()),
{
    super::lemma_slots();
    let us = b.side();
    assert(us == Player::White || us == Player::Black);
    assert(owner_of(Piece::Empty) is None);
    if castle_rule(b, m) && !piece_rule(b, m) && !pawn_rule(b, m) && !king_rule(b, m) {
        let side: int = if castle_open(b, 0) && is_word(m, FLAG_KING_CASTLE, king_start_of(us), king_dst_of(us, 0)) {
            0
        } else {
            1
        };
        let flag = if side == 0 { FLAG_KING_CASTLE } else { FLAG_QUEEN_CASTLE };
        lemma_word_parts(m, flag, king_start_of(us) as u8, king_dst_of(us, side) as u8, 0);
    }
    if pawn_rule(b, m) {
        assert(owner_of(piece_of(opponent(us), PieceType::P)) == Some(opponent(us)));
    }
}

/// After a castle on a position in play, both kings stand on their stored
/// squares.
#[verifier::rlimit(40)]
proof fn lemma_placed_after_castle(b: Board, m: HyperMove, a: Board)
    requires
        in_play(b),
        movable(b, m),
        b.applied(m, a),
        is_castle_move(m),
    ensures
        a.king_of(Player::White) < 144,
        a.king_of(Player::Black) < 144,
        kings_placed(a),
{
    super::lemma_slots();
    let us = b.side();
    let them = opponent(us);
    let locs = b.locs();
    let s = m.src_index();
    let d = m.dst_index();
    assert(us == Player::White || us == Player::Black);
    assert(!(piece_rule(b, m) || pawn_rule(b, m))) by {
        if piece_rule(b, m) || pawn_rule(b, m) {
            lemma_rule_flags(b, m);
        }
    }
    if king_rule(b, m) {
        lemma_word_flag(m, landing_flag(locs, d), s, d, 0);
        assert(false);
    }
    assert(castle_rule(b, m));
    let side: int = if castle_open(b, 0) && is_word(m, FLAG_KING_CASTLE, king_start_of(us), king_dst_of(us, 0)) {
        0
    } else {
        1
    };
    let flag = if side == 0 { FLAG_KING_CASTLE } else { FLAG_QUEEN_CASTLE };
    lemma_word_parts(m, flag, king_start_of(us) as u8, king_dst_of(us, side) as u8, 0);
    assert(castle_side(m) == side);
    assert(castle_clear(b, side));
    let kd = king_dst_of(us, side);
    let rs = rook_start_of(us, side);
    let rd = rook_dst_of(us, side);
    assert(locs[s] == piece_of(us, PieceType::K));
    assert(kd != rs && kd != rd && kd != s && rd != s && rd != rs);
    assert(on_segment(s, kd, kd));
    assert(on_segment(rs, rd, rd));
    assert(!b.occ().has(kd));
    assert(!b.occ().has(rd));
    let kt = b.king_of(them);
    assert(locs[kt] == piece_of(them, PieceType::K));
    assert(owner_of(piece_of(them, PieceType::K)) == Some(them));
    assert(locs[kd] == Piece::Empty);
    assert(locs[rd] == Piece::Empty);
    assert(locs[rs] == piece_of(us, PieceType::R));
    assert(kt != kd && kt != rd && kt != rs && kt != s);
    assert(a.locs()[kd] == piece_of(us, PieceType::K));
    assert(a.locs()[kt] == locs[kt]);
    assert(a.kings()[player_index(us)] == SQ(kd as u8));
    assert(a.kings()[player_index(them)] == b.kings()[player_index(them)]);
}

/// After a king step on a position in play that does not take the other
/// king, both kings stand on their stored squares.
proof fn lemma_placed_after_king_step(b: Board, m: HyperMove, a: Board)
    requires
        in_play(b),
        movable(b, m),
        b.applied(m, a),
        m.dst_index() != b.king_of(opponent(b.side())),
        !is_castle_move(m),
        type_of_piece(b.locs()[m.src_index()]) == PieceType::K,
        !is_ep_move(m),
        !m.promo_flag(),
    ensures
        a.king_of(Player::White) < 144,
        a.king_of(Player::Black) < 144,
        kings_placed(a),
{
    super::lemma_slots();
    let us = b.side();
    let them = opponent(us);
    let locs = b.locs();
    let s = m.src_index();
    let d = m.dst_index();
    assert(us == Player::White || us == Player::Black);
    assert(owner_of(locs[s]) == Some(us));
    assert(locs[s] == piece_of(us, PieceType::K));
    let kt = b.king_of(them);
    assert(locs[kt] == piece_of(them, PieceType::K));
    assert(owner_of(piece_of(them, PieceType::K)) == Some(them));
    assert(kt != s);
    assert(a.locs()[d] == piece_of(us, PieceType::K));
    assert(a.locs()[kt] == locs[kt]);
    assert(a.kings()[player_index(us)] == SQ(d as u8));
    assert(a.kings()[player_index(them)] == b.kings()[player_index(them)]);
}

/// After any other listed move on a position in play that does not take the
/// other king, both kings stay where they stood.
proof fn lemma_placed_after_other(b: Board, m: HyperMove, a: Board)
    requires
        in_play(b),
        movable(b, m),
        b.applied(m, a),
        m.dst_index() != b.king_of(opponent(b.side())),
        !is_castle_move(m),
        !(type_of_piece(b.locs()[m.src_index()]) == PieceType::K && !is_ep_move(m) && !m.promo_flag()),
    ensures
        a.king_of(Player::White) < 144,
        a.king_of(Player::Black) < 144,
        kings_placed(a),
{
    super::lemma_slots();
    let us = b.side();
    let them = opponent(us);
    let locs = b.locs();
    let s = m.src_index();
    let d = m.dst_index();
    assert(us == Player::White || us == Player::Black);
    assert(b.reversible(m));
    assert(owner_of(locs[s]) == Some(us));
    let ku = b.king_of(us);
    let kt = b.king_of(them);
    assert(locs[ku] == piece_of(us, PieceType::K));
    assert(locs[kt] == piece_of(them, PieceType::K));
    assert(owner_of(piece_of(them, PieceType::K)) == Some(them));
    assert(owner_of(piece_of(us, PieceType::K)) == Some(us));
    assert(type_of_piece(piece_of(us, PieceType::K)) == PieceType::K);
    assert(type_of_piece(locs[s]) != PieceType::K);
    assert(s != ku && s != kt);
    lemma_dest_not_own(b, m);
    assert(d != ku);
    assert(a.kings() == b.kings());
    if is_ep_move(m) {
        let v = ep_victim(us, m);
        assert(locs[v] == piece_of(them, PieceType::P));
        assert(type_of_piece(piece_of(them, PieceType::P)) == PieceType::P);
        assert(v != ku && v != kt);
    }
    assert(a.locs()[ku] == locs[ku]);
    assert(a.locs()[kt] == locs[kt]);
}

/// After a listed move on a position in play that does not take the other
/// king, both kings stand on their stored squares.
proof fn lemma_placed_after(b: Board, m: HyperMove, a: Board)
    requires
        in_play(b),
        movable(b, m),
        b.applied(m, a),
        m.dst_index() != b.king_of(opponent(b.side())),
    ensures
        a.king_of(Player::White) < 144,
        a.king_of(Player::Black) < 144,
        kings_placed(a),
{
    if is_castle_move(m) {
        lemma_placed_after_castle(b, m, a);
    } else if type_of_piece(b.locs()[m.src_index()]) == PieceType::K && !is_ep_move(m) && !m.promo_flag() {
        lemma_placed_after_king_step(b, m, a);
    } else {
        lemma_placed_after_other(b, m, a);
    }
}

/// Every move the generator lists on a position in play can be played and
/// taken back: it meets what `apply_move` asks of a move, and `undo_move`
/// can take it back.
pub proof fn lemma_listed_move_playable(b: Board, m: HyperMove)
    requires
        in_play(b),
        movable(b, m),
    ensures
        b.move_ok(m),
        b.reversible(m),
{
    assert(b.side() == Player::White || b.side() == Player::Black);
}

/// A listed move leaves the mover's king unattacked in the position it
/// leads to.
pub proof fn lemma_listed_move_safe(b: Board, m: HyperMove, after: Board)
    requires
        in_play(b),
        movable(b, m),
        b.applied(m, after),
    ensures
        forall|occ: BitBoard|
            #[trigger] occupancy_of(occ, after.locs()) ==> !attacked_by(
                after.locs(),
                opponent(b.side()),
                after.kings()[player_index(b.side())].0 as int,
                occ,
            ),
{
}

/// Playing a listed move on a position in play and taking it back gives
/// back the position: the pieces, identities, side to move, king squares,
/// ply count, game state and history.
pub proof fn lemma_play_undo_restores(b0: Board, m: HyperMove, b1: Board, b2: Board)
    requires
        in_play(b0),
        movable(b0, m),
        b0.applied(m, b1),
        b1.undone(b2),
    ensures
        b2.wf(),
        b2.locs() == b0.locs(),
        b2.ids() == b0.ids(),
        b2.side() == b0.side(),
        b2.kings() == b0.kings(),
        b2.plies() == b0.plies(),
        b2.st() == b0.st(),
        b2.hist() == b0.hist(),
        b2.occ() == b0.occ(),
        b2.hash_ok(),
        in_play(b2),
{
    lemma_listed_move_playable(b0, m);
    super::move_apply::lemma_undo_restores(b0, m, b1, b2);
    assert forall|q: int| #[trigger] b2.occ().has(q) == b0.occ().has(q) by {}
    b2.occ().lemma_ext(b0.occ());
}

} // verus!
