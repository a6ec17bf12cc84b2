//! Move application and reversal: `apply_move`, `undo_move`, and null moves.
//!
//! `apply_move` keeps the piece bitboards, occupancy, piece-location map,
//! king squares, castling rights, en-passant square, hash and check state in
//! step, and `undo_move` restores the previous position exactly.

use vstd::prelude::*;

use super::attacks::attacker_at;
use super::board_state::BoardState;
use super::castle_rights::{rights_after_move, rights_without_player};
use super::{ep_part, lemma_position_hash_parts, lemma_xor_facts, pieces_hash, side_part, Board};
use crate::core_types::masks::{
    castling_king_dst, castling_rook_dst, castling_rook_start, king_dst_of, king_start_of,
    rook_dst_of, rook_start_of,
};
use crate::core_types::piece::{owner_of, piece_of, type_of_piece, Piece};
use crate::core_types::piece_identity::NO_PIECE_ID;
use crate::core_types::piece_move::HyperMove;
use crate::core_types::piece_type::{is_real_type, pt_from_index, PieceType};
use crate::core_types::player::{opponent, pawn_push_of, player_index, Player};
use crate::core_types::sq::SQ;
use crate::helper::zobrist::{castle_key, castle_rights_key, ep_file_key, side_key, side_to_move_key};

verus! {

/// The move is a castle (flag 2 king-side, 3 queen-side).
pub open spec fn is_castle_move(m: HyperMove) -> bool {
    m.flag_bits() == 2 || m.flag_bits() == 3
}

/// The move is an en passant capture (flag 5).
pub open spec fn is_ep_move(m: HyperMove) -> bool {
    m.flag_bits() == 5
}

/// The castling side of a castle move: 0 king-side, 1 queen-side.
pub open spec fn castle_side(m: HyperMove) -> int {
    if m.flag_bits() == 2 {
        0
    } else {
        1
    }
}

/// The square of the pawn an en passant capture by `us` removes.
pub open spec fn ep_victim(us: Player, m: HyperMove) -> int {
    m.dst_index() - pawn_push_of(us)
}

/// The kind a promotion turns into.
pub open spec fn promo_kind(m: HyperMove) -> PieceType {
    pt_from_index(m.promo_index() as int)
}

/// The piece that lands on the destination: the promoted piece for a
/// promotion, else the moving piece.
pub open spec fn landing(piece: Piece, us: Player, m: HyperMove) -> Piece {
    if m.promo_flag() {
        piece_of(us, promo_kind(m))
    } else {
        piece
    }
}

/// The square-to-piece map after `us` plays `m`.
pub open spec fn locs_after(locs: Seq<Piece>, us: Player, m: HyperMove) -> Seq<Piece> {
    let src = m.src_index();
    let dst = m.dst_index();
    let piece = locs[src];
    if is_castle_move(m) {
        let side = castle_side(m);
        locs.update(src, Piece::Empty).update(king_dst_of(us, side), piece).update(
            rook_start_of(us, side),
            Piece::Empty,
        ).update(rook_dst_of(us, side), piece_of(us, PieceType::R))
    } else if is_ep_move(m) {
        locs.update(ep_victim(us, m), Piece::Empty).update(src, Piece::Empty).update(dst, piece)
    } else {
        locs.update(src, Piece::Empty).update(dst, landing(piece, us, m))
    }
}

/// The identity map after `us` plays `m`: identities travel with their pieces.
pub open spec fn ids_after(ids: Seq<char>, us: Player, m: HyperMove) -> Seq<char> {
    let src = m.src_index();
    let dst = m.dst_index();
    if is_castle_move(m) {
        let side = castle_side(m);
        let rs = rook_start_of(us, side);
        ids.update(src, NO_PIECE_ID).update(king_dst_of(us, side), ids[src]).update(
            rs,
            NO_PIECE_ID,
        ).update(rook_dst_of(us, side), ids[rs])
    } else if is_ep_move(m) {
        ids.update(ep_victim(us, m), NO_PIECE_ID).update(src, NO_PIECE_ID).update(dst, ids[src])
    } else {
        ids.update(src, NO_PIECE_ID).update(dst, ids[src])
    }
}

/// The piece `m` captures.
pub open spec fn captured_by(locs: Seq<Piece>, us: Player, m: HyperMove) -> Piece {
    if is_castle_move(m) {
        Piece::Empty
    } else if is_ep_move(m) {
        locs[ep_victim(us, m)]
    } else {
        locs[m.dst_index()]
    }
}

/// The identity of the piece `m` captures.
pub open spec fn captured_id_by(locs: Seq<Piece>, ids: Seq<char>, us: Player, m: HyperMove) -> char {
    if is_castle_move(m) {
        NO_PIECE_ID
    } else if is_ep_move(m) {
        ids[ep_victim(us, m)]
    } else if locs[m.dst_index()] != Piece::Empty {
        ids[m.dst_index()]
    } else {
        NO_PIECE_ID
    }
}

/// The king squares after `us` plays `m`: a castling or non-promoting king
/// move takes `us`'s king square along.
pub open spec fn kings_after(kings: Seq<SQ>, locs: Seq<Piece>, us: Player, m: HyperMove) -> Seq<SQ> {
    if is_castle_move(m) {
        kings.update(player_index(us), SQ(king_dst_of(us, castle_side(m)) as u8))
    } else if !is_ep_move(m) && !m.promo_flag() && type_of_piece(locs[m.src_index()])
        == PieceType::K {
        kings.update(player_index(us), SQ(m.dst_index() as u8))
    } else {
        kings
    }
}

/// The castling rights after `us` plays `m`.
pub open spec fn castling_after(c: u8, us: Player, m: HyperMove) -> u8 {
    if is_castle_move(m) {
        rights_without_player(c, us)
    } else if is_ep_move(m) {
        c
    } else {
        rights_after_move(c, m.src_index(), m.dst_index())
    }
}

/// The en passant square after `m`: the square passed over by a double
/// push, else none (144).
pub open spec fn ep_after(m: HyperMove) -> int {
    if !is_castle_move(m) && !is_ep_move(m) && m.flag_bits() == 1 {
        (m.src_index() + m.dst_index()) / 2
    } else {
        144
    }
}

/// The half-move clock after `m`: reset by pawn moves and captures.
pub open spec fn rule50_after(r: u16, locs: Seq<Piece>, us: Player, m: HyperMove) -> int {
    if type_of_piece(locs[m.src_index()]) == PieceType::P || captured_by(locs, us, m)
        != Piece::Empty {
        0
    } else {
        r + 1
    }
}

/// The square-to-piece map before `us` played `m`, from the map after it
/// and the piece it captured.
pub open spec fn locs_before(locs: Seq<Piece>, us: Player, m: HyperMove, cap: Piece) -> Seq<Piece> {
    let src = m.src_index();
    let dst = m.dst_index();
    if is_castle_move(m) {
        let side = castle_side(m);
        let kd = king_dst_of(us, side);
        let rd = rook_dst_of(us, side);
        locs.update(kd, Piece::Empty).update(src, locs[kd]).update(rd, Piece::Empty).update(
            rook_start_of(us, side),
            locs[rd],
        )
    } else if is_ep_move(m) {
        locs.update(dst, Piece::Empty).update(src, locs[dst]).update(ep_victim(us, m), cap)
    } else {
        let moved = if m.promo_flag() {
            piece_of(us, PieceType::P)
        } else {
            locs[dst]
        };
        let back = locs.update(dst, Piece::Empty).update(src, moved);
        if cap != Piece::Empty {
            back.update(dst, cap)
        } else {
            back
        }
    }
}

/// The identity map before `us` played `m`.
pub open spec fn ids_before(ids: Seq<char>, us: Player, m: HyperMove, cap: Piece, cap_id: char) -> Seq<char> {
    let src = m.src_index();
    let dst = m.dst_index();
    if is_castle_move(m) {
        let side = castle_side(m);
        let kd = king_dst_of(us, side);
        let rd = rook_dst_of(us, side);
        ids.update(kd, NO_PIECE_ID).update(src, ids[kd]).update(rd, NO_PIECE_ID).update(
            rook_start_of(us, side),
            ids[rd],
        )
    } else if is_ep_move(m) {
        ids.update(dst, NO_PIECE_ID).update(src, ids[dst]).update(ep_victim(us, m), cap_id)
    } else {
        let back = ids.update(dst, NO_PIECE_ID).update(src, ids[dst]);
        if cap != Piece::Empty {
            back.update(dst, cap_id)
        } else {
            back
        }
    }
}

/// The king squares before `us` played `m`.
pub open spec fn kings_before(kings: Seq<SQ>, locs: Seq<Piece>, us: Player, m: HyperMove) -> Seq<SQ> {
    if is_castle_move(m) {
        kings.update(player_index(us), SQ(m.src_index() as u8))
    } else if !is_ep_move(m) && !m.promo_flag() && type_of_piece(locs[m.dst_index()])
        == PieceType::K {
        kings.update(player_index(us), SQ(m.src_index() as u8))
    } else {
        kings
    }
}

impl Board {
    /// `m` has the shape of a move of the side to move: its squares are on
    /// the board and distinct, it moves a piece of the side to move, and the
    /// squares a castle, en passant capture or promotion touches hold what
    /// it moves.
    pub open spec fn move_shape_ok(self, m: HyperMove) -> bool {
        let us = self.side();
        let locs = self.locs();
        let src = m.src_index();
        let dst = m.dst_index();
        &&& src < 144
        &&& dst < 144
        &&& src != dst
        &&& owner_of(locs[src]) == Some(us)
        &&& is_castle_move(m) ==> {
            let side = castle_side(m);
            &&& locs[src] == piece_of(us, PieceType::K)
            &&& src == king_start_of(us)
            &&& locs[rook_start_of(us, side)] == piece_of(us, PieceType::R)
            &&& locs[king_dst_of(us, side)] == Piece::Empty
            &&& locs[rook_dst_of(us, side)] == Piece::Empty
        }
        &&& !is_castle_move(m) && is_ep_move(m) ==> {
            &&& locs[dst] == Piece::Empty
            &&& 0 <= ep_victim(us, m) < 144
            &&& locs[ep_victim(us, m)] == piece_of(opponent(us), PieceType::P)
        }
        &&& !is_castle_move(m) && !is_ep_move(m) && m.promo_flag() ==> is_real_type(promo_kind(m))
    }

    /// `m` can be applied: it has the shape of a move, the side to move next
    /// has a king square, and the counters have room.
    pub open spec fn move_ok(self, m: HyperMove) -> bool {
        &&& self.wf()
        &&& self.move_shape_ok(m)
        &&& self.king_of(opponent(self.side())) < 144
        &&& self.plies() < 0xffff
        &&& self.st().rule50 < 0xffff
        &&& self.st().fullmove < 0xffff
    }

    /// `m` can also be taken back by [`Board::undo_move`]: promotions and en
    /// passant captures move a pawn, and a moving king is the tracked one.
    pub open spec fn reversible(self, m: HyperMove) -> bool {
        let us = self.side();
        let piece = self.locs()[m.src_index()];
        &&& !is_castle_move(m) && (is_ep_move(m) || m.promo_flag()) ==> piece == piece_of(
            us,
            PieceType::P,
        )
        &&& type_of_piece(piece) == PieceType::K ==> self.king_of(us) == m.src_index()
    }

    /// `after` is this board with `m` played.
    pub open spec fn applied(self, m: HyperMove, after: Board) -> bool {
        let us = self.side();
        let locs = self.locs();
        &&& after.wf()
        &&& after.locs() == locs_after(locs, us, m)
        &&& after.ids() == ids_after(self.ids(), us, m)
        &&& after.side() == opponent(us)
        &&& after.kings() == kings_after(self.kings(), locs, us, m)
        &&& after.plies() == self.plies() + 1
        &&& after.hist() == self.hist().push(self.st().zobrist)
        &&& after.st().prev == Some(Box::new(self.st()))
        &&& after.st().last_move == m
        &&& after.st().captured_piece == captured_by(locs, us, m)
        &&& after.st().captured_identity == captured_id_by(locs, self.ids(), us, m)
        &&& after.st().castling.0 == castling_after(self.st().castling.0, us, m)
        &&& after.st().ep_square.0 == ep_after(m)
        &&& after.st().rule50 == rule50_after(self.st().rule50, locs, us, m)
        &&& after.st().fullmove == self.st().fullmove + (if us == Player::Black {
            1int
        } else {
            0int
        })
        &&& forall|s: int|
            #[trigger] after.st().checkers.has(s) == attacker_at(
                after.locs(),
                us,
                s,
                after.king_of(after.side()),
                after.occ(),
            )
    }

    /// The last move can be taken back: there is an earlier state, and the
    /// squares the move touched hold what it left there.
    pub open spec fn undo_ok(self) -> bool {
        let m = self.st().last_move;
        let us = opponent(self.side());
        let locs = self.locs();
        let src = m.src_index();
        let dst = m.dst_index();
        let cap = self.st().captured_piece;
        &&& self.wf()
        &&& self.st().prev is Some
        &&& self.st().prev->0.ep_square.0 <= 144
        &&& self.st().prev->0.castling.0 < 16
        &&& self.plies() > 0
        &&& self.hist().len() > 0
        &&& src < 144
        &&& dst < 144
        &&& src != dst
        &&& locs[src] == Piece::Empty
        &&& is_castle_move(m) ==> {
            let side = castle_side(m);
            &&& locs[king_dst_of(us, side)] == piece_of(us, PieceType::K)
            &&& locs[rook_dst_of(us, side)] == piece_of(us, PieceType::R)
            &&& locs[rook_start_of(us, side)] == Piece::Empty
            &&& src == king_start_of(us)
        }
        &&& !is_castle_move(m) && is_ep_move(m) ==> {
            &&& locs[dst] == piece_of(us, PieceType::P)
            &&& 0 <= ep_victim(us, m) < 144
            &&& ep_victim(us, m) != src
            &&& locs[ep_victim(us, m)] == Piece::Empty
            &&& cap == piece_of(opponent(us), PieceType::P)
        }
        &&& !is_castle_move(m) && !is_ep_move(m) ==> {
            &&& m.promo_flag() ==> is_real_type(promo_kind(m)) && locs[dst] == piece_of(
                us,
                promo_kind(m),
            )
            &&& !m.promo_flag() ==> owner_of(locs[dst]) == Some(us)
        }
    }

    /// `after` is this board with its last move taken back.
    pub open spec fn undone(self, after: Board) -> bool {
        let m = self.st().last_move;
        let us = opponent(self.side());
        &&& after.wf()
        &&& after.locs() == locs_before(self.locs(), us, m, self.st().captured_piece)
        &&& after.ids() == ids_before(
            self.ids(),
            us,
            m,
            self.st().captured_piece,
            self.st().captured_identity,
        )
        &&& after.side() == us
        &&& after.kings() == kings_before(self.kings(), self.locs(), us, m)
        &&& after.plies() == self.plies() - 1
        &&& after.hist() == self.hist().drop_last()
        &&& after.st() == *self.st().prev->0
    }
}

impl Board {
    /// Plays a castle: king and rook jump to their castling squares and the
    /// mover loses both rights.
    fn apply_castle(&mut self, m: HyperMove, us: Player)
        requires
            old(self).wf(),
            us == old(self).side(),
            is_castle_move(m),
            old(self).move_ok(m),
        ensures
            final(self).wf(),
            final(self).frame_eq(*old(self)),
            final(self).locs() == locs_after(old(self).locs(), us, m),
            final(self).ids() == ids_after(old(self).ids(), us, m),
            final(self).kings() == kings_after(old(self).kings(), old(self).locs(), us, m),
            final(self).st().castling.0 == castling_after(old(self).st().castling.0, us, m),
            final(self).st().ep_square.0 == 144,
            final(self).st().captured_piece == captured_by(old(self).locs(), us, m),
            final(self).st().captured_identity == captured_id_by(old(self).locs(), old(self).ids(), us, m),
            final(self).hash_rest() == old(self).hash_rest(),
    {
        proof {
            super::lemma_slots();
        }
        let src = m.get_src();
        let piece = self.piece_locs.piece_at(src);
        let side: usize = if m.is_king_castle() {
            0
        } else {
            1
        };
        let rook_from = SQ(castling_rook_start(us, side));
        let rook_to = SQ(castling_rook_dst(us, side));
        let king_to = SQ(castling_king_dst(us, side));
        let rook_piece = Piece::make_lossy(us, PieceType::R);
        let king_identity = self.remove_piece_with_id(src, piece, us, PieceType::K);
        self.place_piece_with_id(king_to, piece, us, PieceType::K, king_identity);
        self.king_sq.set(us.index(), king_to);
        let rook_identity = self.remove_piece_with_id(rook_from, rook_piece, us, PieceType::R);
        self.place_piece_with_id(rook_to, rook_piece, us, PieceType::R, rook_identity);
        self.state.castling.remove_player(us);
        self.state.ep_square = SQ(144);
        self.state.captured_piece = Piece::Empty;
        self.state.captured_identity = NO_PIECE_ID;
        proof {
            assert(self.locs() =~= locs_after(old(self).locs(), us, m));
            assert(self.ids() =~= ids_after(old(self).ids(), us, m));
            assert(self.kings() =~= kings_after(old(self).kings(), old(self).locs(), us, m));
        }
    }

    /// Plays an en passant capture.
    fn apply_en_passant(&mut self, m: HyperMove, us: Player)
        requires
            old(self).wf(),
            us == old(self).side(),
            !is_castle_move(m),
            is_ep_move(m),
            old(self).move_ok(m),
        ensures
            final(self).wf(),
            final(self).frame_eq(*old(self)),
            final(self).locs() == locs_after(old(self).locs(), us, m),
            final(self).ids() == ids_after(old(self).ids(), us, m),
            final(self).kings() == kings_after(old(self).kings(), old(self).locs(), us, m),
            final(self).st().castling.0 == castling_after(old(self).st().castling.0, us, m),
            final(self).st().ep_square.0 == 144,
            final(self).st().captured_piece == captured_by(old(self).locs(), us, m),
            final(self).st().captured_identity == captured_id_by(old(self).locs(), old(self).ids(), us, m),
            final(self).hash_rest() == old(self).hash_rest(),
    {
        proof {
            super::lemma_slots();
        }
        let them = us.other_player();
        let src = m.get_src();
        let dst = m.get_dest();
        let piece = self.piece_locs.piece_at(src);
        let piece_type = piece.type_of();
        let captured_sq = SQ((dst.0 as i16 - us.pawn_push()) as u8);
        let captured = self.piece_locs.piece_at(captured_sq);
        self.state.captured_piece = captured;
        self.state.captured_identity = self.remove_piece_with_id(
            captured_sq,
            captured,
            them,
            PieceType::P,
        );
        let moving_identity = self.remove_piece_with_id(src, piece, us, piece_type);
        self.place_piece_with_id(dst, piece, us, piece_type, moving_identity);
        self.state.ep_square = SQ(144);
        proof {
            assert(self.locs() =~= locs_after(old(self).locs(), us, m));
            assert(self.ids() =~= ids_after(old(self).ids(), us, m));
        }
    }

    /// Plays an ordinary move: a capture, push or promotion.
    fn apply_plain(&mut self, m: HyperMove, us: Player)
        requires
            old(self).wf(),
            us == old(self).side(),
            !is_castle_move(m),
            !is_ep_move(m),
            old(self).move_ok(m),
        ensures
            final(self).wf(),
            final(self).turn == old(self).turn,
            final(self).ply == old(self).ply,
            final(self).history@ == old(self).history@,
            final(self).state.prev == old(self).state.prev,
            final(self).state.last_move == old(self).state.last_move,
            final(self).state.fullmove == old(self).state.fullmove,
            final(self).locs() == locs_after(old(self).locs(), us, m),
            final(self).ids() == ids_after(old(self).ids(), us, m),
            final(self).kings() == kings_after(old(self).kings(), old(self).locs(), us, m),
            final(self).st().castling.0 == castling_after(old(self).st().castling.0, us, m),
            final(self).st().ep_square.0 == ep_after(m),
            final(self).st().captured_piece == captured_by(old(self).locs(), us, m),
            final(self).st().captured_identity == captured_id_by(old(self).locs(), old(self).ids(), us, m),
            final(self).hash_rest() == old(self).hash_rest() ^ ep_part(ep_after(m)),
    {
        proof {
            super::lemma_slots();
        }
        let src = m.get_src();
        let dst = m.get_dest();
        let piece = self.piece_locs.piece_at(src);
        let piece_type = piece.type_of();
        let captured = self.piece_locs.piece_at(dst);
        self.state.captured_piece = captured;
        if captured != Piece::Empty {
            let cap_player = captured.player_lossy();
            let cap_type = captured.type_of();
            assert(piece_of(cap_player, cap_type) == captured);
            self.state.captured_identity = self.remove_piece_with_id(
                dst,
                captured,
                cap_player,
                cap_type,
            );
            self.state.rule50 = 0;
        } else {
            self.state.captured_identity = NO_PIECE_ID;
        }
        let moving_identity = self.remove_piece_with_id(src, piece, us, piece_type);
        if m.is_promo() {
            let promo_pt = m.promo_piece();
            let promo_piece = Piece::make_lossy(us, promo_pt);
            self.place_piece_with_id(dst, promo_piece, us, promo_pt, moving_identity);
        } else {
            self.place_piece_with_id(dst, piece, us, piece_type, moving_identity);
            if piece_type == PieceType::K {
                self.king_sq.set(us.index(), dst);
            }
        }
        let ghost rest = self.hash_rest();
        if m.is_double_push() {
            let ep_sq = SQ(((src.0 as u16 + dst.0 as u16) / 2) as u8);
            self.state.ep_square = ep_sq;
            let ghost z = self.state.zobrist;
            self.state.zobrist = self.state.zobrist ^ ep_file_key(ep_sq.file_idx());
            proof {
                lemma_xor_facts(z, ep_part(ep_after(m)), pieces_hash(self.locs(), 144));
            }
        } else {
            self.state.ep_square = SQ(144);
            proof {
                lemma_xor_facts(rest, 0, 0);
            }
        }
        self.state.castling.update_for_move(src, dst);
        proof {
            assert(self.locs() =~= locs_after(old(self).locs(), us, m));
            assert(self.ids() =~= ids_after(old(self).ids(), us, m));
            assert(self.kings() =~= kings_after(old(self).kings(), old(self).locs(), us, m));
        }
    }

    /// Applies a move to the board. Saves state for undo.
    pub fn apply_move(&mut self, m: HyperMove)
        requires
            old(self).move_ok(m),
        ensures
            old(self).applied(m, *final(self)),
            old(self).reversible(m) ==> final(self).undo_ok(),
            old(self).hash_ok() ==> final(self).hash_ok(),
    {
        let ghost b0 = *self;
        let rule50 = self.state.rule50;
        let prev_state = BoardState {
            castling: self.state.castling,
            ep_square: self.state.ep_square,
            rule50: self.state.rule50,
            fullmove: self.state.fullmove,
            zobrist: self.state.zobrist,
            captured_piece: self.state.captured_piece,
            captured_identity: self.state.captured_identity,
            checkers: self.state.checkers,
            last_move: self.state.last_move,
            prev: self.state.prev.take(),
        };
        assert(prev_state == b0.st());
        self.state.prev = Some(Box::new(prev_state));
        self.state.last_move = m;
        self.history.push(self.state.zobrist);
        let us = self.turn;
        let them = us.other_player();
        let src = m.get_src();
        let piece_type = self.piece_locs.piece_at(src).type_of();
        self.state.zobrist = self.state.zobrist ^ side_to_move_key();
        if self.state.ep_square.is_okay() {
            self.state.zobrist = self.state.zobrist ^ ep_file_key(self.state.ep_square.file_idx());
        } else {
            proof {
                lemma_xor_facts(b0.st().zobrist ^ side_key(), 0, 0);
            }
        }
        self.state.zobrist = self.state.zobrist ^ castle_rights_key(self.state.castling.0);
        let ghost zc = self.state.zobrist;
        let ghost mid = *self;
        if m.is_castle() {
            self.apply_castle(m, us);
        } else if m.is_en_passant() {
            self.apply_en_passant(m, us);
        } else {
            self.apply_plain(m, us);
        }
        proof {
            lemma_xor_facts(mid.hash_rest(), 0, 0);
        }
        let ghost zd = self.state.zobrist;
        self.state.zobrist = self.state.zobrist ^ castle_rights_key(self.state.castling.0);
        if piece_type == PieceType::P || self.state.captured_piece != Piece::Empty {
            self.state.rule50 = 0;
        } else {
            self.state.rule50 = rule50 + 1;
        }
        if us == Player::Black {
            self.state.fullmove = self.state.fullmove + 1;
        }
        self.turn = them;
        self.ply = self.ply + 1;
        self.state.checkers = self.compute_checkers();
        proof {
            if b0.hash_ok() {
                lemma_position_hash_parts(
                    b0.locs(),
                    b0.st().castling.0,
                    b0.st().ep_square.0 as int,
                    b0.side(),
                );
                lemma_position_hash_parts(
                    self.locs(),
                    self.st().castling.0,
                    self.st().ep_square.0 as int,
                    self.side(),
                );
                lemma_hash_step(
                    b0.st().zobrist,
                    pieces_hash(b0.locs(), 144),
                    castle_key(b0.st().castling.0 as int),
                    ep_part(b0.st().ep_square.0 as int),
                    side_part(us),
                    side_key(),
                    zc,
                    ep_part(ep_after(m)),
                    pieces_hash(self.locs(), 144),
                    zd,
                    castle_key(self.st().castling.0 as int),
                    side_part(them),
                );
            }
        }
    }
}

/// How the hash moves through one move: the stored hash `z0` of a position
/// (pieces, castling, en passant, side parts) becomes, once the side key and
/// the old en passant and castling keys are toggled, the pieces moved (with
/// the new en passant key) and the new castling key toggled, the hash of the
/// new position.
proof fn lemma_hash_step(
    z0: u64,
    ph0: u64,
    ck0: u64,
    e0: u64,
    s0: u64,
    sk: u64,
    zc: u64,
    e1: u64,
    ph1: u64,
    zd: u64,
    ck1: u64,
    s1: u64,
)
    by (bit_vector)
    requires
        z0 == ((ph0 ^ ck0) ^ e0) ^ s0,
        zc == ((z0 ^ sk) ^ e0) ^ ck0,
        zd ^ ph1 == (zc ^ ph0) ^ e1,
        (s0 == 0 && s1 == sk) || (s0 == sk && s1 == 0),
    ensures
        zd ^ ck1 == ((ph1 ^ ck1) ^ e1) ^ s1,
{
}

impl Board {
    /// Takes back a castle by `us`.
    fn undo_castle(&mut self, m: HyperMove, us: Player)
        requires
            old(self).wf(),
            old(self).undo_ok(),
            is_castle_move(m),
            m == old(self).st().last_move,
            us == opponent(old(self).side()),
        ensures
            final(self).wf(),
            final(self).frame_eq(*old(self)),
            final(self).st().captured_piece == old(self).st().captured_piece,
            final(self).st().captured_identity == old(self).st().captured_identity,
            final(self).locs() == locs_before(old(self).locs(), us, m, old(self).st().captured_piece),
            final(self).ids() == ids_before(
                old(self).ids(),
                us,
                m,
                old(self).st().captured_piece,
                old(self).st().captured_identity,
            ),
            final(self).kings() == kings_before(old(self).kings(), old(self).locs(), us, m),
    {
        proof {
            super::lemma_slots();
        }
        let src = m.get_src();
        let side: usize = if m.is_king_castle() {
            0
        } else {
            1
        };
        let rook_from = SQ(castling_rook_start(us, side));
        let rook_to = SQ(castling_rook_dst(us, side));
        let king_to = SQ(castling_king_dst(us, side));
        let king_piece = self.piece_locs.piece_at(king_to);
        let rook_piece = self.piece_locs.piece_at(rook_to);
        let king_identity = self.remove_piece_with_id(king_to, king_piece, us, PieceType::K);
        self.place_piece_with_id(src, king_piece, us, PieceType::K, king_identity);
        self.king_sq.set(us.index(), src);
        let rook_identity = self.remove_piece_with_id(rook_to, rook_piece, us, PieceType::R);
        self.place_piece_with_id(rook_from, rook_piece, us, PieceType::R, rook_identity);
        proof {
            assert(self.locs() =~= locs_before(old(self).locs(), us, m, old(self).st().captured_piece));
            assert(self.ids() =~= ids_before(
                old(self).ids(),
                us,
                m,
                old(self).st().captured_piece,
                old(self).st().captured_identity,
            ));
            assert(self.kings() =~= kings_before(old(self).kings(), old(self).locs(), us, m));
        }
    }

    /// Takes back an en passant capture by `us`.
    fn undo_en_passant(&mut self, m: HyperMove, us: Player)
        requires
            old(self).wf(),
            old(self).undo_ok(),
            !is_castle_move(m),
            is_ep_move(m),
            m == old(self).st().last_move,
            us == opponent(old(self).side()),
        ensures
            final(self).wf(),
            final(self).frame_eq(*old(self)),
            final(self).st().captured_piece == old(self).st().captured_piece,
            final(self).st().captured_identity == old(self).st().captured_identity,
            final(self).locs() == locs_before(old(self).locs(), us, m, old(self).st().captured_piece),
            final(self).ids() == ids_before(
                old(self).ids(),
                us,
                m,
                old(self).st().captured_piece,
                old(self).st().captured_identity,
            ),
            final(self).kings() == kings_before(old(self).kings(), old(self).locs(), us, m),
    {
        proof {
            super::lemma_slots();
        }
        let them = us.other_player();
        let src = m.get_src();
        let dst = m.get_dest();
        let piece = self.piece_locs.piece_at(dst);
        let moving_identity = self.remove_piece_with_id(dst, piece, us, PieceType::P);
        self.place_piece_with_id(src, piece, us, PieceType::P, moving_identity);
        let captured_sq = SQ((dst.0 as i16 - us.pawn_push()) as u8);
        let cap = self.state.captured_piece;
        let cap_id = self.state.captured_identity;
        self.place_piece_with_id(captured_sq, cap, them, PieceType::P, cap_id);
        proof {
            assert(self.locs() =~= locs_before(old(self).locs(), us, m, old(self).st().captured_piece));
            assert(self.ids() =~= ids_before(
                old(self).ids(),
                us,
                m,
                old(self).st().captured_piece,
                old(self).st().captured_identity,
            ));
        }
    }

    /// Takes back an ordinary move by `us`: the mover returns (a promoted
    /// piece as a pawn) and any captured piece reappears.
    fn undo_plain(&mut self, m: HyperMove, us: Player)
        requires
            old(self).wf(),
            old(self).undo_ok(),
            !is_castle_move(m),
            !is_ep_move(m),
            m == old(self).st().last_move,
            us == opponent(old(self).side()),
        ensures
            final(self).wf(),
            final(self).frame_eq(*old(self)),
            final(self).st().captured_piece == old(self).st().captured_piece,
            final(self).st().captured_identity == old(self).st().captured_identity,
            final(self).locs() == locs_before(old(self).locs(), us, m, old(self).st().captured_piece),
            final(self).ids() == ids_before(
                old(self).ids(),
                us,
                m,
                old(self).st().captured_piece,
                old(self).st().captured_identity,
            ),
            final(self).kings() == kings_before(old(self).kings(), old(self).locs(), us, m),
    {
        proof {
            super::lemma_slots();
        }
        let src = m.get_src();
        let dst = m.get_dest();
        if m.is_promo() {
            let promo_pt = m.promo_piece();
            let promo_piece = Piece::make_lossy(us, promo_pt);
            let moving_identity = self.remove_piece_with_id(dst, promo_piece, us, promo_pt);
            let pawn = Piece::make_lossy(us, PieceType::P);
            self.place_piece_with_id(src, pawn, us, PieceType::P, moving_identity);
        } else {
            let piece = self.piece_locs.piece_at(dst);
            let pt = piece.type_of();
            assert(piece_of(us, pt) == piece);
            let moving_identity = self.remove_piece_with_id(dst, piece, us, pt);
            self.place_piece_with_id(src, piece, us, pt, moving_identity);
            if pt == PieceType::K {
                self.king_sq.set(us.index(), src);
            }
        }
        let cap = self.state.captured_piece;
        if cap != Piece::Empty {
            let cap_player = cap.player_lossy();
            let cap_type = cap.type_of();
            assert(piece_of(cap_player, cap_type) == cap);
            let cap_id = self.state.captured_identity;
            self.place_piece_with_id(dst, cap, cap_player, cap_type, cap_id);
        }
        proof {
            assert(self.locs() =~= locs_before(old(self).locs(), us, m, old(self).st().captured_piece));
            assert(self.ids() =~= ids_before(
                old(self).ids(),
                us,
                m,
                old(self).st().captured_piece,
                old(self).st().captured_identity,
            ));
            assert(self.kings() =~= kings_before(old(self).kings(), old(self).locs(), us, m));
        }
    }

    /// Undoes the last move.
    pub fn undo_move(&mut self)
        requires
            old(self).undo_ok(),
        ensures
            old(self).undone(*final(self)),
    {
        let m = self.state.last_move;
        let us = self.turn.other_player();
        if m.is_castle() {
            self.undo_castle(m, us);
        } else if m.is_en_passant() {
            self.undo_en_passant(m, us);
        } else {
            self.undo_plain(m, us);
        }
        self.history.pop();
        self.ply = self.ply - 1;
        self.turn = us;
        let prev = self.state.prev.take().unwrap();
        self.state = *prev;
    }
}

impl Board {
    /// Applies a null move (the side to move passes).
    pub fn apply_null_move(&mut self)
        requires
            old(self).wf(),
            old(self).king_of(opponent(old(self).side())) < 144,
            old(self).plies() < 0xffff,
            old(self).st().rule50 < 0xffff,
        ensures
            final(self).wf(),
            final(self).locs() == old(self).locs(),
            final(self).ids() == old(self).ids(),
            final(self).kings() == old(self).kings(),
            final(self).hist() == old(self).hist(),
            final(self).side() == opponent(old(self).side()),
            final(self).plies() == old(self).plies() + 1,
            final(self).st().prev == Some(Box::new(old(self).st())),
            final(self).st().last_move.bits() == 0,
            final(self).st().castling == old(self).st().castling,
            final(self).st().ep_square.0 == 144,
            final(self).st().rule50 == old(self).st().rule50 + 1,
            final(self).st().fullmove == old(self).st().fullmove,
            final(self).st().captured_piece == Piece::Empty,
            final(self).st().captured_identity == NO_PIECE_ID,
            forall|s: int|
                #[trigger] final(self).st().checkers.has(s) == attacker_at(
                    final(self).locs(),
                    old(self).side(),
                    s,
                    final(self).king_of(final(self).side()),
                    final(self).occ(),
                ),
            old(self).hash_ok() ==> final(self).hash_ok(),
    {
        let ghost b0 = *self;
        let prev_state = BoardState {
            castling: self.state.castling,
            ep_square: self.state.ep_square,
            rule50: self.state.rule50,
            fullmove: self.state.fullmove,
            zobrist: self.state.zobrist,
            captured_piece: self.state.captured_piece,
            captured_identity: self.state.captured_identity,
            checkers: self.state.checkers,
            last_move: self.state.last_move,
            prev: self.state.prev.take(),
        };
        assert(prev_state == b0.st());
        self.state.prev = Some(Box::new(prev_state));
        self.state.last_move = HyperMove::null();
        self.state.zobrist = self.state.zobrist ^ side_to_move_key();
        if self.state.ep_square.is_okay() {
            self.state.zobrist = self.state.zobrist ^ ep_file_key(self.state.ep_square.file_idx());
            self.state.ep_square = SQ(144);
        } else {
            proof {
                lemma_xor_facts(b0.st().zobrist ^ side_key(), 0, 0);
            }
        }
        self.state.captured_piece = Piece::Empty;
        self.state.captured_identity = NO_PIECE_ID;
        self.state.rule50 = self.state.rule50 + 1;
        self.turn = self.turn.other_player();
        self.ply = self.ply + 1;
        self.state.checkers = self.compute_checkers();
        proof {
            if b0.hash_ok() {
                lemma_position_hash_parts(
                    b0.locs(),
                    b0.st().castling.0,
                    b0.st().ep_square.0 as int,
                    b0.side(),
                );
                lemma_position_hash_parts(
                    self.locs(),
                    self.st().castling.0,
                    self.st().ep_square.0 as int,
                    self.side(),
                );
                lemma_hash_pass(
                    b0.st().zobrist,
                    pieces_hash(b0.locs(), 144),
                    castle_key(b0.st().castling.0 as int),
                    ep_part(b0.st().ep_square.0 as int),
                    side_part(b0.side()),
                    side_key(),
                    side_part(self.side()),
                );
            }
        }
    }

    /// Undoes a null move.
    pub fn undo_null_move(&mut self)
        requires
            old(self).wf(),
            old(self).st().prev is Some,
            old(self).st().prev->0.ep_square.0 <= 144,
            old(self).st().prev->0.castling.0 < 16,
            old(self).plies() > 0,
        ensures
            final(self).wf(),
            final(self).locs() == old(self).locs(),
            final(self).ids() == old(self).ids(),
            final(self).kings() == old(self).kings(),
            final(self).hist() == old(self).hist(),
            final(self).side() == opponent(old(self).side()),
            final(self).plies() == old(self).plies() - 1,
            final(self).st() == *old(self).st().prev->0,
    {
        let prev = self.state.prev.take().unwrap();
        self.ply = self.ply - 1;
        self.turn = self.turn.other_player();
        self.state = *prev;
    }
}

/// Passing and then taking the pass back restores the position, the game
/// state and the side to move.
pub proof fn lemma_null_move_restores(b0: Board, b1: Board, b2: Board)
    requires
        b0.wf(),
        b1.locs() == b0.locs(),
        b1.ids() == b0.ids(),
        b1.kings() == b0.kings(),
        b1.hist() == b0.hist(),
        b1.side() == opponent(b0.side()),
        b1.plies() == b0.plies() + 1,
        b1.st().prev == Some(Box::new(b0.st())),
        b2.locs() == b1.locs(),
        b2.ids() == b1.ids(),
        b2.kings() == b1.kings(),
        b2.hist() == b1.hist(),
        b2.side() == opponent(b1.side()),
        b2.plies() == b1.plies() - 1,
        b2.st() == *b1.st().prev->0,
    ensures
        b2.locs() == b0.locs(),
        b2.ids() == b0.ids(),
        b2.kings() == b0.kings(),
        b2.hist() == b0.hist(),
        b2.side() == b0.side(),
        b2.plies() == b0.plies(),
        b2.st() == b0.st(),
{
}

/// Taking back a move restores the position it was played from: the pieces,
/// their identities, the side to move, the king squares, the ply counter,
/// the game state and the history of earlier positions.
pub proof fn lemma_undo_restores(b0: Board, m: HyperMove, b1: Board, b2: Board)
    requires
        b0.move_ok(m),
        b0.reversible(m),
        b0.applied(m, b1),
        b1.undone(b2),
    ensures
        b2.wf(),
        b2.locs() == b0.locs(),
        b2.ids() == b0.ids(),
        b2.side() == b0.side(),
        b2.kings() == b0.kings(),
        b2.plies() == b0.plies(),
        b2.st() == b0.st(),
        b2.hist() == b0.hist(),
{
    super::lemma_slots();
    let us = b0.side();
    let locs0 = b0.locs();
    let ids0 = b0.ids();
    let src = m.src_index();
    let dst = m.dst_index();
    assert(b0.wf());
    assert(ids0.len() == 144 && locs0.len() == 144);
    if is_castle_move(m) {
        assert(b2.locs() =~= locs0);
        assert(b2.ids() =~= ids0);
        assert(b2.kings() =~= b0.kings());
    } else if is_ep_move(m) {
        assert(b2.locs() =~= locs0);
        assert(b2.ids() =~= ids0);
        assert(b2.kings() =~= b0.kings());
    } else {
        assert(b2.locs() =~= locs0);
        assert forall|s: int| 0 <= s < ids0.len() implies b2.ids()[s] == ids0[s] by {
            if s == dst && locs0[dst] == Piece::Empty {
                assert(ids0[dst] == NO_PIECE_ID);
            }
        }
        assert(b2.ids() =~= ids0);
        assert(b2.kings() =~= b0.kings());
    }
    assert(b2.hist() =~= b0.hist());
}

/// How the hash moves through a pass: the side key and the old en passant
/// key are toggled.
proof fn lemma_hash_pass(z0: u64, ph: u64, ck: u64, e0: u64, s0: u64, sk: u64, s1: u64)
    by (bit_vector)
    requires
        z0 == ((ph ^ ck) ^ e0) ^ s0,
        (s0 == 0 && s1 == sk) || (s0 == sk && s1 == 0),
    ensures
        (z0 ^ sk) ^ e0 == ((ph ^ ck) ^ 0) ^ s1,
{
}

/// Clearing bits of a rights word.
proof fn lemma_clear_bits(x: u8, c: u8)
    by (bit_vector)
    ensures
        (x & !12u8) & 12u8 == 0,
        x & !c == 0 ==> (x & !12u8) & !c == 0,
        x & 3u8 == 0 ==> (x & !12u8) & 3u8 == 0,
        x & 8u8 == 0 ==> (x & !12u8) & 8u8 == 0,
        x & 4u8 == 0 ==> (x & !12u8) & 4u8 == 0,
        x & 2u8 == 0 ==> (x & !12u8) & 2u8 == 0,
        x & 1u8 == 0 ==> (x & !12u8) & 1u8 == 0,
        (x & !12u8) & !x == 0,
        (x & !3u8) & 3u8 == 0,
        x & !c == 0 ==> (x & !3u8) & !c == 0,
        x & 12u8 == 0 ==> (x & !3u8) & 12u8 == 0,
        x & 8u8 == 0 ==> (x & !3u8) & 8u8 == 0,
        x & 4u8 == 0 ==> (x & !3u8) & 4u8 == 0,
        x & 2u8 == 0 ==> (x & !3u8) & 2u8 == 0,
        x & 1u8 == 0 ==> (x & !3u8) & 1u8 == 0,
        (x & !3u8) & !x == 0,
        (x & !8u8) & 8u8 == 0,
        x & !c == 0 ==> (x & !8u8) & !c == 0,
        x & 12u8 == 0 ==> (x & !8u8) & 12u8 == 0,
        x & 3u8 == 0 ==> (x & !8u8) & 3u8 == 0,
        x & 4u8 == 0 ==> (x & !8u8) & 4u8 == 0,
        x & 2u8 == 0 ==> (x & !8u8) & 2u8 == 0,
        x & 1u8 == 0 ==> (x & !8u8) & 1u8 == 0,
        (x & !8u8) & !x == 0,
        (x & !4u8) & 4u8 == 0,
        x & !c == 0 ==> (x & !4u8) & !c == 0,
        x & 12u8 == 0 ==> (x & !4u8) & 12u8 == 0,
        x & 3u8 == 0 ==> (x & !4u8) & 3u8 == 0,
        x & 8u8 == 0 ==> (x & !4u8) & 8u8 == 0,
        x & 2u8 == 0 ==> (x & !4u8) & 2u8 == 0,
        x & 1u8 == 0 ==> (x & !4u8) & 1u8 == 0,
        (x & !4u8) & !x == 0,
        (x & !2u8) & 2u8 == 0,
        x & !c == 0 ==> (x & !2u8) & !c == 0,
        x & 12u8 == 0 ==> (x & !2u8) & 12u8 == 0,
        x & 3u8 == 0 ==> (x & !2u8) & 3u8 == 0,
        x & 8u8 == 0 ==> (x & !2u8) & 8u8 == 0,
        x & 4u8 == 0 ==> (x & !2u8) & 4u8 == 0,
        x & 1u8 == 0 ==> (x & !2u8) & 1u8 == 0,
        (x & !2u8) & !x == 0,
        (x & !1u8) & 1u8 == 0,
        x & !c == 0 ==> (x & !1u8) & !c == 0,
        x & 12u8 == 0 ==> (x & !1u8) & 12u8 == 0,
        x & 3u8 == 0 ==> (x & !1u8) & 3u8 == 0,
        x & 8u8 == 0 ==> (x & !1u8) & 8u8 == 0,
        x & 4u8 == 0 ==> (x & !1u8) & 4u8 == 0,
        x & 2u8 == 0 ==> (x & !1u8) & 2u8 == 0,
        (x & !1u8) & !x == 0,
{
}

/// What a move does to the castling rights: none is ever gained; a castle
/// gives up both rights of the side that castles; any other move (but an en
/// passant capture) from or to a king's start square (g2, g11) gives up both
/// rights of that king's side, and from or to a rook's start square (j2, c2,
/// j11, c11) the right of that rook.
pub proof fn lemma_castling_rights_after(c: u8, us: Player, m: HyperMove)
    ensures
        castling_after(c, us, m) & !c == 0,
        is_castle_move(m) ==> castling_after(c, us, m) & (if us == Player::White {
            12u8
        } else {
            3u8
        }) == 0,
        !is_castle_move(m) && !is_ep_move(m) ==> {
            let r = castling_after(c, us, m);
            let s = m.src_index();
            let d = m.dst_index();
            &&& (s == 18 || d == 18) ==> r & 12 == 0
            &&& (s == 126 || d == 126) ==> r & 3 == 0
            &&& (s == 21 || d == 21) ==> r & 8 == 0
            &&& (s == 14 || d == 14) ==> r & 4 == 0
            &&& (s == 129 || d == 129) ==> r & 2 == 0
            &&& (s == 122 || d == 122) ==> r & 1 == 0
        },
{
    assert(c & !c == 0) by (bit_vector);
    if is_castle_move(m) {
        lemma_clear_bits(c, c);
    } else if !is_ep_move(m) {
        let from = m.src_index();
        let to = m.dst_index();
        let r1 = if from == 18 || to == 18 { c & !12u8 } else { c };
        let r2 = if from == 126 || to == 126 { r1 & !3u8 } else { r1 };
        let r3 = if from == 21 || to == 21 { r2 & !8u8 } else { r2 };
        let r4 = if from == 14 || to == 14 { r3 & !4u8 } else { r3 };
        let r5 = if from == 129 || to == 129 { r4 & !2u8 } else { r4 };
        let r6 = if from == 122 || to == 122 { r5 & !1u8 } else { r5 };
        assert(castling_after(c, us, m) == r6);
        lemma_clear_bits(c, c);
        lemma_clear_bits(r1, c);
        lemma_clear_bits(r2, c);
        lemma_clear_bits(r3, c);
        lemma_clear_bits(r4, c);
        lemma_clear_bits(r5, c);
    }
}

/// After a move on a board, the castling rights are those the move leaves:
/// none gained, a castle or a move from or to a king's or rook's start
/// square gives up the rights it touches (en passant captures aside).
pub proof fn lemma_applied_castling(b: Board, m: HyperMove, a: Board)
    requires
        b.applied(m, a),
    ensures
        a.st().castling.0 & !b.st().castling.0 == 0,
        !is_castle_move(m) && !is_ep_move(m) && (m.src_index() == 21 || m.dst_index() == 21) ==> a.st().castling.0
            & 8 == 0,
        !is_castle_move(m) && !is_ep_move(m) && (m.src_index() == 14 || m.dst_index() == 14) ==> a.st().castling.0
            & 4 == 0,
        !is_castle_move(m) && !is_ep_move(m) && (m.src_index() == 129 || m.dst_index() == 129)
            ==> a.st().castling.0 & 2 == 0,
        !is_castle_move(m) && !is_ep_move(m) && (m.src_index() == 122 || m.dst_index() == 122)
            ==> a.st().castling.0 & 1 == 0,
        !is_castle_move(m) && !is_ep_move(m) && (m.src_index() == 18 || m.dst_index() == 18) ==> a.st().castling.0
            & 12 == 0,
        !is_castle_move(m) && !is_ep_move(m) && (m.src_index() == 126 || m.dst_index() == 126)
            ==> a.st().castling.0 & 3 == 0,
{
    lemma_castling_rights_after(b.st().castling.0, b.side(), m);
}

} // verus!
