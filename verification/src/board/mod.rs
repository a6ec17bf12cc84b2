//! Board representation for HyperChess.
//!
//! The `Board` type and its core accessors live here; behaviorally distinct
//! concerns are split into focused submodules:
//!
//! * [`move_apply`] — `apply_move` / `undo_move` / null moves.
//! * [`attacks`]    — attacker queries and check detection.
//! * [`draw_rules`] — checkmate/stalemate, repetition, insufficient material.
//! * [`display`]    — human-readable rendering.
//! * [`movegen`]    — legal move generation.

pub mod attacks;
pub mod board_state;
pub mod castle_rights;
pub mod display;
pub mod draw_rules;
pub mod hfen;
pub mod hfen_laws;
pub mod move_apply;
pub mod movegen;
pub mod perft;
pub mod perft_laws;
pub mod play_laws;
pub mod piece_locations;

use vstd::prelude::*;

use crate::core_types::bitboard::BitBoard;
use crate::core_types::piece::{
    owner_lossy, owner_of, piece_char, piece_index, piece_of, type_of_piece, Piece,
};
use crate::core_types::piece_identity::NO_PIECE_ID;
use crate::core_types::piece_move::HyperMove;
use crate::core_types::piece_type::{is_real_type, pt_index, PieceType};
use crate::core_types::player::{opponent, pawn_push_of, player_index, Player};
use crate::core_types::sq::{sq_file, SQ};
use crate::text::split_ws;
use crate::helper::zobrist::{
    castle_key, castle_rights_key, ep_file_key, ep_key, piece_key, piece_square_key, side_key,
    side_to_move_key, VERSION_SALT,
};

use board_state::BoardState;
use castle_rights::{castle_bits_of, CastleRights};
use hfen::{decode_position, ep_square_of, hfen_fullmove, hfen_ok, hfen_rule50, parse_hfen, split_on, turn_of};
use piece_locations::PieceLocations;

verus! {

/// Where the bitboard of the pieces of `p` of kind `t` is kept.
pub open spec fn slot(p: Player, t: PieceType) -> int {
    player_index(p) * 10 + pt_index(t)
}

/// The hash of the pieces on the first `n` squares, starting from the salt.
pub open spec fn pieces_hash(locs: Seq<Piece>, n: int) -> u64
    decreases n,
{
    if n <= 0 {
        VERSION_SALT
    } else if locs[n - 1] != Piece::Empty {
        pieces_hash(locs, n - 1) ^ piece_key(locs[n - 1], n - 1)
    } else {
        pieces_hash(locs, n - 1)
    }
}

/// The full Zobrist hash of a position: pieces, castling rights, en passant
/// file and side to move.
pub open spec fn position_hash(locs: Seq<Piece>, castling: u8, ep: int, turn: Player) -> u64 {
    let z = pieces_hash(locs, 144) ^ castle_key(castling as int);
    let z = if 0 <= ep < 144 {
        z ^ ep_key(sq_file(ep))
    } else {
        z
    };
    if turn == Player::Black {
        z ^ side_key()
    } else {
        z
    }
}

/// The en passant part of [`position_hash`]: the key of the file passed
/// over, or nothing.
pub open spec fn ep_part(ep: int) -> u64 {
    if 0 <= ep < 144 {
        ep_key(sq_file(ep))
    } else {
        0
    }
}

/// The side-to-move part of [`position_hash`].
pub open spec fn side_part(turn: Player) -> u64 {
    if turn == Player::Black {
        side_key()
    } else {
        0
    }
}

/// The xor identities the incremental hash rests on.
pub(crate) proof fn lemma_xor_facts(a: u64, b: u64, c: u64)
    by (bit_vector)
    ensures
        a ^ 0 == a,
        (a ^ b) ^ b == a,
        (a ^ b) ^ c == (a ^ c) ^ b,
        (a ^ b) ^ (c ^ b) == a ^ c,
{
}

/// [`position_hash`] is the xor of its four parts.
pub proof fn lemma_position_hash_parts(locs: Seq<Piece>, castling: u8, ep: int, turn: Player)
    ensures
        position_hash(locs, castling, ep, turn) == pieces_hash(locs, 144) ^ castle_key(
            castling as int,
        ) ^ ep_part(ep) ^ side_part(turn),
{
    let z = pieces_hash(locs, 144) ^ castle_key(castling as int);
    lemma_xor_facts(z, 0, 0);
    lemma_xor_facts(z ^ ep_part(ep), 0, 0);
}

/// Putting `p` on the empty square `s`, or taking it off, toggles the key
/// of `p` on `s` in the hash of every prefix that covers `s`.
proof fn lemma_pieces_hash_toggle(before: Seq<Piece>, after: Seq<Piece>, s: int, p: Piece, n: int)
    requires
        0 <= s,
        p != Piece::Empty,
        forall|i: int| 0 <= i < n && i != s ==> before[i] == after[i],
        (before[s] == Piece::Empty && after[s] == p) || (before[s] == p && after[s]
            == Piece::Empty),
    ensures
        pieces_hash(after, n) == if n > s {
            pieces_hash(before, n) ^ piece_key(p, s)
        } else {
            pieces_hash(before, n)
        },
    decreases n,
{
    if n > 0 {
        lemma_pieces_hash_toggle(before, after, s, p, n - 1);
        let a = pieces_hash(before, n - 1);
        let k = piece_key(p, s);
        if n - 1 > s {
            lemma_xor_facts(a, k, piece_key(before[n - 1], n - 1));
        } else if n - 1 == s {
            lemma_xor_facts(a, k, 0);
        }
    }
}

/// The HFEN character of the square holding `p` with identity `id`: the
/// identity when one is tracked, else the piece's letter.
pub open spec fn hfen_char_of(p: Piece, id: char) -> Option<char> {
    if id != NO_PIECE_ID {
        Some(id)
    } else if p != Piece::Empty {
        Some(piece_char(p))
    } else {
        None
    }
}

/// Each piece bitboard holds exactly the squares of its player's pieces of
/// its kind.
pub open spec fn bbs_match(bbs: Seq<BitBoard>, locs: Seq<Piece>) -> bool {
    forall|p: Player, t: PieceType, s: int|
        #[trigger] bbs[slot(p, t)].has(s) == (0 <= s < 144 && is_real_type(t) && locs[s]
            == piece_of(p, t))
}

/// Each player's occupancy holds exactly the squares of that player's pieces.
pub open spec fn occ_match(occ: Seq<BitBoard>, locs: Seq<Piece>) -> bool {
    forall|p: Player, s: int|
        #[trigger] occ[player_index(p)].has(s) == (0 <= s < 144 && owner_of(locs[s]) == Some(p))
}

/// A change at one square of the map, mirrored in the bitboard of the piece
/// involved and in its player's occupancy, keeps both in step.
proof fn lemma_bitboards_follow(
    bbs0: Seq<BitBoard>,
    bbs1: Seq<BitBoard>,
    occ0: Seq<BitBoard>,
    occ1: Seq<BitBoard>,
    locs0: Seq<Piece>,
    locs1: Seq<Piece>,
    sq: int,
    piece: Piece,
    player: Player,
    pt: PieceType,
    adding: bool,
)
    requires
        bbs_match(bbs0, locs0),
        occ_match(occ0, locs0),
        bbs0.len() == 20,
        occ0.len() == 2,
        locs0.len() == 144,
        0 <= sq < 144,
        is_real_type(pt),
        piece == piece_of(player, pt),
        adding ==> locs0[sq] == Piece::Empty && locs1 == locs0.update(sq, piece),
        !adding ==> locs0[sq] == piece && locs1 == locs0.update(sq, Piece::Empty),
        bbs1.len() == 20,
        forall|i: int| 0 <= i < 20 && i != slot(player, pt) ==> bbs1[i] == bbs0[i],
        forall|x: int|
            #[trigger] bbs1[slot(player, pt)].has(x) == (if x == sq {
                adding
            } else {
                bbs0[slot(player, pt)].has(x)
            }),
        occ1.len() == 2,
        forall|i: int| 0 <= i < 2 && i != player_index(player) ==> occ1[i] == occ0[i],
        forall|x: int|
            #[trigger] occ1[player_index(player)].has(x) == (if x == sq {
                adding
            } else {
                occ0[player_index(player)].has(x)
            }),
    ensures
        bbs_match(bbs1, locs1),
        occ_match(occ1, locs1),
{
    lemma_slots();
    assert forall|p: Player, t: PieceType, s: int|
        #[trigger] bbs1[slot(p, t)].has(s) == (0 <= s < 144 && is_real_type(t) && locs1[s]
            == piece_of(p, t)) by {
        assert(bbs0[slot(p, t)].has(s) == (0 <= s < 144 && is_real_type(t) && locs0[s] == piece_of(p, t)));
        if slot(p, t) != slot(player, pt) {
            assert(bbs1[slot(p, t)] == bbs0[slot(p, t)]);
        }
        if is_real_type(t) {
            assert(owner_of(piece_of(p, t)) == Some(p));
            assert(type_of_piece(piece_of(p, t)) == t);
        }
    }
    assert forall|p: Player, s: int|
        #[trigger] occ1[player_index(p)].has(s) == (0 <= s < 144 && owner_of(locs1[s]) == Some(p)) by {
        assert(occ0[player_index(p)].has(s) == (0 <= s < 144 && owner_of(locs0[s]) == Some(p)));
        if p != player {
            assert(occ1[player_index(p)] == occ0[player_index(p)]);
        }
    }
}

/// The square-to-piece map of a list of placed pieces.
pub open spec fn layout(pieces: Seq<(SQ, Piece, char)>) -> Seq<Piece>
    decreases pieces.len(),
{
    if pieces.len() == 0 {
        Seq::new(144, |i: int| Piece::Empty)
    } else {
        layout(pieces.drop_last()).update(pieces.last().0.0 as int, pieces.last().1)
    }
}

/// The identity map of a list of placed pieces.
pub open spec fn id_layout(pieces: Seq<(SQ, Piece, char)>) -> Seq<char>
    decreases pieces.len(),
{
    if pieces.len() == 0 {
        Seq::new(144, |i: int| NO_PIECE_ID)
    } else {
        id_layout(pieces.drop_last()).update(pieces.last().0.0 as int, pieces.last().2)
    }
}

/// The king squares of a list of placed pieces: each side's last king, 144
/// for a side without one.
pub open spec fn king_layout(pieces: Seq<(SQ, Piece, char)>) -> Seq<SQ>
    decreases pieces.len(),
{
    if pieces.len() == 0 {
        seq![SQ(144), SQ(144)]
    } else if type_of_piece(pieces.last().1) == PieceType::K {
        king_layout(pieces.drop_last()).update(
            player_index(owner_lossy(pieces.last().1)),
            pieces.last().0,
        )
    } else {
        king_layout(pieces.drop_last())
    }
}

/// An HFEN text can start a game: it is well formed and the side to move
/// has a king.
pub open spec fn hfen_start_ok(s: Seq<char>) -> bool {
    let parts = split_ws(s);
    &&& hfen_ok(s)
    &&& king_layout(decode_position(parts[0])->0)[player_index(turn_of(parts[1])->0)].0 < 144
}

/// `b` is the fresh board an HFEN text describes: its pieces, identities and
/// kings as the position field places them, the side, castling rights, en
/// passant square and counters of the other fields, its hash and checkers
/// computed from these, and no history.
pub open spec fn hfen_board(s: Seq<char>, b: Board) -> bool {
    let parts = split_ws(s);
    let pieces = decode_position(parts[0])->0;
    &&& hfen_start_ok(s)
    &&& b.ready()
    &&& b.locs() == layout(pieces)
    &&& b.ids() == id_layout(pieces)
    &&& b.kings() == king_layout(pieces)
    &&& Some(b.side()) == turn_of(parts[1])
    &&& b.st().castling.0 == (if parts[2] == seq!['-'] {
        0u8
    } else {
        castle_bits_of(parts[2])
    })
    &&& b.st().ep_square.0 == ep_square_of(parts[3])
    &&& b.st().rule50 == hfen_rule50(s)
    &&& b.st().fullmove == hfen_fullmove(s)
    &&& b.st().zobrist == position_hash(b.locs(), b.st().castling.0, b.st().ep_square.0 as int, b.side())
    &&& forall|sq: int|
        #[trigger] b.st().checkers.has(sq) == crate::board::attacks::attacker_at(
            b.locs(),
            opponent(b.side()),
            sq,
            b.king_of(b.side()),
            b.occ(),
        )
    &&& b.plies() == 0
    &&& b.hist() == Seq::<u64>::empty()
    &&& b.st().prev is None
}

/// The HyperChess board.
#[derive(Clone, Debug)]
pub struct Board {
    /// Bitboards per player and piece type, at [`slot`].
    pub(crate) piece_bbs: Vec<BitBoard>,
    /// Occupancy per player.
    pub(crate) occ_player: Vec<BitBoard>,
    /// Total occupancy.
    pub(crate) occ_all: BitBoard,
    /// Square-to-piece map.
    pub(crate) piece_locs: PieceLocations,
    /// Square-to-HFEN-I identity map. `NO_PIECE_ID` means no identity is tracked.
    pub(crate) piece_ids: Vec<char>,
    /// Side to move.
    pub(crate) turn: Player,
    /// Current game state (castling, ep, zobrist, etc.).
    pub state: BoardState,
    /// King squares per player (144 when a side has no king).
    pub(crate) king_sq: Vec<SQ>,
    /// Ply count from root.
    pub(crate) ply: u16,
    /// Zobrist hashes of positions seen this game (for repetition detection).
    pub history: Vec<u64>,
}

/// Facts about the bitboard slots and piece encodings.
pub proof fn lemma_slots()
    ensures
        forall|p1: Player, t1: PieceType, p2: Player, t2: PieceType|
            #[trigger] slot(p1, t1) == #[trigger] slot(p2, t2) ==> p1 == p2 && t1 == t2,
        forall|p: Player, t: PieceType| 0 <= #[trigger] slot(p, t) < 20,
        forall|p: Player, t: PieceType|
            is_real_type(t) ==> owner_of(#[trigger] piece_of(p, t)) == Some(p) && type_of_piece(
                piece_of(p, t),
            ) == t,
        forall|x: Piece|
            x != Piece::Empty ==> #[trigger] piece_of(owner_of(x)->0, type_of_piece(x)) == x
                && is_real_type(type_of_piece(x)),
{
}

impl Board {
    /// The piece on each square.
    pub open(crate) spec fn locs(self) -> Seq<Piece> {
        self.piece_locs@
    }

    /// The identity character of each square.
    pub open(crate) spec fn ids(self) -> Seq<char> {
        self.piece_ids@
    }

    /// The side to move.
    pub open(crate) spec fn side(self) -> Player {
        self.turn
    }

    /// The king square of each player.
    pub open(crate) spec fn kings(self) -> Seq<SQ> {
        self.king_sq@
    }

    /// The ply counter.
    pub open(crate) spec fn plies(self) -> u16 {
        self.ply
    }

    /// The occupied squares.
    pub open(crate) spec fn occ(self) -> BitBoard {
        self.occ_all
    }

    /// The game state.
    pub open(crate) spec fn st(self) -> BoardState {
        self.state
    }

    /// The hashes of the earlier positions.
    pub open(crate) spec fn hist(self) -> Seq<u64> {
        self.history@
    }

    /// The two boards agree on the side to move, the counters, the history
    /// and the undo bookkeeping.
    pub open(crate) spec fn frame_eq(self, other: Board) -> bool {
        &&& self.turn == other.turn
        &&& self.ply == other.ply
        &&& self.history@ == other.history@
        &&& self.state.prev == other.state.prev
        &&& self.state.last_move == other.state.last_move
        &&& self.state.rule50 == other.state.rule50
        &&& self.state.fullmove == other.state.fullmove
        &&& self.state.checkers == other.state.checkers
    }

    /// The king square of `p` as an integer.
    pub open spec fn king_of(self, p: Player) -> int {
        self.kings()[player_index(p)].0 as int
    }

    /// The internal bookkeeping agrees with the square-to-piece map.
    pub open(crate) spec fn wf(self) -> bool {
        &&& self.piece_locs@.len() == 144
        &&& self.piece_ids@.len() == 144
        &&& self.piece_bbs@.len() == 20
        &&& self.occ_player@.len() == 2
        &&& self.king_sq@.len() == 2
        &&& forall|i: int| 0 <= i < 20 ==> (#[trigger] self.piece_bbs@[i]).valid()
        &&& bbs_match(self.piece_bbs@, self.piece_locs@)
        &&& forall|i: int| 0 <= i < 2 ==> (#[trigger] self.occ_player@[i]).valid()
        &&& occ_match(self.occ_player@, self.piece_locs@)
        &&& self.occ_all.valid()
        &&& forall|s: int|
            #[trigger] self.occ_all.has(s) == (0 <= s < 144 && self.piece_locs@[s] != Piece::Empty)
        &&& forall|s: int|
            0 <= s < 144 && #[trigger] self.piece_locs@[s] == Piece::Empty ==> self.piece_ids@[s]
                == NO_PIECE_ID
        &&& forall|i: int| 0 <= i < 2 ==> (#[trigger] self.king_sq@[i]).0 <= 144
        &&& self.state.ep_square.0 <= 144
        &&& self.state.castling.0 < 16
    }

    /// The part of the stored hash that the pieces do not account for.
    pub open(crate) spec fn hash_rest(self) -> u64 {
        self.st().zobrist ^ pieces_hash(self.locs(), 144)
    }

    /// The stored hash is the hash of the position computed from scratch.
    pub open spec fn hash_ok(self) -> bool {
        self.st().zobrist == position_hash(
            self.locs(),
            self.st().castling.0,
            self.st().ep_square.0 as int,
            self.side(),
        )
    }

    /// A well-formed board whose side to move has a king square.
    pub open spec fn ready(self) -> bool {
        self.wf() && self.king_of(self.side()) < 144
    }

    /// Returns the side to move.
    pub fn turn(&self) -> (r: Player)
        ensures
            r == self.side(),
    {
        self.turn
    }

    /// Returns the piece at a square.
    pub fn piece_at(&self, sq: SQ) -> (r: Piece)
        requires
            self.wf(),
            sq.0 < 144,
        ensures
            r == self.locs()[sq.0 as int],
    {
        self.piece_locs.piece_at(sq)
    }

    /// The square of the pawn removed by an en-passant capture `m` (the
    /// square directly behind the destination, from the mover's perspective).
    pub fn ep_captured_sq(&self, m: HyperMove) -> (r: SQ)
        requires
            0 <= m.dst_index() - pawn_push_of(self.side()) < 144,
        ensures
            r.0 == m.dst_index() - pawn_push_of(self.side()),
    {
        SQ((m.get_dest().0 as i16 - self.turn.pawn_push()) as u8)
    }

    /// Returns the piece a move of the side to move captures, or
    /// `Piece::Empty` for non-captures. An en passant capture takes the pawn
    /// behind its (empty) destination.
    pub fn captured_piece_for_move(&self, m: HyperMove) -> (r: Piece)
        requires
            self.wf(),
            m.dst_index() < 144,
            m.flag_bits() == 5 ==> 0 <= m.dst_index() - pawn_push_of(self.side()) < 144,
        ensures
            r == (if m.flag_bits() == 5 {
                self.locs()[m.dst_index() - pawn_push_of(self.side())]
            } else {
                self.locs()[m.dst_index()]
            }),
    {
        if m.is_en_passant() {
            self.piece_at(self.ep_captured_sq(m))
        } else {
            self.piece_at(m.get_dest())
        }
    }

    /// Returns the stable HFEN-I identity at a square, if one is tracked.
    pub fn piece_identity_at(&self, sq: SQ) -> (r: Option<char>)
        requires
            self.wf(),
            sq.0 < 144,
        ensures
            r == (if self.ids()[sq.0 as int] == NO_PIECE_ID {
                None
            } else {
                Some(self.ids()[sq.0 as int])
            }),
    {
        let id = self.piece_ids[sq.0 as usize];
        if id == NO_PIECE_ID {
            None
        } else {
            Some(id)
        }
    }

    /// Returns the character to serialize for a square in HFEN/HFEN-I.
    pub fn piece_hfen_char_at(&self, sq: SQ) -> (r: Option<char>)
        requires
            self.wf(),
            sq.0 < 144,
        ensures
            r == hfen_char_of(self.locs()[sq.0 as int], self.ids()[sq.0 as int]),
    {
        match self.piece_identity_at(sq) {
            Some(c) => Some(c),
            None => self.piece_at(sq).character(),
        }
    }

    /// Returns the king square for a player (144 when it has no king).
    pub fn king_sq(&self, player: Player) -> (r: SQ)
        requires
            self.wf(),
        ensures
            r.0 == self.king_of(player),
    {
        self.king_sq[player.index()]
    }

    /// Returns the bitboard of a piece type for a player.
    pub fn piece_bb(&self, player: Player, pt: PieceType) -> (r: BitBoard)
        requires
            self.wf(),
        ensures
            r.valid(),
            forall|s: int|
                #[trigger] r.has(s) == (0 <= s < 144 && is_real_type(pt) && self.locs()[s]
                    == piece_of(player, pt)),
    {
        proof {
            lemma_slots();
        }
        let r = self.piece_bbs[player.index() * 10 + pt.index()];
        assert(r == self.piece_bbs@[slot(player, pt)]);
        r
    }

    /// Returns the combined bitboard for two piece types for a player.
    pub fn piece_bb2(&self, player: Player, pt1: PieceType, pt2: PieceType) -> (r: BitBoard)
        requires
            self.wf(),
        ensures
            r.valid(),
            forall|s: int|
                #[trigger] r.has(s) == (0 <= s < 144 && ((is_real_type(pt1) && self.locs()[s]
                    == piece_of(player, pt1)) || (is_real_type(pt2) && self.locs()[s] == piece_of(
                    player,
                    pt2,
                )))),
    {
        self.piece_bb(player, pt1).or_bb(self.piece_bb(player, pt2))
    }

    /// Returns occupancy for a player.
    pub fn occupied_player(&self, player: Player) -> (r: BitBoard)
        requires
            self.wf(),
        ensures
            r.valid(),
            forall|s: int|
                #[trigger] r.has(s) == (0 <= s < 144 && owner_of(self.locs()[s]) == Some(player)),
    {
        self.occ_player[player.index()]
    }

    /// Returns total occupancy.
    pub fn occupied(&self) -> (r: BitBoard)
        requires
            self.wf(),
        ensures
            r == self.occ(),
            r.valid(),
            forall|s: int| #[trigger] r.has(s) == (0 <= s < 144 && self.locs()[s] != Piece::Empty),
    {
        self.occ_all
    }

    /// Returns the bitboard of checkers to the side to move.
    pub fn checkers(&self) -> (r: BitBoard)
        ensures
            r == self.st().checkers,
    {
        self.state.checkers
    }

    /// Returns true if the side to move is in check.
    pub fn in_check(&self) -> (r: bool)
        ensures
            r == !self.st().checkers.none_set(),
    {
        self.state.checkers.is_not_empty()
    }

    /// Returns the ply count.
    pub fn ply(&self) -> (r: u16)
        ensures
            r == self.plies(),
    {
        self.ply
    }

    /// Puts `piece` (of `player`, kind `pt`) with `identity` on the empty
    /// square `sq`, keeping every bitboard and the hash in step.
    fn place_piece_with_id(
        &mut self,
        sq: SQ,
        piece: Piece,
        player: Player,
        pt: PieceType,
        identity: char,
    )
        requires
            old(self).wf(),
            sq.0 < 144,
            is_real_type(pt),
            piece == piece_of(player, pt),
            old(self).locs()[sq.0 as int] == Piece::Empty,
        ensures
            final(self).wf(),
            final(self).locs() == old(self).locs().update(sq.0 as int, piece),
            final(self).ids() == old(self).ids().update(sq.0 as int, identity),
            final(self).st().zobrist == old(self).st().zobrist ^ piece_key(piece, sq.0 as int),
            final(self).hash_rest() == old(self).hash_rest(),
            final(self).st().castling == old(self).st().castling,
            final(self).st().ep_square == old(self).st().ep_square,
            final(self).st().rule50 == old(self).st().rule50,
            final(self).st().fullmove == old(self).st().fullmove,
            final(self).st().captured_piece == old(self).st().captured_piece,
            final(self).st().captured_identity == old(self).st().captured_identity,
            final(self).st().checkers == old(self).st().checkers,
            final(self).st().last_move == old(self).st().last_move,
            final(self).st().prev == old(self).st().prev,
            final(self).side() == old(self).side(),
            final(self).kings() == old(self).kings(),
            final(self).plies() == old(self).plies(),
            final(self).hist() == old(self).hist(),
    {
        proof {
            lemma_slots();
        }
        let i = player.index() * 10 + pt.index();
        let mut b = self.piece_bbs[i];
        b.set_bit(sq);
        self.piece_bbs.set(i, b);
        let pi = player.index();
        let mut o = self.occ_player[pi];
        o.set_bit(sq);
        self.occ_player.set(pi, o);
        self.occ_all.set_bit(sq);
        self.piece_locs.place(sq, piece);
        self.piece_ids.set(sq.0 as usize, identity);
        self.state.zobrist = self.state.zobrist ^ piece_square_key(piece, sq);
        proof {
            lemma_pieces_hash_toggle(old(self).locs(), self.locs(), sq.0 as int, piece, 144);
            lemma_xor_facts(
                old(self).st().zobrist,
                piece_key(piece, sq.0 as int),
                pieces_hash(old(self).locs(), 144),
            );
            lemma_bitboards_follow(
                old(self).piece_bbs@,
                self.piece_bbs@,
                old(self).occ_player@,
                self.occ_player@,
                old(self).piece_locs@,
                self.piece_locs@,
                sq.0 as int,
                piece,
                player,
                pt,
                true,
            );
            assert forall|i: int| 0 <= i < 20 implies (#[trigger] self.piece_bbs@[i]).valid() by {
                if i != slot(player, pt) {
                    assert(self.piece_bbs@[i] == old(self).piece_bbs@[i]);
                }
            }
            assert forall|i: int| 0 <= i < 2 implies (#[trigger] self.occ_player@[i]).valid() by {
                if i != player_index(player) {
                    assert(self.occ_player@[i] == old(self).occ_player@[i]);
                }
            }
        }
    }

    /// Takes the piece `piece` (of `player`, kind `pt`) off `sq`, returning
    /// its identity, keeping every bitboard and the hash in step.
    fn remove_piece_with_id(&mut self, sq: SQ, piece: Piece, player: Player, pt: PieceType) -> (r:
        char)
        requires
            old(self).wf(),
            sq.0 < 144,
            is_real_type(pt),
            piece == piece_of(player, pt),
            old(self).locs()[sq.0 as int] == piece,
        ensures
            r == old(self).ids()[sq.0 as int],
            final(self).wf(),
            final(self).locs() == old(self).locs().update(sq.0 as int, Piece::Empty),
            final(self).ids() == old(self).ids().update(sq.0 as int, NO_PIECE_ID),
            final(self).st().zobrist == old(self).st().zobrist ^ piece_key(piece, sq.0 as int),
            final(self).hash_rest() == old(self).hash_rest(),
            final(self).st().castling == old(self).st().castling,
            final(self).st().ep_square == old(self).st().ep_square,
            final(self).st().rule50 == old(self).st().rule50,
            final(self).st().fullmove == old(self).st().fullmove,
            final(self).st().captured_piece == old(self).st().captured_piece,
            final(self).st().captured_identity == old(self).st().captured_identity,
            final(self).st().checkers == old(self).st().checkers,
            final(self).st().last_move == old(self).st().last_move,
            final(self).st().prev == old(self).st().prev,
            final(self).side() == old(self).side(),
            final(self).kings() == old(self).kings(),
            final(self).plies() == old(self).plies(),
            final(self).hist() == old(self).hist(),
    {
        proof {
            lemma_slots();
        }
        let i = player.index() * 10 + pt.index();
        let mut b = self.piece_bbs[i];
        b.clear_bit(sq);
        self.piece_bbs.set(i, b);
        let pi = player.index();
        let mut o = self.occ_player[pi];
        o.clear_bit(sq);
        self.occ_player.set(pi, o);
        self.occ_all.clear_bit(sq);
        self.piece_locs.remove(sq);
        let identity = self.piece_ids[sq.0 as usize];
        self.piece_ids.set(sq.0 as usize, NO_PIECE_ID);
        self.state.zobrist = self.state.zobrist ^ piece_square_key(piece, sq);
        proof {
            lemma_pieces_hash_toggle(old(self).locs(), self.locs(), sq.0 as int, piece, 144);
            lemma_xor_facts(
                old(self).st().zobrist,
                piece_key(piece, sq.0 as int),
                pieces_hash(old(self).locs(), 144),
            );
            lemma_bitboards_follow(
                old(self).piece_bbs@,
                self.piece_bbs@,
                old(self).occ_player@,
                self.occ_player@,
                old(self).piece_locs@,
                self.piece_locs@,
                sq.0 as int,
                piece,
                player,
                pt,
                false,
            );
            assert forall|i: int| 0 <= i < 20 implies (#[trigger] self.piece_bbs@[i]).valid() by {
                if i != slot(player, pt) {
                    assert(self.piece_bbs@[i] == old(self).piece_bbs@[i]);
                }
            }
            assert forall|i: int| 0 <= i < 2 implies (#[trigger] self.occ_player@[i]).valid() by {
                if i != player_index(player) {
                    assert(self.occ_player@[i] == old(self).occ_player@[i]);
                }
            }
        }
        identity
    }

    /// Compute the Zobrist hash from scratch.
    pub fn compute_zobrist(&self) -> (r: u64)
        requires
            self.wf(),
        ensures
            r == position_hash(
                self.locs(),
                self.st().castling.0,
                self.st().ep_square.0 as int,
                self.side(),
            ),
    {
        let mut z = VERSION_SALT;
        let mut i: u8 = 0;
        while i < 144
            invariant
                i <= 144,
                self.wf(),
                z == pieces_hash(self.locs(), i as int),
            decreases 144 - i,
        {
            let sq = SQ(i);
            let piece = self.piece_locs.piece_at(sq);
            if piece != Piece::Empty {
                z = z ^ piece_square_key(piece, sq);
            }
            i += 1;
        }
        z = z ^ castle_rights_key(self.state.castling.0);
        if self.state.ep_square.is_okay() {
            z = z ^ ep_file_key(self.state.ep_square.file_idx());
        }
        if self.turn == Player::Black {
            z = z ^ side_to_move_key();
        }
        z
    }
}

impl Board {
    /// An empty board: no pieces, White to move, a fresh state.
    fn empty_board(turn: Player) -> (r: Board)
        ensures
            r.wf(),
            r.locs() == Seq::new(144, |i: int| Piece::Empty),
            r.ids() == Seq::new(144, |i: int| NO_PIECE_ID),
            r.kings() == seq![SQ(144), SQ(144)],
            r.side() == turn,
            r.plies() == 0,
            r.hist() == Seq::<u64>::empty(),
            r.st().prev is None,
            r.st().rule50 == 0,
            r.st().fullmove == 1,
            r.st().captured_piece == Piece::Empty,
            r.st().captured_identity == NO_PIECE_ID,
            r.st().last_move.bits() == 0,
    {
        proof {
            lemma_slots();
        }
        let mut piece_bbs: Vec<BitBoard> = Vec::new();
        let mut i: usize = 0;
        while i < 20
            invariant
                i <= 20,
                piece_bbs@.len() == i,
                forall|k: int| 0 <= k < i ==> (#[trigger] piece_bbs@[k]).none_set() && piece_bbs@[k].valid(),
            decreases 20 - i,
        {
            piece_bbs.push(BitBoard::empty());
            i += 1;
        }
        let mut ids: Vec<char> = Vec::new();
        let mut j: usize = 0;
        while j < 144
            invariant
                j <= 144,
                ids@.len() == j,
                forall|k: int| 0 <= k < j ==> ids@[k] == NO_PIECE_ID,
            decreases 144 - j,
        {
            ids.push(NO_PIECE_ID);
            j += 1;
        }
        let occ_player = vec![BitBoard::empty(), BitBoard::empty()];
        let king_sq = vec![SQ(144), SQ(144)];
        let b = Board {
            piece_bbs,
            occ_player,
            occ_all: BitBoard::empty(),
            piece_locs: PieceLocations::new(),
            piece_ids: ids,
            turn,
            state: BoardState::new(),
            king_sq,
            ply: 0,
            history: Vec::new(),
        };
        proof {
            assert forall|p: Player, t: PieceType, s: int|
                #[trigger] b.piece_bbs@[slot(p, t)].has(s) == (0 <= s < 144 && is_real_type(t)
                    && b.piece_locs@[s] == piece_of(p, t)) by {
                b.piece_bbs@[slot(p, t)].lemma_none_set();
                if 0 <= s < 144 && is_real_type(t) {
                    assert(owner_of(piece_of(p, t)) == Some(p));
                }
            }
            assert forall|p: Player, s: int|
                #[trigger] b.occ_player@[player_index(p)].has(s) == (0 <= s < 144 && owner_of(
                    b.piece_locs@[s],
                ) == Some(p)) by {
                b.occ_player@[player_index(p)].lemma_none_set();
            }
            b.occ_all.lemma_none_set();
            assert(b.locs() =~= Seq::new(144, |i: int| Piece::Empty));
            assert(b.ids() =~= Seq::new(144, |i: int| NO_PIECE_ID));
            assert(b.kings() =~= seq![SQ(144), SQ(144)]);
        }
        b
    }

    /// Creates a board from a HFEN string. Fails when the string is not
    /// well formed, or when the side to move has no king.
    pub fn from_hfen(hfen_str: &str) -> (r: Result<Board, String>)
        ensures
            match r {
                Ok(b) => hfen_board(hfen_str@, b),
                Err(_) => !hfen_start_ok(hfen_str@),
            },
    {
        let data = match parse_hfen(hfen_str) {
            Ok(d) => d,
            Err(e) => {
                return Err(e);
            },
        };
        let ghost parts = split_ws(hfen_str@);
        let ghost pieces = data.pieces@;
        proof {
            let ranks = split_on(parts[0], '/');
            crate::board::hfen::lemma_decode_ranks_squares(ranks, crate::board::hfen::uses_identity(parts[0]), 12);
        }
        let mut board = Board::empty_board(data.turn);
        let mut k: usize = 0;
        assert(pieces.take(0) =~= Seq::<(SQ, Piece, char)>::empty());
        while k < data.pieces.len()
            invariant
                k <= pieces.len(),
                pieces == data.pieces@,
                forall|q: int| 0 <= q < pieces.len() ==> (#[trigger] pieces[q]).0.0 < 144 && pieces[q].1 != Piece::Empty,
                forall|q: int, l: int| 0 <= q < l < pieces.len() ==> (#[trigger] pieces[q]).0 != (#[trigger] pieces[l]).0,
                board.wf(),
                board.locs() == layout(pieces.take(k as int)),
                board.ids() == id_layout(pieces.take(k as int)),
                board.kings() == king_layout(pieces.take(k as int)),
                board.side() == data.turn,
                board.plies() == 0,
                board.hist() == Seq::<u64>::empty(),
                board.st().prev is None,
                board.st().rule50 == 0,
                board.st().fullmove == 1,
            decreases pieces.len() - k,
        {
            let (sq, piece, identity) = data.pieces[k];
            proof {
                assert forall|q: int| 0 <= q < pieces.take(k as int).len() implies (#[trigger] pieces.take(k as int)[q]).0.0 != sq.0
                    && pieces.take(k as int)[q].0.0 < 144 by {
                    assert(pieces[q].0 != pieces[k as int].0);
                }
                lemma_layout_untouched(pieces.take(k as int), sq.0 as int);
            }
            let player = piece.player_lossy();
            let pt = piece.type_of();
            proof {
                crate::core_types::piece::lemma_piece_roundtrip(piece);
            }
            board.place_piece_with_id(sq, piece, player, pt, identity);
            if pt == PieceType::K {
                board.king_sq.set(player.index(), sq);
            }
            proof {
                assert(pieces.take(k + 1).drop_last() =~= pieces.take(k as int));
            }
            k += 1;
        }
        assert(pieces.take(pieces.len() as int) =~= pieces);
        if board.king_sq[board.turn.index()].0 >= 144 {
            let mut v: Vec<char> = Vec::new();
            crate::text::extend_str(&mut v, "The side to move has no king");
            return Err(crate::text::string_from(&v));
        }
        board.state.castling = CastleRights::from_hfen(&data.castling);
        board.state.ep_square = hfen::parse_ep_square(&data.ep);
        board.state.rule50 = data.rule50;
        board.state.fullmove = data.fullmove;
        board.state.zobrist = board.compute_zobrist();
        board.state.checkers = board.compute_checkers();
        Ok(board)
    }

    /// Returns the current HFEN string.
    pub fn get_hfen(&self) -> (r: String)
        requires
            self.wf(),
        ensures
            r@ == hfen::board_hfen(*self),
    {
        hfen::to_hfen(self)
    }

    /// Creates a board from the starting position.
    pub fn start_pos() -> (r: Board)
        ensures
            r.ready(),
            hfen_board(crate::core_types::masks::START_HFEN@, r),
    {
        proof {
            hfen_laws::lemma_start_hfen_ok();
        }
        let b = Board::from_hfen(crate::core_types::masks::START_HFEN);
        b.unwrap()
    }
}

/// A layout keeps its shape whatever squares the pieces are placed on.
proof fn lemma_layout_len(pieces: Seq<(SQ, Piece, char)>)
    requires
        forall|q: int| 0 <= q < pieces.len() ==> (#[trigger] pieces[q]).0.0 < 144,
    ensures
        layout(pieces).len() == 144,
        id_layout(pieces).len() == 144,
        king_layout(pieces).len() == 2,
    decreases pieces.len(),
{
    if pieces.len() > 0 {
        let init = pieces.drop_last();
        assert forall|q: int| 0 <= q < init.len() implies (#[trigger] init[q]).0.0 < 144 by {
            assert(init[q] == pieces[q]);
        }
        lemma_layout_len(init);
        assert(pieces[pieces.len() - 1].0.0 < 144);
        let k = player_index(owner_lossy(pieces.last().1));
        assert(0 <= k < 2);
    }
}

/// Squares no placed piece lands on stay empty and without identity.
proof fn lemma_layout_untouched(pieces: Seq<(SQ, Piece, char)>, s: int)
    requires
        forall|q: int| 0 <= q < pieces.len() ==> (#[trigger] pieces[q]).0.0 != s && pieces[q].0.0 < 144,
        0 <= s < 144,
    ensures
        layout(pieces)[s] == Piece::Empty,
        id_layout(pieces)[s] == NO_PIECE_ID,
        layout(pieces).len() == 144,
        id_layout(pieces).len() == 144,
        king_layout(pieces).len() == 2,
    decreases pieces.len(),
{
    lemma_layout_len(pieces);
    if pieces.len() > 0 {
        let init = pieces.drop_last();
        assert forall|q: int| 0 <= q < init.len() implies (#[trigger] init[q]).0.0 != s && init[q].0.0 < 144 by {
            assert(init[q] == pieces[q]);
        }
        lemma_layout_untouched(init, s);
        lemma_layout_len(init);
        let last = pieces[pieces.len() - 1];
        assert(last.0.0 != s);
        assert(layout(pieces) == layout(init).update(last.0.0 as int, last.1));
        assert(id_layout(pieces) == id_layout(init).update(last.0.0 as int, last.2));
    }
}

} // verus!
