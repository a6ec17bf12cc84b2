//! Board state — the game state saved before each move for undo.

use vstd::prelude::*;

use super::castle_rights::CastleRights;
use crate::core_types::bitboard::BitBoard;
use crate::core_types::piece::Piece;
use crate::core_types::piece_identity::NO_PIECE_ID;
use crate::core_types::piece_move::HyperMove;
use crate::core_types::sq::SQ;

verus! {

/// State saved before each move for undo purposes.
#[derive(Debug)]
pub struct BoardState {
    /// Castling rights.
    pub castling: CastleRights,
    /// En passant target square (144 if none).
    pub ep_square: SQ,
    /// Half-move clock (draw at 224 halfmoves on the 12×12 board).
    pub rule50: u16,
    /// Full move number.
    pub fullmove: u16,
    /// Zobrist hash.
    pub zobrist: u64,
    /// Piece captured on the last move (for undo).
    pub captured_piece: Piece,
    /// HFEN-I identity captured on the last move (for undo).
    pub captured_identity: char,
    /// Bitboard of pieces giving check to the side to move.
    pub checkers: BitBoard,
    /// The move that was played to reach this state.
    pub last_move: HyperMove,
    /// Previous state (for undo chain).
    pub prev: Option<Box<BoardState>>,
}

impl BoardState {
    /// The state of a fresh game: all castling rights, no en passant
    /// square, clocks at 0 and 1, nothing captured, no previous state.
    pub fn new() -> (r: Self)
        ensures
            r.castling.0 == 15,
            r.ep_square.0 == 144,
            r.rule50 == 0,
            r.fullmove == 1,
            r.zobrist == 0,
            r.captured_piece == Piece::Empty,
            r.captured_identity == NO_PIECE_ID,
            r.checkers.none_set(),
            r.last_move.bits() == 0,
            r.prev is None,
    {
        BoardState {
            castling: CastleRights::all(),
            ep_square: SQ(144),
            rule50: 0,
            fullmove: 1,
            zobrist: 0,
            captured_piece: Piece::Empty,
            captured_identity: NO_PIECE_ID,
            checkers: BitBoard::empty(),
            last_move: HyperMove::null(),
            prev: None,
        }
    }

    /// A copy of the position fields of this state (castling, en passant,
    /// clocks and hash), with nothing captured, no checkers, a null last move
    /// and no previous state.
    pub fn snapshot(&self) -> (r: BoardState)
        ensures
            r.castling == self.castling,
            r.ep_square == self.ep_square,
            r.rule50 == self.rule50,
            r.fullmove == self.fullmove,
            r.zobrist == self.zobrist,
            r.captured_piece == Piece::Empty,
            r.captured_identity == NO_PIECE_ID,
            r.checkers.none_set(),
            r.last_move.bits() == 0,
            r.prev is None,
    {
        BoardState {
            castling: self.castling,
            ep_square: self.ep_square,
            rule50: self.rule50,
            fullmove: self.fullmove,
            zobrist: self.zobrist,
            captured_piece: Piece::Empty,
            captured_identity: NO_PIECE_ID,
            checkers: BitBoard::empty(),
            last_move: HyperMove::null(),
            prev: None,
        }
    }
}

impl Clone for BoardState {
    /// A copy of the state and of its chain of earlier states.
    fn clone(&self) -> (r: Self)
        ensures
            r == *self,
        decreases self,
    {
        let prev = match &self.prev {
            Some(p) => Some(Box::new((**p).clone())),
            None => None,
        };
        BoardState {
            castling: self.castling,
            ep_square: self.ep_square,
            rule50: self.rule50,
            fullmove: self.fullmove,
            zobrist: self.zobrist,
            captured_piece: self.captured_piece,
            captured_identity: self.captured_identity,
            checkers: self.checkers,
            last_move: self.last_move,
            prev,
        }
    }
}

} // verus!
