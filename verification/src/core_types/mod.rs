//! Core types for HyperChess: Player, PieceType, Piece, File, Rank, squares,
//! bitboards, moves and scores.

pub mod bit_twiddles;
pub mod bitboard;
pub mod bits;
pub mod castling;
pub mod file_rank;
pub mod masks;
pub mod move_list;
pub mod piece;
pub mod piece_identity;
pub mod piece_move;
pub mod piece_type;
pub mod player;
pub mod score;
pub mod sq;

pub use castling::{CastleType, Phase};
pub use file_rank::{File, Rank};
pub use piece::{Piece, PIECE_ENUM_CNT};
pub use piece_type::{GenTypes, PieceType};
pub use player::Player;
