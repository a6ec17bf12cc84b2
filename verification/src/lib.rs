//! HyperChess rules — a 12x12 chess variant with Eagle and Hawk pieces.

pub mod api;
pub mod board;
pub mod cli;
pub mod core_types;
pub mod eval;
pub mod game_replay;
pub mod helper;
pub mod io;
pub mod notation;
pub mod notation_laws;
pub mod text;
pub mod uci;
