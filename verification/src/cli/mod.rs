//! Engine-match support: engine configuration, board glyphs and game
//! export helpers.

pub mod export;
pub mod game;
pub mod render;
