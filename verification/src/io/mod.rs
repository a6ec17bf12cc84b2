//! HSAN (HyperChess standard algebraic notation) import and export.

pub mod hsan_export;
pub mod hsan_parse;

pub use hsan_export::hypermove_to_hsan;
pub use hsan_parse::{hsan_to_hypermove, parse_hsan, CheckMarker, HsanMove};
