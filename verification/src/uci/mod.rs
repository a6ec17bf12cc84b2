//! UCI protocol helpers: command parsing and engine output parsing.

pub mod calibration;
pub mod client;
pub mod server;
pub mod server_util;
