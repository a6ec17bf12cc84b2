//! The HTTP API: request and response bodies, and what its stateless
//! routes answer.

pub mod handlers;
pub mod types;
