//! Request/response bodies of the HTTP API.

use vstd::prelude::*;

verus! {

/// Body of `POST /board/fen-validate`.
#[derive(Debug, Clone)]
pub struct FenValidateRequest {
    /// A position in HFEN(-I) notation.
    pub fen: String,
}

/// Result of `POST /board/fen-validate`. A rejected position is still a
/// successful response: callers read `valid`.
#[derive(Debug, Clone)]
pub struct FenValidateResponse {
    /// Whether the submitted string parsed as a legal position.
    pub valid: bool,
    /// Parser diagnostic, present only when `valid` is `false`.
    pub error: Option<String>,
}

/// Body of `POST /move/legal`.
#[derive(Debug, Clone)]
pub struct LegalMovesRequest {
    /// A position in HFEN(-I) notation.
    pub fen: String,
}

/// Result of `POST /move/legal`.
#[derive(Debug, Clone)]
pub struct LegalMovesResponse {
    /// Legal moves in plain UCI notation (e.g. `"e2e4"`).
    pub moves: Vec<String>,
}

/// Body of `POST /move/best`. Every field except `fen` is optional.
#[derive(Debug, Clone)]
pub struct BestMoveRequest {
    /// A position in HFEN(-I) notation.
    pub fen: String,
    /// Search algorithm; `alphabeta` when omitted.
    pub algorithm: Option<String>,
    /// Alpha-beta-family search depth.
    pub depth: Option<u32>,
    /// MCTS simulation count.
    pub simulations: Option<u32>,
    /// Wall-clock search budget in milliseconds.
    pub movetime_ms: Option<u64>,
}

/// Result of `POST /move/best`.
#[derive(Debug, Clone)]
pub struct BestMoveResponse {
    /// Best move found, in plain UCI notation.
    pub best_move: String,
    /// Static evaluation in centipawns from the side to move's view.
    pub eval_cp: i32,
}

/// Result of `GET /health`.
#[derive(Debug, Clone)]
pub struct HealthResponse {
    /// Always `"ok"`.
    pub status: &'static str,
}

/// Uniform error body returned with any non-2xx status.
#[derive(Debug, Clone)]
pub struct ErrorResponse {
    /// Human-readable failure description.
    pub error: String,
}

} // verus!
