//! Arguments of the UCI `go` command.

use vstd::prelude::*;

verus! {

/// The search limits a `go` command asks for.
#[derive(Debug, Clone, Copy, PartialEq, Eq, Structural)]
pub struct GoArgs {
    pub depth: u32,
    pub movetime_ms: u64,
    pub infinite: bool,
    pub perft_depth: Option<u32>,
}

/// The limits of a bare `go`: depth 5, no time limit, no perft.
pub open spec fn default_go_args() -> GoArgs {
    GoArgs { depth: 5, movetime_ms: 0, infinite: false, perft_depth: None }
}

impl Default for GoArgs {
    fn default() -> (r: Self)
        ensures
            r == default_go_args(),
    {
        GoArgs { depth: 5, movetime_ms: 0, infinite: false, perft_depth: None }
    }
}

} // verus!
