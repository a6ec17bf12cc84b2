//! Attack sets and hashing keys.

pub mod boards;
pub mod jumping;
pub mod prelude;
pub mod psqt;
pub mod sliding;
pub mod zobrist;

use vstd::prelude::*;

verus! {

/// Helper struct for initialization.
pub struct Helper;

impl Helper {
    /// Nothing to prepare: attack sets and keys are computed on demand.
    pub fn init() {
        prelude::init_statics();
    }
}

} // verus!
