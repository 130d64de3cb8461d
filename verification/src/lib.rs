//! A fixed-size thread-pool engine: pool lifecycle, pull-based work
//! distribution, failure propagation, and the reordering layer that restores
//! input order for parallel `map`.
//!
//! This crate holds the verified protocol logic of the pool: which element is
//! handed to a worker next, how out-of-order completions are buffered and
//! replayed in input order, and how a failed element poisons the pool. The
//! operating-system threads and channels that carry the protocol live outside
//! the verified core; they drive these functions and inherit their guarantees.

use vstd::prelude::*;

pub mod distribute;
pub mod laws;
pub mod maps;
pub mod pool;
pub mod protocol;

pub use maps::{Packet, ParMap, Reorderer, UnorderedParMap};
pub use pool::{JobHandle, Pool};

verus! {

/// The ways a pool operation can fail.
#[derive(Clone, Copy, Debug, PartialEq, Eq, Structural)]
pub enum PoolError {
    /// The requested worker count is invalid (zero).
    Configuration,
    /// The user function failed on some element of the batch.
    ElementFailure,
    /// The pool was used after an earlier `ElementFailure` poisoned it.
    Poisoned,
}

} // verus!
