//! Protocol constants.
use vstd::prelude::*;

verus! {

/// Bound on network delay, in slots; reserved, no computation reads it yet.
pub const DELTA: u64 = 1;

/// Depth, in slots, of the k-deep confirmation rule.
pub const KAPPA: u64 = 4;

/// Number of slots after which a vote expires for fork choice.
pub const ETA: u64 = 5;

} // verus!
