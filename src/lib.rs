//! A model of a finality protocol for a chain of blocks: checkpoint justification (an FFG-style
//! gadget), the RLMD-GHOST fork-choice rule, and the per-slot state machine of one validator
//! that sequences proposing, voting, fast confirmation and merging of views.
use vstd::prelude::*;

pub mod constants;
pub mod types;
pub mod ffg;
pub mod fork_choice;
pub mod text;
pub mod node;

verus! {

} // verus!
