//! The bitmask rule engine: predicates and thresholds, bundled in a pack and evaluated
//! against one row to give a bitmask and a map of facts.
use vstd::prelude::*;

pub mod facts;
pub mod pack;
pub mod policy;
pub mod predicate;
pub mod row;
pub mod threshold;

verus! {

/// The place of one bit in a mask.
pub type Bit = u16;

/// A mask in which each bit says whether one predicate or threshold level fired.
pub type BitMask = u64;

} // verus!
