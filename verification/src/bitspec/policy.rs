//! The key under which a pack and its rules are kept.
use vstd::prelude::*;
use std::sync::Arc;

verus! {

/// The tenant, event type and version that select a pack and a rule set.
#[derive(Debug, Clone, PartialEq, Eq, Hash)]
pub struct PolicyKey {
    pub tenant: Arc<str>,
    pub event: Arc<str>,
    pub version: u32,
}

impl PolicyKey {
    /// The key of the given tenant, event type and version.
    pub fn new(tenant: Arc<str>, event: Arc<str>, version: u32) -> (k: PolicyKey)
        ensures
            k.tenant == tenant,
            k.event == event,
            k.version == version,
    {
        PolicyKey { tenant, event, version }
    }
}

} // verus!
