//! Scan specifications: which fields are handed to the scanner, and how hard it looks.
use vstd::prelude::*;

verus! {

/// How thoroughly an artifact is examined.
#[derive(Debug, Clone, Copy, PartialEq, Eq, Structural)]
pub enum LuciusLevel {
    /// A quick check of type and shape.
    Light,
    /// Static analysis.
    StaticDeep,
    /// Detonation in a sandbox.
    DynamicSandbox,
    /// Everything.
    HybridFull,
}

/// What the scanner does with one field.
#[derive(Debug, Clone, Copy)]
pub struct LuciusFieldSpec {
    /// The name of the field.
    pub field: &'static str,
    /// A rule or tag, if one is named.
    pub rule: Option<&'static str>,
    pub level: LuciusLevel,
    /// The kind of artifact that is expected.
    pub expected_type: &'static str,
    /// The queue that takes the artifact.
    pub route: &'static str,
    pub note: Option<&'static str>,
}

/// A type that declares which of its fields are scanned.
pub trait LuciusSpec {
    const LUCIUS_SPECS: &'static [LuciusFieldSpec];

    /// The scan specifications of the type.
    fn lucius_specs() -> (specs: &'static [LuciusFieldSpec])
        ensures
            specs == Self::LUCIUS_SPECS,
    {
        Self::LUCIUS_SPECS
    }
}

} // verus!
