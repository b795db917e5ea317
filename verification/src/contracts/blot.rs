//! Redaction rules.
use vstd::prelude::*;

verus! {

/// How the value of a field is made unreadable.
#[derive(Debug, Clone, Copy)]
pub enum BlotOp {
    /// Every character becomes `*`.
    MaskAll,
    /// All but the last `keep` characters become `*`.
    MaskSuffix { keep: usize },
    /// All but the first `keep` characters become `*`.
    MaskPrefix { keep: usize },
    /// The value becomes the hexadecimal SHA-256 digest of its bytes.
    HashSha256,
    /// The value becomes empty.
    Drop,
    /// Only the first `len` characters stay.
    Truncate { len: usize },
}

/// The redaction of one field.
#[derive(Debug, Clone, Copy)]
pub struct BlotFieldRule {
    pub field: &'static str,
    pub rule: Option<&'static str>,
    pub op: BlotOp,
    pub note: Option<&'static str>,
}

/// A type that declares how its fields are redacted.
pub trait BlotSpec {
    const BLOT_RULES: &'static [BlotFieldRule];
}

} // verus!
