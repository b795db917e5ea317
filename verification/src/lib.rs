//! Typed event ingestion: a framed binary wire codec, a bitmask rule engine with
//! thresholds, a priority-ordered policy matcher and a field redaction engine.
pub mod bitspec;
pub mod blot;
pub mod contracts;
pub mod descriptor;
pub mod digest;
pub mod num;
pub mod text;
pub mod wire;
