//! Building descriptors from declarations: enumeration tables, redaction rules, scan
//! specifications, packs and table definitions.
pub mod bitspec;
pub mod blot;
pub mod dsl;
pub mod enums;
pub mod error;
pub mod lucius;
pub mod manifest;
pub mod schema;
pub mod thresholds;
