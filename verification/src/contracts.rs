//! The descriptors that the engines consume: policy rules, redaction rules, scan
//! specifications, enumeration tables and table definitions.
pub mod blot;
pub mod enum_info;
pub mod lucius;
pub mod rules;
pub mod schema;
