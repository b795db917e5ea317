//! The binary wire codec: frame headers, cursor-based decoding, typed slot values.
pub mod bytes;
pub mod ch_binary;
pub mod envelope;
pub mod error;
pub mod event;
pub mod rowbinary;
pub mod rowpack;
pub mod schema;
pub mod slot;
pub mod value;
pub mod view;
