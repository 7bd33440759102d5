//! A filesystem and device-identity bridge: path normalization, recursive
//! listings and trees over directory entries read by the caller, file
//! contents carried as Base64 text, and the machine identifier taken from
//! each platform's own source. The caller performs the I/O; this crate
//! decides what to do and what the results are.

pub mod codec;
pub mod device;
pub mod error;
pub mod fsops;
pub mod path;
pub mod text;
pub mod tree;
