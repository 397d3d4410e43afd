//! A dense, dynamically shaped numeric tensor over 64-bit scalars, built
//! from arbitrarily nested sequence values, with elementwise arithmetic.
//!
//! Scalars are carried as the bit patterns of IEEE-754 double-precision
//! numbers; a host boundary converts its own numbers to and from bits.

pub mod error;
pub mod ingest;
pub mod laws;
pub mod tensor;
pub mod value;
