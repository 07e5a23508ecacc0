//! A fixed-memory estimator of the number of distinct elements in a stream.
//!
//! A sketch is an array of `2^p` small counters, its registers. Adding a key
//! hashes it, uses part of the hash to pick a register and the rest to derive
//! a rank, and keeps the largest rank each register has seen. Two sketches of
//! one size merge by taking the larger register at every position, which
//! gives the sketch of both streams together.
//!
//! - [`registers`]: the register array, its merge, and the counts an
//!   estimate is read from.
//! - [`projector`]: from a hash to a register and a rank, under the classic
//!   policy and under the lane policy.
//! - [`estimator`]: the choice between linear counting and the harmonic
//!   mean, in exact integer arithmetic.
//! - [`codec`]: the persistent form of a register array.
//! - [`hll`] and [`plusplus`]: the two kinds of sketch.

pub mod codec;
pub mod estimator;
pub mod hll;
pub mod plusplus;
pub mod projector;
pub mod registers;

pub use hll::HyperLogLog;
pub use plusplus::HyperLogLogPlusPlus;

use vstd::prelude::*;

verus! {

/// Precision of a sketch made without an explicit one.
pub const P: usize = 20;

/// Number of registers of a sketch made without an explicit precision: `2^P`.
pub const M: usize = 1 << P;

} // verus!
