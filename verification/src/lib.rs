//! Privacy-preserving face verification with a verifiable-computation protocol.
//!
//! The crate compares two fixed-length face descriptors inside a deterministic
//! comparator, commits only the match decision (and a score) to a public
//! record, and wraps the run in a proof artifact that binds the record to the
//! identity of the comparator program.  Descriptors are fixed-point integers:
//! a real value `v` is carried as `v * SCALE` rounded to an `i64`.

use vstd::prelude::*;

pub mod codec;
pub mod comparator;
pub mod digest;
pub mod metric;
pub mod model;
pub mod orchestrator;

verus! {

/// Number of coordinates every descriptor must have.
pub const DESCRIPTOR_LEN: usize = 128;

/// Fixed-point scale: the real value 1.0 is carried as `SCALE`.
pub const SCALE: i64 = 1000;

/// Largest magnitude a descriptor coordinate may have (the real value 1000.0).
pub const MAX_COORD: i64 = 1_000_000;

/// Largest magnitude a threshold or a committed score may have.
pub const THRESHOLD_MAX: i64 = 2_000_000_000_000_000;

} // verus!
