//! A verified approximate-nearest-neighbor vector index with a narrow
//! boundary: build an index from fixed-dimension 32-bit float vectors,
//! persist and restore it in a compact binary form, and query it for the
//! closest neighbors of a probe, draining results through a reusable search
//! buffer.
//!
//! Floats never appear in the verified code: every coordinate and distance
//! is carried by its IEEE 754 bit pattern (`u32`), and the three rounding
//! operations the metric needs are delegated to a software floating-point
//! implementation behind narrow trusted wrappers. File handling and float
//! rendering live in the unverified shell around this crate.

use vstd::prelude::*;

pub mod codec;
pub mod index;
pub mod order;
pub mod params;
pub mod point;
pub mod search;

verus! {

/// Number of 32-bit float coordinates in every indexed vector. Inputs with
/// fewer coordinates are zero-padded up to this length; longer inputs are
/// rejected.
pub const DIMENSIONS: usize = 300;

/// The recoverable failures this library reports. Each operation's contract
/// states exactly when each kind is returned. Encoding an index cannot
/// fail, and file handling — with its own error kind — belongs to the
/// unverified shell.
#[derive(Clone, Copy, Debug, PartialEq, Eq, Structural)]
pub enum Error {
    /// A point or probe held more than `DIMENSIONS` coordinates.
    PointTooLong,
    /// A tuning parameter was below its documented minimum.
    InvalidParameters,
    /// Persisted bytes were not a well-formed index encoding.
    MalformedData,
}

} // verus!
