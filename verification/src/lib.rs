//! Structural backbone of compressed sparse row/column matrix formats.
//!
//! A [`SparsityPattern`] records which coordinate pairs of a sparse matrix hold
//! explicitly stored entries, independent of the entries' values. It owns two
//! backing arrays (major offsets and minor indices) plus the declared minor
//! dimension, validates untrusted raw arrays on construction in a single linear
//! pass, and exposes zero-copy per-lane views and a lane-major entry iterator.

pub mod laws;
pub mod pattern;

pub use pattern::{SparseFormatError, SparsityPattern, SparsityPatternIter};
