//! Broad-phase collision detection over a spatial index of bounds.
//!
//! The pair finder in [`broad_phase`] walks the entries of a [`index::SpatialIndex`],
//! queries the index with the bound of every entry flagged dirty, and collects the
//! overlapping entries as canonical `(low, high)` pairs in a sorted, duplicate-free list.
pub mod bound;
pub mod broad_phase;
pub mod index;
pub mod pairs;

pub use broad_phase::{BroadPhaseError, DbvtBroadPhase};
