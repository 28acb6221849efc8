//! Bookkeeping for small rigid-body scenes: a generation-tagged body store,
//! the per-tick boundary recycling policy, a raster-to-cells shape sampler and
//! the mapping from simulation units to screen units.
//!
//! All quantities are fixed-point integers; the caller chooses the unit.

pub mod body;
pub mod geometry;
pub mod recycle;
pub mod sampler;
pub mod world;
