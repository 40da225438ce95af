//! Axis-aligned bounding boxes on a fixed-point lattice, with exact slab clipping.
//!
//! Coordinates are fixed-point numbers: an `i32` counts thousandths of a unit
//! of length (see [`scalar::UNITS_PER_ONE`]). Differences of coordinates are
//! widened to `i64`, and parameters along a line are exact ratios
//! ([`scalar::Ratio`]), so no operation rounds except where a contract says so.

pub mod plane;
pub mod scalar;
pub mod solid;
