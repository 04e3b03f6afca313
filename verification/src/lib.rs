//! Cache-blocked matrix product planning: blocking sizes, operand packing,
//! micro-kernel selection, static job partitioning and scratch sizing.

pub mod params;
pub mod pack;
pub mod dispatch;
pub mod partition;
pub mod schedule;
pub mod scratch;
pub mod view;
pub mod driver;
