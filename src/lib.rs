//! Running descriptive statistics over named integer measurements, their
//! merge, and a threshold check against a baseline.
//!
//! Observations are 32-bit integers (a measurement in some fixed unit).
//! Sums are kept exactly, so merging is exactly associative and
//! commutative, and the mean and variance are exact fractions.

pub mod by_metric;
pub mod check;
pub mod stats;
pub mod wide;
