//! Estimates how compressible a byte stream is without compressing all of it.
//!
//! The estimator reads a deterministic, evenly strided subset of fixed-size
//! blocks, feeds them through a fast lz4 encoder, and reports the ratio of
//! compressed to original size, clamped to at most one. The number of blocks
//! to read comes from Cochran's sample-size formula for a finite population,
//! evaluated in exact integer arithmetic.

pub mod compress;
pub mod confidence;
pub mod estimator;
pub mod ratio;
pub mod sample;
pub mod sink;

pub use confidence::Confidence;
pub use estimator::{Compresstimator, EstimError, SamplePlan};
pub use ratio::Ratio;
pub use sink::WriteCount;
