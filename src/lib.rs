//! Adaptive crf search: picks the next crf value to sample, decides when the
//! search has converged or cannot succeed, and estimates overall progress.

pub mod sample;
pub mod lerp;
pub mod neighbour;
pub mod search;
pub mod progress;
