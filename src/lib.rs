//! Sparse/dense grid codec and inference-engine lifecycle for a small
//! binary-grid inference pipeline.

pub mod matrix;
pub mod engine;
pub mod pipeline;
