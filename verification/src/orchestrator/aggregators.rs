//! Detection aggregators: the span tracker, the engine that drives it and
//! the laws that hold of every run.

pub mod engine;
pub mod keys;
pub mod laws;
pub mod max_processed_index;
pub mod model;
pub mod span;
pub mod tracker;
