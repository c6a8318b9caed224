//! Orchestration of generation and detection.

pub mod aggregators;
