//! Aggregation of streaming detector verdicts over generated text, together
//! with the registry of service clients that the orchestrator talks to.
//!
//! The aggregation engine merges the verdicts of several independent
//! detectors into one ordered, complete, emit-once stream of classified
//! chunks. Every executable function carries a contract over the
//! mathematical model in `orchestrator::aggregators::model`, and the module
//! `orchestrator::aggregators::laws` proves what holds of every run.

pub mod clients;
pub mod orchestrator;
