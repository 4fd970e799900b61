//! Padded sharding and recoverable-subset harness for benchmarking an
//! erasure-coding engine.

pub mod planner;
pub mod partition;
pub mod engine;
pub mod source;
pub mod runner;
