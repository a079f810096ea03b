//! Measuring the latency of repeated model inference: the shape grammar of
//! the synthetic inputs, the benchmark run as a state machine, and the
//! summary of its timing samples.

pub mod cli;
pub mod grammar;
pub mod progress;
pub mod runner;
pub mod shape;
pub mod stats;
