//! Core engine of an LLM code-quality evaluation harness.
//!
//! The library holds the verified logic of the harness: the data model,
//! the code extractor, the diagnostic and test-output parsers, the sandbox
//! planning, the provider error taxonomy and retry policy, the scorer, the
//! Pass@k estimator with its aggregate statistics, and the report
//! comparator. I/O, subprocesses and HTTP live outside the library.

pub mod config;
pub mod diagnostics;
pub mod engine;
pub mod errors;
pub mod extract;
pub mod json;
pub mod model;
pub mod parser;
pub mod providers;
pub mod report;
pub mod results;
pub mod sandbox;
pub mod statistics;
pub mod test_output;
pub mod text;

use vstd::prelude::*;

verus! {

/// Fixed-point scale for rates and scores: values are in millionths,
/// so `RATE_SCALE` stands for the rate 1.0.
pub const RATE_SCALE: u64 = 1_000_000;

} // verus!
