//! Property-based fuzzing of EVM contract calls: the value dictionary fed by
//! each call, the classification of a call's outcome, the session aggregator
//! and the statistics over recorded cases.

pub mod cases;
pub mod counterexample;
pub mod coverage;
pub mod dictionary;
pub mod outcome;
pub mod session;
pub mod stats;
pub mod strategy;
