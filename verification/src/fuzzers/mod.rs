//! Fuzzing campaigns.

pub mod cross_chain_fuzzer;
pub mod iteration_effects;
