//! Bridge fuzzing core: cross-chain message model, executor, oracles, mutators
//! and scheduling decisions, with machine-checked contracts.

pub mod collections;
pub mod evm;
pub mod fuzzers;
pub mod rl_scheduler;
pub mod scheduler_effects;
pub mod text;
