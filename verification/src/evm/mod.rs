//! The EVM side of the fuzzer.

pub mod cross_chain;
pub mod fuzz_mutator;
pub mod middlewares;
pub mod mutation_choices;
pub mod mutation_effects;
pub mod mutator;
pub mod oracles;
pub mod types;
