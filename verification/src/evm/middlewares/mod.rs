//! Checks between the fuzzer and the chains.

pub mod cross_chain_interceptor;
