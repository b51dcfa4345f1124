# ityfuzz

The core of a fuzzer for cross-chain bridges, verified with Verus.

Chain A locks tokens, chain B mints them, and a queue of messages lies between
the two. A campaign mutates calldata, deposits on chain A, relays to chain B and
asks oracles whether an invariant of the bridge broke.

## Layout

- `src/evm/cross_chain/` holds messages, the queue, the dual-chain state, the
  executor, the recorded exploit paths, and their laws.
- `src/evm/middlewares/` holds the verification pipeline for messages.
- `src/evm/oracles/` holds the oracles; each reports bug indices.
- `src/evm/mutator.rs` mutates bridge calldata; `src/evm/fuzz_mutator.rs` makes
  the decisions behind the mutation of an EVM input.
- `src/fuzzers/` holds the campaign.
- `src/rl_scheduler.rs` holds the bandit scheduler.
- `src/evm/types.rs`, `src/collections.rs` and `src/text.rs` hold words,
  addresses, ordered maps and sets, and decimal notation.
- `tests/` runs the library.
- `app/` is ordinary Rust around it: clocks, files, floating point, and the
  adapters to LibAFL and to the EVM interpreter.

## How to read the contracts

Each type has a view, a mathematical value that says what it holds. An executable
function says in its `ensures` how the views before and after the call relate;
spec functions such as `relayed`, `iterated` or `recorded` name those relations.
Proof functions whose names begin with `law_` state what holds of several
functions together.

Where a result depends on the order in which a hash set is walked, the contract
says that some order explains the result, and a sibling function takes what that
order decided as an argument.

Random numbers come from a generator whose state is part of the views, so that a
campaign is a function of its seed and of the corpus entries that it selects.
Means and scores of the scheduler are real numbers; the library sees integers in
the same order, and `app/` does the arithmetic.
