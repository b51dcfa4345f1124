//! Cross-chain reentrancy: a deposit on chain A that a relay on chain B
//! triggers before the relay has completed.

use vstd::prelude::*;

use crate::evm::oracles::{push_report, report};

verus! {

pub const CROSS_CHAIN_REENTRANCY_BUG_IDX: u64 = 21;

/// Reports a re-entrant deposit: more messages are pending during the relay
/// than before it, and the relayed message is still pending.
pub fn inspect_reentrancy(
    pending_before: usize,
    pending_during: usize,
    relay_still_pending: bool,
) -> (r: Vec<u64>)
    ensures
        r@ == report(
            pending_during > pending_before && relay_still_pending,
            CROSS_CHAIN_REENTRANCY_BUG_IDX,
        ),
{
    let mut bugs: Vec<u64> = Vec::new();
    push_report(
        &mut bugs,
        pending_during > pending_before && relay_still_pending,
        CROSS_CHAIN_REENTRANCY_BUG_IDX,
    );
    bugs
}

} // verus!
