//! The bridge invariants, checked on a snapshot of the dual-chain state.

use vstd::prelude::*;

use crate::collections::SortedMap;
use crate::evm::cross_chain::{amount_of, DualChainState, StateView};
use crate::evm::oracles::{push_report, report};
use crate::evm::types::{EVMAddress, EVMU256};

verus! {

pub const CROSS_CHAIN_MINT_IDX: u64 = 12;

pub const CROSS_CHAIN_FAKE_MSG_IDX: u64 = 13;

pub const CROSS_CHAIN_REPLAY_IDX: u64 = 14;

pub const CROSS_CHAIN_DRAIN_IDX: u64 = 15;

pub const CROSS_CHAIN_DESYNC_IDX: u64 = 16;

pub const CROSS_CHAIN_QUEUE_IDX: u64 = 17;

pub const CROSS_CHAIN_ATOMICITY_IDX: u64 = 18;

pub const CROSS_CHAIN_REENTRANCY_IDX: u64 = 21;

/// Reports which bridge invariants a state breaks.
#[derive(Clone, Copy, Debug, PartialEq, Eq, Structural)]
pub struct CrossChainOracle;

/// Whether some token that has a lock entry was minted beyond it.
pub open spec fn mint_exceeds_lock(s: StateView) -> bool {
    exists|token: EVMAddress| #[trigger] s.locked_a.contains_key(token) && s.overminted(token)
}

/// The bugs that a state shows, in the order of the invariants.
pub open spec fn bugs_of(s: StateView) -> Seq<u64> {
    report(mint_exceeds_lock(s), CROSS_CHAIN_MINT_IDX) + report(
        s.fake_message_accepted,
        CROSS_CHAIN_FAKE_MSG_IDX,
    ) + report(s.replay_detected, CROSS_CHAIN_REPLAY_IDX) + report(
        s.state_desync_detected,
        CROSS_CHAIN_DESYNC_IDX,
    ) + report(s.queue_consistency_violated, CROSS_CHAIN_QUEUE_IDX) + report(
        s.atomicity_violated,
        CROSS_CHAIN_ATOMICITY_IDX,
    ) + report(s.drain_detected, CROSS_CHAIN_DRAIN_IDX) + report(
        s.reentrancy_detected,
        CROSS_CHAIN_REENTRANCY_IDX,
    )
}

/// Whether some entry of `locked` is below the minted amount of its token.
fn any_mint_exceeds_lock(
    locked: &SortedMap<EVMAddress, EVMU256>,
    minted: &SortedMap<EVMAddress, EVMU256>,
) -> (r: bool)
    ensures
        r == exists|token: EVMAddress| #[trigger]
            locked@.contains_key(token) && crate::evm::cross_chain::amount(minted@, token)
                > crate::evm::cross_chain::amount(locked@, token),
{
    let n: usize = locked.len();
    let mut i: usize = 0;
    let ghost s = locked.in_order();
    while i < n
        invariant
            i <= n == s.len(),
            s == locked.in_order(),
            forall|j: int|
                0 <= j < i ==> crate::evm::cross_chain::amount(minted@, #[trigger] s[j].0)
                    <= crate::evm::cross_chain::amount(locked@, s[j].0),
        decreases n - i,
    {
        let (token, amount) = locked.entry_at(i);
        if amount_of(minted, &token).exceeds(amount) {
            assert(locked@.contains_key(token));
            return true;
        }
        i = i + 1;
    }
    assert forall|token: EVMAddress| #[trigger] locked@.contains_key(token) implies
        crate::evm::cross_chain::amount(minted@, token) <= crate::evm::cross_chain::amount(
        locked@,
        token,
    ) by {
        let j = choose|j: int| 0 <= j < s.len() && #[trigger] s[j].0 == token;
        assert(s[j].0 == token);
    }
    false
}

impl CrossChainOracle {
    pub fn new() -> (r: CrossChainOracle)
        ensures
            r == CrossChainOracle,
    {
        CrossChainOracle
    }

    /// All bug indices that `state` shows.
    pub fn inspect(state: &DualChainState) -> (r: Vec<u64>)
        ensures
            r@ == bugs_of(state@),
    {
        let mut bugs: Vec<u64> = Vec::new();
        let mint = any_mint_exceeds_lock(&state.locked_a, &state.minted_b);
        assert(mint == mint_exceeds_lock(state@)) by {
            if mint {
                let token = choose|token: EVMAddress| #[trigger]
                    state.locked_a@.contains_key(token) && crate::evm::cross_chain::amount(
                        state.minted_b@,
                        token,
                    ) > crate::evm::cross_chain::amount(state.locked_a@, token);
                assert(state@.locked_a.contains_key(token));
            }
        }
        push_report(&mut bugs, mint, CROSS_CHAIN_MINT_IDX);
        push_report(&mut bugs, state.fake_message_accepted, CROSS_CHAIN_FAKE_MSG_IDX);
        push_report(&mut bugs, state.replay_detected, CROSS_CHAIN_REPLAY_IDX);
        push_report(&mut bugs, state.state_desync_detected, CROSS_CHAIN_DESYNC_IDX);
        push_report(&mut bugs, state.queue_consistency_violated, CROSS_CHAIN_QUEUE_IDX);
        push_report(&mut bugs, state.atomicity_violated, CROSS_CHAIN_ATOMICITY_IDX);
        push_report(&mut bugs, state.drain_detected, CROSS_CHAIN_DRAIN_IDX);
        push_report(&mut bugs, state.reentrancy_detected, CROSS_CHAIN_REENTRANCY_IDX);
        assert(bugs@ =~= bugs_of(state@));
        bugs
    }
}

/// Each invariant has its own index: an index is reported exactly where its
/// invariant is broken, and none is reported twice.
pub proof fn law_report_is_exact(s: StateView)
    ensures
        bugs_of(s).contains(CROSS_CHAIN_MINT_IDX) == mint_exceeds_lock(s),
        bugs_of(s).contains(CROSS_CHAIN_FAKE_MSG_IDX) == s.fake_message_accepted,
        bugs_of(s).contains(CROSS_CHAIN_REPLAY_IDX) == s.replay_detected,
        bugs_of(s).contains(CROSS_CHAIN_DESYNC_IDX) == s.state_desync_detected,
        bugs_of(s).contains(CROSS_CHAIN_QUEUE_IDX) == s.queue_consistency_violated,
        bugs_of(s).contains(CROSS_CHAIN_ATOMICITY_IDX) == s.atomicity_violated,
        bugs_of(s).contains(CROSS_CHAIN_DRAIN_IDX) == s.drain_detected,
        bugs_of(s).contains(CROSS_CHAIN_REENTRANCY_IDX) == s.reentrancy_detected,
        bugs_of(s).no_duplicates(),
{
    let a = Seq::<u64>::empty();
    let b = a + report(mint_exceeds_lock(s), CROSS_CHAIN_MINT_IDX);
    lemma_report_appends(a, mint_exceeds_lock(s), CROSS_CHAIN_MINT_IDX);
    assert(b =~= report(mint_exceeds_lock(s), CROSS_CHAIN_MINT_IDX));
    let c = b + report(s.fake_message_accepted, CROSS_CHAIN_FAKE_MSG_IDX);
    lemma_report_appends(b, s.fake_message_accepted, CROSS_CHAIN_FAKE_MSG_IDX);
    let d = c + report(s.replay_detected, CROSS_CHAIN_REPLAY_IDX);
    lemma_report_appends(c, s.replay_detected, CROSS_CHAIN_REPLAY_IDX);
    let e = d + report(s.state_desync_detected, CROSS_CHAIN_DESYNC_IDX);
    lemma_report_appends(d, s.state_desync_detected, CROSS_CHAIN_DESYNC_IDX);
    let f = e + report(s.queue_consistency_violated, CROSS_CHAIN_QUEUE_IDX);
    lemma_report_appends(e, s.queue_consistency_violated, CROSS_CHAIN_QUEUE_IDX);
    let g = f + report(s.atomicity_violated, CROSS_CHAIN_ATOMICITY_IDX);
    lemma_report_appends(f, s.atomicity_violated, CROSS_CHAIN_ATOMICITY_IDX);
    let h = g + report(s.drain_detected, CROSS_CHAIN_DRAIN_IDX);
    lemma_report_appends(g, s.drain_detected, CROSS_CHAIN_DRAIN_IDX);
    lemma_report_appends(h, s.reentrancy_detected, CROSS_CHAIN_REENTRANCY_IDX);
}

/// A report behind other bugs adds its own index and nothing else.
proof fn lemma_report_appends(bugs: Seq<u64>, found: bool, idx: u64)
    ensures
        forall|x: u64| #[trigger]
            (bugs + report(found, idx)).contains(x) == (bugs.contains(x) || (found && x == idx)),
        bugs.no_duplicates() && !bugs.contains(idx) ==> (bugs + report(
            found,
            idx,
        )).no_duplicates(),
{
    let all = bugs + report(found, idx);
    assert forall|x: u64| #[trigger] all.contains(x) == (bugs.contains(x) || (found && x
        == idx)) by {
        if bugs.contains(x) {
            let i = choose|i: int| 0 <= i < bugs.len() && bugs[i] == x;
            assert(all[i] == x);
        }
        if found && x == idx {
            assert(all[bugs.len() as int] == x);
        }
    }
}

/// A fresh state shows no bug.
pub proof fn law_fresh_state_is_clean()
    ensures
        bugs_of(StateView::empty()) == Seq::<u64>::empty(),
{
    assert(bugs_of(StateView::empty()) =~= Seq::<u64>::empty());
}

impl Default for CrossChainOracle {
    fn default() -> (r: CrossChainOracle)
        ensures
            r == CrossChainOracle,
    {
        Self::new()
    }
}

} // verus!
