//! What the oracles report, and what they leave unreported.

use vstd::prelude::*;

use crate::evm::cross_chain::{amount, StateView};
use crate::evm::oracles::access_control::{slot_value, AccessControlOracle};
use crate::evm::oracles::cross_chain::{bugs_of, law_report_is_exact, mint_exceeds_lock};
use crate::evm::oracles::integer_overflow::{some_wrapped, wrapped};
use crate::evm::oracles::price_oracle_manip::{comparable, first_pool, some_moved, PoolState};
use crate::evm::oracles::{name_of_bug, report};
use crate::evm::types::{EVMAddress, EVMU256};

verus! {

// ----------------------------------------------------------------- the bridge

/// A report holds its bug once where it was found, and is empty otherwise.
pub proof fn law_report_holds_its_bug(found: bool, idx: u64)
    ensures
        found ==> report(found, idx).len() == 1 && report(found, idx)[0] == idx,
        !found ==> report(found, idx).len() == 0,
{
}

/// A token that was minted beyond its lock is reported, and nothing is where
/// every token that has a lock is covered by it.
pub proof fn law_overmint_is_reported(s: StateView, token: EVMAddress)
    ensures
        s.locked_a.contains_key(token) && amount(s.minted_b, token) > amount(s.locked_a, token)
            ==> bugs_of(s).contains(12),
        (forall|t: EVMAddress|
            s.locked_a.contains_key(t) ==> #[trigger] amount(s.minted_b, t) <= amount(
                s.locked_a,
                t,
            )) ==> !bugs_of(s).contains(12),
{
    law_report_is_exact(s);
    if s.locked_a.contains_key(token) && amount(s.minted_b, token) > amount(s.locked_a, token) {
        assert(s.overminted(token));
    }
    if forall|t: EVMAddress|
        s.locked_a.contains_key(t) ==> #[trigger] amount(s.minted_b, t) <= amount(s.locked_a, t) {
        if mint_exceeds_lock(s) {
            let t = choose|t: EVMAddress| #[trigger]
                s.locked_a.contains_key(t) && s.overminted(t);
            assert(amount(s.minted_b, t) <= amount(s.locked_a, t));
        }
    }
}

/// Each flag of the state is reported under its own number.
pub proof fn law_flags_are_reported(s: StateView)
    ensures
        bugs_of(s).contains(13) <==> s.fake_message_accepted,
        bugs_of(s).contains(14) <==> s.replay_detected,
        bugs_of(s).contains(15) <==> s.drain_detected,
        bugs_of(s).contains(16) <==> s.state_desync_detected,
        bugs_of(s).contains(17) <==> s.queue_consistency_violated,
        bugs_of(s).contains(18) <==> s.atomicity_violated,
        bugs_of(s).contains(21) <==> s.reentrancy_detected,
        bugs_of(s).no_duplicates(),
{
    law_report_is_exact(s);
}

/// Where a bug stands in a report of the bridge.
pub open spec fn place(bug: u64) -> int {
    if bug == 12 {
        0
    } else if bug == 13 {
        1
    } else if bug == 14 {
        2
    } else if bug == 16 {
        3
    } else if bug == 17 {
        4
    } else if bug == 18 {
        5
    } else if bug == 15 {
        6
    } else if bug == 21 {
        7
    } else {
        8
    }
}

/// Whether the bugs stand in their order, all before place `end`.
pub open spec fn in_places(bugs: Seq<u64>, end: int) -> bool {
    &&& forall|i: int, j: int|
        0 <= i < j < bugs.len() ==> place(#[trigger] bugs[i]) < place(#[trigger] bugs[j])
    &&& forall|i: int| 0 <= i < bugs.len() ==> place(#[trigger] bugs[i]) < end
}

proof fn lemma_in_places(bugs: Seq<u64>, found: bool, idx: u64)
    requires
        in_places(bugs, place(idx)),
    ensures
        in_places(bugs + report(found, idx), place(idx) + 1),
{
    let all = bugs + report(found, idx);
    assert forall|i: int, j: int| 0 <= i < j < all.len() implies place(#[trigger] all[i]) < place(
        #[trigger] all[j],
    ) by {
        assert(all[i] == bugs[i]);
        if j < bugs.len() {
            assert(all[j] == bugs[j]);
        }
    }
    assert forall|i: int| 0 <= i < all.len() implies place(#[trigger] all[i]) < place(idx) + 1 by {
        if i < bugs.len() {
            assert(all[i] == bugs[i]);
        }
    }
}

/// The bugs of the bridge come in a fixed order: mint, fake message, replay,
/// desync, queue, atomicity, drain, re-entrancy; and there is no other.
pub proof fn law_bugs_come_in_order(s: StateView)
    ensures
        in_places(bugs_of(s), 8),
{
    let a = Seq::<u64>::empty() + report(mint_exceeds_lock(s), 12);
    assert(a =~= report(mint_exceeds_lock(s), 12));
    lemma_in_places(Seq::empty(), mint_exceeds_lock(s), 12);
    let b = a + report(s.fake_message_accepted, 13);
    lemma_in_places(a, s.fake_message_accepted, 13);
    let c = b + report(s.replay_detected, 14);
    lemma_in_places(b, s.replay_detected, 14);
    let d = c + report(s.state_desync_detected, 16);
    lemma_in_places(c, s.state_desync_detected, 16);
    let e = d + report(s.queue_consistency_violated, 17);
    lemma_in_places(d, s.queue_consistency_violated, 17);
    let f = e + report(s.atomicity_violated, 18);
    lemma_in_places(e, s.atomicity_violated, 18);
    let g = f + report(s.drain_detected, 15);
    lemma_in_places(f, s.drain_detected, 15);
    lemma_in_places(g, s.reentrancy_detected, 21);
    assert(bugs_of(s) == g + report(s.reentrancy_detected, 21));
}

/// The names of the bugs. A number without a bug has no name of its own.
pub proof fn law_bug_names(idx: u64)
    ensures
        idx == 0 ==> name_of_bug(idx) == "ERC20_BUG"@,
        idx == 1 ==> name_of_bug(idx) == "FUNCTION_BUG"@,
        idx == 2 ==> name_of_bug(idx) == "V2_PAIR_BUG"@,
        idx == 4 ==> name_of_bug(idx) == "TYPED_BUG"@,
        idx == 5 ==> name_of_bug(idx) == "SELFDESTRUCT"@,
        idx == 6 ==> name_of_bug(idx) == "ECHIDNA"@,
        idx == 7 ==> name_of_bug(idx) == "STATE_COMP"@,
        idx == 8 ==> name_of_bug(idx) == "ARB_CALL"@,
        idx == 9 ==> name_of_bug(idx) == "REENTRANCY"@,
        idx == 10 ==> name_of_bug(idx) == "INVARIANT"@,
        idx == 11 ==> name_of_bug(idx) == "INTEGER_OVERFLOW"@,
        idx == 12 ==> name_of_bug(idx) == "CROSS_CHAIN_MINT"@,
        idx == 13 ==> name_of_bug(idx) == "CROSS_CHAIN_FAKE_MSG"@,
        idx == 14 ==> name_of_bug(idx) == "CROSS_CHAIN_REPLAY"@,
        idx == 15 ==> name_of_bug(idx) == "CROSS_CHAIN_DRAIN"@,
        idx == 16 ==> name_of_bug(idx) == "CROSS_CHAIN_DESYNC"@,
        idx == 17 ==> name_of_bug(idx) == "CROSS_CHAIN_QUEUE"@,
        idx == 18 ==> name_of_bug(idx) == "CROSS_CHAIN_ATOMICITY"@,
        idx == 19 ==> name_of_bug(idx) == "ACCESS_CONTROL"@,
        idx == 20 ==> name_of_bug(idx) == "PRICE_ORACLE_MANIP"@,
        idx == 21 ==> name_of_bug(idx) == "CROSS_CHAIN_REENTRANCY"@,
        idx == 3 || idx > 21 ==> name_of_bug(idx) == "UNKNOWN"@,
{
}

// ------------------------------------------------------------------- overflow

/// Taking more than there is from a small number is found out, as long as what
/// is missing is less than half the range of a word.
pub proof fn law_underflow_is_found(pre: EVMU256, post: EVMU256, taken: nat)
    requires
        pre.value() < 1_000_000,
        pre.value() < taken < pre.value() + (EVMU256::max_nat() + 1) / 2,
        post.value() + taken == pre.value() + EVMU256::max_nat() + 1,
    ensures
        wrapped(pre, post),
{
}

/// Adding beyond the largest word is found out, as long as the number was in the
/// upper half of the range and what is left over is small.
pub proof fn law_overflow_is_found(pre: EVMU256, post: EVMU256, added: nat)
    requires
        2 * pre.value() > EVMU256::max_nat() + 1,
        pre.value() + added == post.value() + EVMU256::max_nat() + 1,
        post.value() < 1_000_000,
    ensures
        wrapped(pre, post),
{
}

/// Only a long jump counts as a wrap: one between a number below a million and
/// one in the upper half of the range.
pub proof fn law_wraps_are_long_jumps(pre: EVMU256, post: EVMU256)
    requires
        wrapped(pre, post),
    ensures
        pre.value() < 1_000_000 || post.value() < 1_000_000,
        2 * pre.value() > EVMU256::max_nat() + 1 || 2 * post.value() > EVMU256::max_nat() + 1,
{
}

/// A list of changes is reported exactly where one of them wrapped, wherever it
/// stands.
pub proof fn law_any_wrap_is_found(
    some: Seq<(EVMU256, EVMU256, EVMU256)>,
    others: Seq<(EVMU256, EVMU256, EVMU256)>,
    change: (EVMU256, EVMU256, EVMU256),
)
    ensures
        some_wrapped(seq![change]) <==> wrapped(change.1, change.2),
        some_wrapped(some + others) <==> some_wrapped(some) || some_wrapped(others),
        !some_wrapped(Seq::<(EVMU256, EVMU256, EVMU256)>::empty()),
{
    assert(seq![change][0] == change);
    let all = some + others;
    if some_wrapped(some) {
        let i = choose|i: int| 0 <= i < some.len() && wrapped((#[trigger] some[i]).1, some[i].2);
        assert(all[i] == some[i]);
    }
    if some_wrapped(others) {
        let i = choose|i: int|
            0 <= i < others.len() && wrapped((#[trigger] others[i]).1, others[i].2);
        assert(all[some.len() + i] == others[i]);
    }
    if some_wrapped(all) {
        let i = choose|i: int| 0 <= i < all.len() && wrapped((#[trigger] all[i]).1, all[i].2);
        if i < some.len() {
            assert(some[i] == all[i]);
        } else {
            assert(others[i - some.len()] == all[i]);
        }
    }
}

// --------------------------------------------------------------------- prices

/// A pool is compared with the first one of the snapshot that has its address,
/// and only where both reserves of that one are there.
pub proof fn law_pool_is_compared_with_the_first(
    pre_pools: Seq<PoolState>,
    post: PoolState,
    k: int,
)
    requires
        0 <= k < pre_pools.len(),
        pre_pools[k].pool_addr == post.pool_addr,
        forall|i: int| 0 <= i < k ==> (#[trigger] pre_pools[i]).pool_addr != post.pool_addr,
    ensures
        first_pool(pre_pools, post.pool_addr) == Some(pre_pools[k]),
        comparable(pre_pools, post) <==> pre_pools[k].reserve_a.value() > 0
            && pre_pools[k].reserve_b.value() > 0,
    decreases k,
{
    if k > 0 {
        let rest = pre_pools.drop_first();
        assert(pre_pools[0].pool_addr != post.pool_addr);
        assert(rest[k - 1] == pre_pools[k]);
        assert forall|i: int| 0 <= i < k - 1 implies (#[trigger] rest[i]).pool_addr
            != post.pool_addr by {
            assert(rest[i] == pre_pools[i + 1]);
        }
        law_pool_is_compared_with_the_first(rest, post, k - 1);
    }
}

/// A move of any pool that can be compared is reported, and a move of no other.
pub proof fn law_any_move_is_found(
    pre_pools: Seq<PoolState>,
    post_pools: Seq<PoolState>,
    moved: Seq<bool>,
    k: int,
)
    requires
        moved.len() == post_pools.len(),
    ensures
        0 <= k < post_pools.len() && comparable(pre_pools, post_pools[k]) && moved[k]
            ==> some_moved(pre_pools, post_pools, moved),
        (forall|i: int|
            0 <= i < post_pools.len() ==> !comparable(pre_pools, #[trigger] post_pools[i])
                || !moved[i]) ==> !some_moved(pre_pools, post_pools, moved),
{
}


// ------------------------------------------------------------- access control

/// A breach needs a caller without privileges and a sensitive slot with another
/// number afterwards; a slot without an entry holds zero. Any such slot is
/// enough.
pub proof fn law_breach_by_facts(
    oracle: AccessControlOracle,
    caller: EVMAddress,
    before: Map<EVMU256, EVMU256>,
    after: Map<EVMU256, EVMU256>,
    slot: EVMU256,
)
    ensures
        ({
            let held = if before.contains_key(slot) {
                before[slot].value()
            } else {
                0
            };
            let holds = if after.contains_key(slot) {
                after[slot].value()
            } else {
                0
            };
            &&& !oracle.ac_state.privileged_addrs@.contains(caller)
                && oracle.ac_state.sensitive_slots@.contains(slot) && held != holds
                ==> oracle.breached(caller, before, after)
        }),
        oracle.breached(caller, before, after)
            ==> !oracle.ac_state.privileged_addrs@.contains(caller) && exists|s: EVMU256| #[trigger]
            oracle.ac_state.sensitive_slots@.contains(s) && before.get(s) != after.get(s),
{
    if oracle.breached(caller, before, after) {
        let s = choose|s: EVMU256| #[trigger]
            oracle.ac_state.sensitive_slots@.contains(s) && slot_value(before, s) != slot_value(
                after,
                s,
            );
        assert(before.get(s) != after.get(s));
    }
    if oracle.ac_state.sensitive_slots@.contains(slot) {
        assert(slot_value(before, slot) == slot_value(before, slot));
    }
}

} // verus!
