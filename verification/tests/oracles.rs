use ityfuzz::collections::SortedMap;
use ityfuzz::evm::cross_chain::DualChainState;
use ityfuzz::evm::oracles::access_control::{
    AccessControlOracle, AccessControlState, ACCESS_CONTROL_BUG_IDX,
};
use ityfuzz::evm::oracles::cross_chain::{
    CrossChainOracle, CROSS_CHAIN_ATOMICITY_IDX, CROSS_CHAIN_DESYNC_IDX, CROSS_CHAIN_FAKE_MSG_IDX,
    CROSS_CHAIN_MINT_IDX,
};
use ityfuzz::evm::oracles::bug_name;
use ityfuzz::evm::oracles::integer_overflow::{overflow_threshold, IntegerOverflowOracle};
use ityfuzz::evm::oracles::reentrancy_crosschain::{
    inspect_reentrancy, CROSS_CHAIN_REENTRANCY_BUG_IDX,
};
use ityfuzz::evm::types::{EVMAddress, EVMU256};

// ------------------------------------------------------------- access control

fn make_oracle() -> AccessControlOracle {
    let mut ac = AccessControlState::new();
    let owner = EVMAddress::from([0x01u8; 20]);
    ac.add_privileged(owner);
    ac.add_sensitive_slot(EVMU256::from(0u64));
    AccessControlOracle::new(ac)
}

#[test]
fn test_privileged_caller_no_bug() {
    let oracle = make_oracle();
    let owner = EVMAddress::from([0x01u8; 20]);
    let mut before = SortedMap::new();
    let mut after = SortedMap::new();
    before.insert(EVMU256::zero(), EVMU256::from(1u64));
    after.insert(EVMU256::zero(), EVMU256::from(2u64));
    // The owner writes a sensitive slot: no bug
    assert!(oracle.inspect(owner, &before, &after).is_empty());
}

#[test]
fn test_unprivileged_caller_sensitive_write_fires() {
    let oracle = make_oracle();
    let attacker = EVMAddress::from([0xdeu8; 20]);
    let mut before = SortedMap::new();
    let mut after = SortedMap::new();
    before.insert(EVMU256::zero(), EVMU256::from(1u64));
    after.insert(EVMU256::zero(), EVMU256::from(99u64));
    let bugs = oracle.inspect(attacker, &before, &after);
    assert!(bugs.contains(&ACCESS_CONTROL_BUG_IDX));
}

#[test]
fn test_no_slot_change_no_bug() {
    let oracle = make_oracle();
    let attacker = EVMAddress::from([0xdeu8; 20]);
    let mut slots = SortedMap::new();
    slots.insert(EVMU256::zero(), EVMU256::from(42u64));
    // Nothing was written: no bug
    assert!(oracle.inspect(attacker, &slots, &slots).is_empty());
}

#[test]
fn test_inspect_relay_unprivileged() {
    let oracle = make_oracle();
    let attacker = EVMAddress::from([0xdeu8; 20]);
    let bugs = oracle.inspect_relay(attacker, true);
    assert!(bugs.contains(&ACCESS_CONTROL_BUG_IDX));
}

// ---------------------------------------------------------- bridge invariants

#[test]
fn test_clean_state_no_bugs() {
    assert!(CrossChainOracle::inspect(&DualChainState::new()).is_empty());
}

#[test]
fn test_fake_msg_returns_index_13() {
    let mut s = DualChainState::new();
    s.fake_message_accepted = true;
    assert!(CrossChainOracle::inspect(&s).contains(&CROSS_CHAIN_FAKE_MSG_IDX));
}

#[test]
fn test_mint_exceeds_lock_returns_index_12() {
    let mut s = DualChainState::new();
    let token = EVMAddress::default();
    s.locked_a.insert(token, EVMU256::from(100u64));
    s.minted_b.insert(token, EVMU256::from(999u64));
    assert!(CrossChainOracle::inspect(&s).contains(&CROSS_CHAIN_MINT_IDX));
}

#[test]
fn test_desync_returns_index_16() {
    let mut s = DualChainState::new();
    s.state_desync_detected = true;
    assert!(CrossChainOracle::inspect(&s).contains(&CROSS_CHAIN_DESYNC_IDX));
}

#[test]
fn test_atomicity_returns_index_18() {
    let mut s = DualChainState::new();
    s.atomicity_violated = true;
    assert!(CrossChainOracle::inspect(&s).contains(&CROSS_CHAIN_ATOMICITY_IDX));
}

// ----------------------------------------------------------- integer overflow

#[test]
fn test_underflow_detected() {
    let pre = EVMU256::from(1u64);
    let post = EVMU256::max_value() - EVMU256::from(1u64); // what unchecked 1 - 2 gives
    assert!(IntegerOverflowOracle::check_slot(pre, post));
}

#[test]
fn test_overflow_detected() {
    let pre = EVMU256::max_value() - EVMU256::from(1u64);
    let post = EVMU256::from(5u64); // wrapped past the maximum
    assert!(IntegerOverflowOracle::check_slot(pre, post));
}

#[test]
fn test_normal_increment_no_bug() {
    let pre = EVMU256::from(100u64);
    let post = EVMU256::from(101u64);
    assert!(!IntegerOverflowOracle::check_slot(pre, post));
}

#[test]
fn test_normal_decrement_no_bug() {
    let pre = EVMU256::from(100u64);
    let post = EVMU256::from(99u64);
    assert!(!IntegerOverflowOracle::check_slot(pre, post));
}

#[test]
fn test_inspect_vec_returns_idx_11() {
    let pre = EVMU256::from(1u64);
    let post = EVMU256::max_value() - EVMU256::from(1u64);
    let bugs = IntegerOverflowOracle::inspect(&[(EVMU256::zero(), pre, post)]);
    assert!(bugs.contains(&11u64));
}

// ----------------------------------------------------------------- reentrancy

#[test]
fn test_reentrancy_detected_when_queue_grows_mid_relay() {
    // pending grew from 1 to 2 while the relayed message was still pending
    let bugs = inspect_reentrancy(1, 2, true);
    assert!(bugs.contains(&CROSS_CHAIN_REENTRANCY_BUG_IDX));
}

#[test]
fn test_no_reentrancy_when_relay_already_processed() {
    // the relayed message was marked processed before the queue grew
    let bugs = inspect_reentrancy(1, 2, false);
    assert!(bugs.is_empty());
}

#[test]
fn test_no_reentrancy_when_queue_stable() {
    // the queue did not grow during the relay
    let bugs = inspect_reentrancy(1, 1, true);
    assert!(bugs.is_empty());
}

// --------------------------------------------------------------------- others

#[test]
fn every_flag_has_its_index() {
    let mut s = DualChainState::new();
    s.replay_detected = true;
    assert_eq!(CrossChainOracle::inspect(&s), vec![14]);
    s.queue_consistency_violated = true;
    s.drain_detected = true;
    s.reentrancy_detected = true;
    assert_eq!(CrossChainOracle::inspect(&s), vec![14, 17, 15, 21]);
}

#[test]
fn a_mint_without_lock_entry_is_no_mint_bug() {
    let mut s = DualChainState::new();
    s.mint_b(EVMAddress::default(), EVMU256::from(5u64));
    assert!(CrossChainOracle::inspect(&s).is_empty());
}

#[test]
fn insensitive_slots_may_change() {
    let oracle = make_oracle();
    let mut after = SortedMap::new();
    after.insert(EVMU256::from(9u64), EVMU256::from(99u64));
    let stranger = EVMAddress::from([0xdeu8; 20]);
    assert!(oracle.inspect(stranger, &SortedMap::new(), &after).is_empty());
    // a sensitive slot that appears with value zero did not change
    after.insert(EVMU256::zero(), EVMU256::zero());
    assert!(oracle.inspect(stranger, &SortedMap::new(), &after).is_empty());
    assert!(oracle.inspect_relay(stranger, false).is_empty());
}

#[test]
fn wraps_are_told_at_the_edges() {
    let near = overflow_threshold();
    let just_above = near.saturating_add(EVMU256::from(1u64));
    let small = EVMU256::from(999_999u64);
    let large = EVMU256::from(1_000_000u64);
    assert!(IntegerOverflowOracle::check_slot(small, just_above));
    assert!(!IntegerOverflowOracle::check_slot(large, just_above));
    assert!(!IntegerOverflowOracle::check_slot(small, near));
    assert_eq!(IntegerOverflowOracle::inspect_value(just_above, small), vec![11]);
    assert!(IntegerOverflowOracle::inspect_value(small, small).is_empty());
}

#[test]
fn bugs_have_names() {
    assert_eq!(bug_name(0), "ERC20_BUG");
    assert_eq!(bug_name(3), "UNKNOWN");
    assert_eq!(bug_name(12), "CROSS_CHAIN_MINT");
    assert_eq!(bug_name(20), "PRICE_ORACLE_MANIP");
    assert_eq!(bug_name(21), "CROSS_CHAIN_REENTRANCY");
    assert_eq!(bug_name(22), "UNKNOWN");
}

#[test]
fn a_copy_of_the_privileges_is_the_same() {
    let oracle = make_oracle();
    let copy = AccessControlOracle::new(oracle.ac_state.clone());
    let owner = EVMAddress::from([0x01u8; 20]);
    assert!(copy.ac_state.privileged_addrs.contains(&owner));
    assert!(copy.ac_state.sensitive_slots.contains(&EVMU256::zero()));
    assert!(copy.inspect_relay(owner, true).is_empty());
}
