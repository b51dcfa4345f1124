use std::collections::hash_map::DefaultHasher;
use std::hash::{Hash, Hasher};

use ityfuzz::collections::SortedMap;
use ityfuzz::evm::cross_chain::{
    CrossChainMessage, CrossChainMessageQueue, DualChainState, MessageStatus,
};
use ityfuzz::evm::types::{EVMAddress, EVMU256};
use revm_primitives::{B160, U256};

/// The state hash changes after a message is pushed.
#[test]
fn test_hash_changes_on_mutation() {
    let mut state_a = DualChainState::new();
    let state_b = DualChainState::new();

    let hash_before = state_a.state_hash();
    let hash_before_b = state_b.state_hash();

    // Two fresh states should be equal
    assert_eq!(hash_before, hash_before_b);

    // Push a message to state_a
    let msg = CrossChainMessage::new(
        42,
        EVMAddress::default(),
        EVMAddress::default(),
        vec![0xde, 0xad],
        EVMU256::from(1000u64),
        [0u8; 32],
        false,
    );
    state_a.queue.push(msg);

    let hash_after = state_a.state_hash();
    assert_ne!(hash_before, hash_after, "Hash must change after message push");
}

/// Replay detection goes by the processed nonces.
#[test]
fn test_replay_detection() {
    let mut state = DualChainState::new();
    let msg = CrossChainMessage::new(
        42,
        EVMAddress::default(),
        EVMAddress::default(),
        vec![],
        EVMU256::zero(),
        [0u8; 32],
        false,
    );
    let id = state.queue.push(msg);

    assert!(!state.queue.is_nonce_replayed(42), "Nonce not yet processed");
    state.queue.mark_processed(id);
    assert!(state.queue.is_nonce_replayed(42), "Nonce must be replayed after processing");
}

fn message(nonce: u64) -> CrossChainMessage {
    CrossChainMessage::new(
        nonce,
        EVMAddress::default(),
        EVMAddress::default(),
        vec![],
        EVMU256::zero(),
        [1u8; 32],
        false,
    )
}

#[test]
fn identifiers_count_up() {
    let mut q = DualChainState::new().queue;
    assert_eq!(q.push(message(7)), 0);
    assert_eq!(q.push(message(7)), 1);
    assert_eq!(q.messages[1].id, 1);
    assert_eq!(q.next_id, 2);
    assert_eq!(q.total_count(), 2);
}

#[test]
fn statuses_add_up() {
    let mut q = CrossChainMessageQueue::new();
    for n in 0..5 {
        q.push(message(n));
    }
    q.mark_processed(1);
    q.mark_dropped(3);
    q.mark_processed(9);
    q.mark_dropped(9);
    assert_eq!(q.pending_count(), 3);
    assert_eq!(q.processed_count(), 1);
    assert_eq!(q.dropped_count(), 1);
    assert_eq!(q.total_count(), 5);
    let ids: Vec<u64> = q.pending().iter().map(|m| m.id).collect();
    assert_eq!(ids, vec![0, 2, 4]);
    assert_eq!(q.messages[1].status, MessageStatus::Processed);
    assert!(q.is_nonce_replayed(1));
    assert!(!q.is_nonce_replayed(3));
}

#[test]
fn amounts_saturate() {
    let mut s = DualChainState::new();
    let token = EVMAddress::from([4u8; 20]);
    s.lock_a(token, EVMU256::from(5u64));
    s.lock_a(token, EVMU256::from(6u64));
    assert_eq!(s.locked_a.get(&token), Some(&EVMU256::from(11u64)));
    s.mint_b(token, EVMU256::max_value());
    s.mint_b(token, EVMU256::from(1u64));
    assert_eq!(s.minted_b.get(&token), Some(&EVMU256::max_value()));
}

#[test]
fn the_hash_sees_storage_and_status() {
    let mut a = DualChainState::new();
    let mut b = DualChainState::new();
    let mut slots_a = SortedMap::new();
    slots_a.insert(EVMU256::from(1u64), EVMU256::from(2u64));
    a.state_a.state.insert(EVMAddress::default(), slots_a);
    let mut slots_b = SortedMap::new();
    slots_b.insert(EVMU256::from(1u64), EVMU256::from(3u64));
    b.state_a.state.insert(EVMAddress::default(), slots_b);
    assert_ne!(a.state_hash(), b.state_hash());

    let mut c = DualChainState::new();
    c.queue.push(message(1));
    let before = c.state_hash();
    c.queue.mark_dropped(0);
    assert_ne!(before, c.state_hash());
    // what is not hashed does not show
    let after = c.state_hash();
    c.lock_a(EVMAddress::default(), EVMU256::from(1u64));
    assert_eq!(after, c.state_hash());
}

#[test]
fn a_copy_of_a_state_is_the_same_state() {
    let mut s = DualChainState::new();
    let mut slots = SortedMap::new();
    slots.insert(EVMU256::from(1u64), EVMU256::from(2u64));
    s.state_b.state.insert(EVMAddress::from([5u8; 20]), slots);
    s.queue.push(message(3));
    s.queue.mark_processed(0);
    s.lock_a(EVMAddress::default(), EVMU256::from(9u64));
    s.replay_detected = true;
    let mut t = s.clone();
    assert_eq!(t.state_hash(), s.state_hash());
    assert!(t.queue.is_nonce_replayed(3));
    assert_eq!(t.locked_a.get(&EVMAddress::default()), Some(&EVMU256::from(9u64)));
    assert!(t.replay_detected);
    t.queue.push(message(4));
    assert_eq!(s.queue.total_count(), 1);
}

#[test]
fn the_hash_is_that_of_the_hashed_values() {
    let mut s = DualChainState::new();
    let (low, high) = ([1u8; 20], [2u8; 20]);
    let mut slots = SortedMap::new();
    slots.insert(EVMU256 { hi: 3, lo: 4 }, EVMU256::from(7u64));
    slots.insert(EVMU256::from(5u64), EVMU256::max_value());
    s.state_a.state.insert(EVMAddress::from(high), slots);
    s.state_a.state.insert(EVMAddress::from(low), SortedMap::new());
    let mut slots = SortedMap::new();
    slots.insert(EVMU256::zero(), EVMU256::from(0x0102_0304u64));
    s.state_b.state.insert(EVMAddress::from(low), slots);
    s.queue.push(message(1));
    s.queue.push(message(2));
    s.queue.mark_dropped(1);

    let mut h = DefaultHasher::new();
    B160(low).hash(&mut h);
    B160(high).hash(&mut h);
    U256::from(5u64).hash(&mut h);
    U256::MAX.hash(&mut h);
    U256::from_limbs([4, 0, 3, 0]).hash(&mut h);
    U256::from(7u64).hash(&mut h);
    B160(low).hash(&mut h);
    U256::ZERO.hash(&mut h);
    U256::from(0x0102_0304u64).hash(&mut h);
    for (id, flags) in [(0u64, [true, false, false]), (1u64, [false, false, true])] {
        id.hash(&mut h);
        for flag in flags {
            flag.hash(&mut h);
        }
    }
    assert_eq!(s.state_hash(), h.finish());
}
