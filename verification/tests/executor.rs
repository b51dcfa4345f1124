use ityfuzz::evm::cross_chain::executor::{
    xorshift64, CrossChainMutationMeta, DualChainExecutor,
};
use ityfuzz::evm::cross_chain::exploit_path::StepKind;
use ityfuzz::evm::cross_chain::{CrossChainMessage, DualChainState, MessageStatus};
use ityfuzz::evm::middlewares::cross_chain_interceptor::MockVerificationConfig;
use ityfuzz::evm::oracles::cross_chain::CrossChainOracle;
use ityfuzz::evm::types::{EVMAddress, EVMU256};

fn exec(seed: u64) -> DualChainExecutor {
    DualChainExecutor::new(DualChainState::new(), Some(seed), MockVerificationConfig::default())
}

fn real_msg(nonce: u64, value: u64) -> CrossChainMessage {
    CrossChainMessage::new(
        nonce,
        EVMAddress::default(),
        EVMAddress::default(),
        vec![0xab; 32],
        EVMU256::from(value),
        [1u8; 32],
        false,
    )
}

#[test]
fn test_relay_no_pending_returns_false() {
    assert!(!exec(0).execute_relay(EVMAddress::default(), 5, None));
}

#[test]
fn test_deposit_then_relay_processes_message() {
    let mut e = exec(42);
    let token = EVMAddress::default();
    e.execute_deposit(token, vec![real_msg(1, 100)], 5, None);
    assert_eq!(e.state.queue.pending_count(), 1);
    assert!(e.execute_relay(token, 5, None));
    assert_eq!(e.state.queue.pending_count(), 0);
    assert_eq!(e.state.queue.processed_count(), 1);
}

#[test]
fn test_desync_detected() {
    let mut e = exec(99);
    let token = EVMAddress::default();
    e.execute_deposit(token, vec![real_msg(1, 100)], 5, None);
    e.state.mint_b(token, EVMU256::from(9999u64));
    e.check_invariants();
    assert!(e.state.state_desync_detected);
}

#[test]
fn test_queue_consistency_after_clean_run() {
    let mut e = exec(7);
    let token = EVMAddress::default();
    e.execute_deposit(token, vec![real_msg(1, 50), real_msg(2, 50)], 5, None);
    e.execute_relay(token, 5, None);
    e.execute_relay(token, 5, None);
    assert!(!e.state.queue_consistency_violated);
}

fn strict() -> MockVerificationConfig {
    MockVerificationConfig {
        signature_threshold: 3,
        allow_insufficient_sigs: false,
        simulate_nomad_bypass: false,
        ..Default::default()
    }
}

fn strict_exec(seed: u64) -> DualChainExecutor {
    DualChainExecutor::new(DualChainState::new(), Some(seed), strict())
}

fn fake_msg(nonce: u64) -> CrossChainMessage {
    let mut m = real_msg(nonce, 10);
    m.is_fake = true;
    m
}

#[test]
fn the_generator_is_xorshift() {
    let mut x = 1u64;
    assert_eq!(xorshift64(&mut x), 0x4082_2041);
    assert_eq!(x, 0x4082_2041);
    let mut zero = 0u64;
    assert_eq!(xorshift64(&mut zero), 0);
}

#[test]
fn a_deposit_locks_what_it_enqueues() {
    let mut e = strict_exec(1);
    let token = EVMAddress::from([8u8; 20]);
    e.execute_deposit(token, vec![real_msg(1, 30), real_msg(2, 12)], 3, None);
    assert_eq!(e.state.locked_a.get(&token), Some(&EVMU256::from(42u64)));
    assert_eq!(e.exploit_path.steps.len(), 2);
    assert_eq!(e.exploit_path.steps[0].kind, StepKind::Deposit);
    assert_eq!(e.iteration, 1);
}

#[test]
fn a_rejected_deposit_leaves_no_trace_in_the_queue() {
    let mut e = strict_exec(1);
    let token = EVMAddress::default();
    e.execute_deposit(token, vec![real_msg(1, 30)], 2, None);
    assert_eq!(e.state.queue.total_count(), 0);
    assert!(e.state.locked_a.get(&token).is_none());
    assert!(e.exploit_path.steps.is_empty());
}

#[test]
fn a_relay_with_too_few_signatures_drops_the_message() {
    let mut e = strict_exec(1);
    let token = EVMAddress::default();
    e.execute_deposit(token, vec![real_msg(1, 30)], 3, None);
    assert!(!e.execute_relay(token, 2, None));
    assert_eq!(e.state.queue.dropped_count(), 1);
    assert!(e.state.minted_b.get(&token).is_none());
}

#[test]
fn a_forced_replay_is_detected() {
    let mut e = strict_exec(5);
    let token = EVMAddress::default();
    e.execute_deposit(token, vec![real_msg(1, 30), real_msg(2, 30)], 3, None);
    assert!(e.execute_relay(token, 3, None));
    assert!(!e.state.replay_detected);
    let meta = CrossChainMutationMeta { force_replay_nonce: true, ..Default::default() };
    assert!(e.execute_relay(token, 3, Some(&meta)));
    assert!(e.state.replay_detected);
    // the nonce of the message itself is what counts as processed
    assert!(e.state.queue.is_nonce_replayed(1));
    assert!(e.state.queue.is_nonce_replayed(2));
}

#[test]
fn a_replay_is_detected_on_deposit_too() {
    let mut e = strict_exec(5);
    let token = EVMAddress::default();
    e.execute_deposit(token, vec![real_msg(1, 30)], 3, None);
    e.execute_relay(token, 3, None);
    e.execute_deposit(token, vec![real_msg(1, 30)], 3, None);
    assert!(e.state.replay_detected);
    assert_eq!(e.state.queue.total_count(), 2);
}

#[test]
fn an_inflated_relay_is_seen_as_desync() {
    let mut e = strict_exec(5);
    let token = EVMAddress::default();
    e.execute_deposit(token, vec![real_msg(1, 30)], 3, None);
    let meta = CrossChainMutationMeta { force_inflate_value: true, ..Default::default() };
    assert!(e.execute_relay(token, 3, Some(&meta)));
    assert!(e.state.state_desync_detected);
    assert_eq!(e.state.minted_b.get(&token), Some(&EVMU256::max_value()));
    assert_eq!(CrossChainOracle::inspect(&e.state), vec![12, 16]);
}

#[test]
fn a_forced_zero_root_passes_where_the_bypass_is_simulated() {
    let mut e = strict_exec(5);
    e.verify_config.simulate_nomad_bypass = true;
    let token = EVMAddress::default();
    let meta = CrossChainMutationMeta { force_zero_merkle_root: true, ..Default::default() };
    e.execute_deposit(token, vec![real_msg(1, 30)], 0, Some(&meta));
    assert_eq!(e.state.queue.total_count(), 1);
    assert_eq!(e.state.queue.messages[0].merkle_root, [0u8; 32]);
}

#[test]
fn an_executed_fake_leaves_a_mark() {
    for seed in 1..30 {
        let mut e = strict_exec(seed);
        let token = EVMAddress::default();
        e.execute_deposit(token, vec![fake_msg(1)], 3, None);
        assert!(e.execute_relay(token, 3, None));
        assert!(e.state.fake_message_accepted != e.state.atomicity_violated);
        // a revert mints nothing
        assert_eq!(e.state.minted_b.get(&token).is_none(), e.state.atomicity_violated);
    }
}

#[test]
fn honest_bridging_shows_no_bug() {
    for seed in 0..20 {
        let mut e = strict_exec(seed);
        let token = EVMAddress::default();
        for n in 0..6 {
            e.execute_deposit(token, vec![real_msg(n, 10 + n)], 3, None);
        }
        for _ in 0..6 {
            assert!(e.execute_relay(token, 3, None));
        }
        assert!(!e.execute_relay(token, 3, None));
        assert!(CrossChainOracle::inspect(&e.state).is_empty());
        assert_eq!(e.state.locked_a.get(&token), e.state.minted_b.get(&token));
    }
}

#[test]
fn every_pending_message_can_be_picked() {
    let mut seen = [false; 4];
    for seed in 1..200 {
        let mut e = strict_exec(seed);
        let token = EVMAddress::default();
        let msgs = (0..4).map(|n| real_msg(n, 1)).collect();
        e.execute_deposit(token, msgs, 3, None);
        e.execute_relay(token, 3, None);
        for (i, m) in e.state.queue.messages.iter().enumerate() {
            if m.status == MessageStatus::Processed {
                seen[i] = true;
            }
        }
    }
    assert_eq!(seen, [true; 4]);
}

#[test]
fn the_trace_tells_what_happened() {
    let mut e = strict_exec(1);
    let token = EVMAddress::default();
    e.execute_relay(token, 3, None);
    assert!(e.take_trace().is_empty());
    e.set_trace_log("log".to_string());
    e.execute_relay(token, 3, None);
    e.execute_deposit(token, vec![real_msg(1, 1), real_msg(2, 1)], 3, None);
    let meta = CrossChainMutationMeta { force_inflate_value: true, ..Default::default() };
    e.execute_relay(token, 3, Some(&meta));
    e.execute_relay(token, 1, None);
    let t = e.take_trace();
    assert_eq!(t.len(), 4);
    assert_eq!(t[0].verification_result, "NoPending");
    assert_eq!(t[0].message_id_selected, None);
    assert_eq!((t[0].iteration, t[1].iteration), (2, 3));
    assert_eq!(t[1].verification_result, "2 enqueued");
    assert_eq!(t[1].message_id_selected, Some(0));
    assert_eq!(t[1].ordering_mode, "N/A");
    assert_eq!(t[2].verification_result, "Success");
    assert_eq!(t[2].bugs_triggered, vec!["DESYNC"]);
    assert!(["Fifo", "Random", "Shuffled"].contains(&t[2].ordering_mode.as_str()));
    assert_eq!(t[3].verification_result, "Rejected");
    assert_eq!(t[3].input_type, "Relay");
}

#[test]
fn a_given_nonce_is_replayed() {
    let mut e = strict_exec(5);
    let token = EVMAddress::default();
    e.execute_deposit(token, vec![real_msg(1, 30)], 3, None);
    let meta = CrossChainMutationMeta { force_replay_nonce: true, ..Default::default() };
    assert!(e.execute_relay_with(token, 3, Some(&meta), Some(77)));
    assert_eq!(e.exploit_path.steps[1].kind, StepKind::Relay);
    assert_eq!(e.exploit_path.steps[1].message.nonce, 77);
    assert!(e.state.queue.is_nonce_replayed(1));
    assert!(!e.state.queue.is_nonce_replayed(77));
}
