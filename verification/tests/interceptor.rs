use std::collections::HashSet;

use ityfuzz::evm::cross_chain::CrossChainMessage;
use ityfuzz::evm::middlewares::cross_chain_interceptor::{
    verify_message, BypassReason, MockVerificationConfig, VerificationResult,
};
use ityfuzz::evm::types::{EVMAddress, EVMU256};

fn make_msg(nonce: u64, merkle_root: [u8; 32]) -> CrossChainMessage {
    CrossChainMessage::new(
        nonce,
        EVMAddress::default(),
        EVMAddress::default(),
        vec![],
        EVMU256::zero(),
        merkle_root,
        false,
    )
}

#[test]
fn test_zero_merkle_bypass() {
    let config = MockVerificationConfig::default();
    let msg = make_msg(1, [0u8; 32]);
    let mut replay = false;
    let r = verify_message(&config, &msg, &HashSet::new(), 5, &mut replay);
    assert_eq!(r, VerificationResult::BypassAccepted(BypassReason::ZeroMerkleRoot));
}

#[test]
fn test_insufficient_sig_rejected() {
    let config = MockVerificationConfig {
        simulate_nomad_bypass: false,
        allow_insufficient_sigs: false,
        signature_threshold: 5,
        ..Default::default()
    };
    let msg = make_msg(2, [1u8; 32]);
    let mut replay = false;
    let r = verify_message(&config, &msg, &HashSet::new(), 2, &mut replay);
    assert_eq!(r, VerificationResult::Rejected);
}

#[test]
fn test_replay_nonce() {
    let config = MockVerificationConfig {
        simulate_nomad_bypass: false,
        allow_insufficient_sigs: false,
        signature_threshold: 1,
        ..Default::default()
    };
    let msg = make_msg(42, [1u8; 32]);
    let mut processed = HashSet::new();
    processed.insert(42u64);
    let mut replay = false;
    let r = verify_message(&config, &msg, &processed, 5, &mut replay);
    assert_eq!(r, VerificationResult::BypassAccepted(BypassReason::ReplayedNonce));
    assert!(replay);
}

#[test]
fn test_valid_passes_all_checks() {
    let config = MockVerificationConfig {
        simulate_nomad_bypass: false,
        allow_insufficient_sigs: false,
        signature_threshold: 3,
        ..Default::default()
    };
    let msg = make_msg(99, [1u8; 32]);
    let mut replay = false;
    let r = verify_message(&config, &msg, &HashSet::new(), 5, &mut replay);
    assert_eq!(r, VerificationResult::Valid);
}

#[test]
fn too_few_signatures_pass_where_allowed() {
    let config = MockVerificationConfig { simulate_nomad_bypass: false, ..Default::default() };
    let mut replay = false;
    let r = verify_message(&config, &make_msg(1, [0u8; 32]), &HashSet::new(), 4, &mut replay);
    assert_eq!(r, VerificationResult::BypassAccepted(BypassReason::InsufficientSignatures));
    assert!(!replay);
}

#[test]
fn the_zero_root_is_checked_first_and_hides_a_replay() {
    let config = MockVerificationConfig::default();
    let mut processed = HashSet::new();
    processed.insert(1u64);
    let mut replay = false;
    let r = verify_message(&config, &make_msg(1, [0u8; 32]), &processed, 5, &mut replay);
    assert_eq!(r, VerificationResult::BypassAccepted(BypassReason::ZeroMerkleRoot));
    assert!(!replay);
}

#[test]
fn a_replay_flag_is_not_taken_back() {
    let config = MockVerificationConfig::default();
    let mut replay = true;
    let r = verify_message(&config, &make_msg(1, [1u8; 32]), &HashSet::new(), 5, &mut replay);
    assert_eq!(r, VerificationResult::Valid);
    assert!(replay);
}

#[test]
fn one_byte_makes_a_root_nonzero() {
    let config = MockVerificationConfig::default();
    let mut root = [0u8; 32];
    root[31] = 1;
    let mut replay = false;
    let r = verify_message(&config, &make_msg(1, root), &HashSet::new(), 5, &mut replay);
    assert_eq!(r, VerificationResult::Valid);
}
