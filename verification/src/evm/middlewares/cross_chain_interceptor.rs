//! The verification pipeline that a message passes before it is enqueued or
//! relayed.

use std::collections::HashSet;

use vstd::prelude::*;

use crate::evm::cross_chain::{CrossChainMessage, MessageView};

verus! {

broadcast use vstd::std_specs::hash::group_hash_axioms;

/// Why a message was accepted although a check failed.
#[derive(Clone, Copy, Debug, PartialEq, Eq, Structural)]
pub enum BypassReason {
    ZeroMerkleRoot,
    InsufficientSignatures,
    ReplayedNonce,
}

/// What the verification pipeline says of a message.
#[derive(Clone, Copy, Debug, PartialEq, Eq, Structural)]
pub enum VerificationResult {
    Valid,
    BypassAccepted(BypassReason),
    Rejected,
}

/// Which weaknesses of a bridge are simulated.
#[derive(Clone, Copy, Debug, PartialEq, Eq, Structural)]
pub struct MockVerificationConfig {
    pub signature_threshold: u32,
    pub total_validators: u32,
    pub allow_insufficient_sigs: bool,
    pub simulate_nomad_bypass: bool,
}

impl Default for MockVerificationConfig {
    fn default() -> (r: MockVerificationConfig)
        ensures
            r == (MockVerificationConfig {
                signature_threshold: 5,
                total_validators: 7,
                allow_insufficient_sigs: true,
                simulate_nomad_bypass: true,
            }),
    {
        MockVerificationConfig {
            signature_threshold: 5,
            total_validators: 7,
            allow_insufficient_sigs: true,
            simulate_nomad_bypass: true,
        }
    }
}

/// The Merkle root that the Nomad bypass accepts.
pub open spec fn zero_root() -> Seq<u8> {
    Seq::new(32, |i: int| 0u8)
}

/// The outcome of the three checks: the Merkle root first, then the number of
/// signatures, then the nonce.
pub open spec fn verdict(
    config: MockVerificationConfig,
    msg: MessageView,
    processed_nonces: Set<u64>,
    sig_count: u32,
) -> VerificationResult {
    if msg.merkle_root == zero_root() && config.simulate_nomad_bypass {
        VerificationResult::BypassAccepted(BypassReason::ZeroMerkleRoot)
    } else if sig_count < config.signature_threshold {
        if config.allow_insufficient_sigs {
            VerificationResult::BypassAccepted(BypassReason::InsufficientSignatures)
        } else {
            VerificationResult::Rejected
        }
    } else if processed_nonces.contains(msg.nonce) {
        VerificationResult::BypassAccepted(BypassReason::ReplayedNonce)
    } else {
        VerificationResult::Valid
    }
}

/// A message is rejected exactly when it has too few signatures, they are not
/// let through, and the zero root does not bypass the check.
pub proof fn law_rejected_iff(
    config: MockVerificationConfig,
    msg: MessageView,
    processed_nonces: Set<u64>,
    sig_count: u32,
)
    ensures
        verdict(config, msg, processed_nonces, sig_count) is Rejected <==> {
            &&& sig_count < config.signature_threshold
            &&& !config.allow_insufficient_sigs
            &&& !(msg.merkle_root == zero_root() && config.simulate_nomad_bypass)
        },
{
}

/// A replayed nonce is never valid, whatever the configuration.
pub proof fn law_replay_never_valid(
    config: MockVerificationConfig,
    msg: MessageView,
    processed_nonces: Set<u64>,
    sig_count: u32,
)
    requires
        processed_nonces.contains(msg.nonce),
    ensures
        verdict(config, msg, processed_nonces, sig_count) !is Valid,
{
}

/// Whether every byte of `root` is zero.
fn is_zero_root(root: &[u8; 32]) -> (r: bool)
    ensures
        r == (root@ == zero_root()),
{
    let mut i: usize = 0;
    while i < 32
        invariant
            i <= 32,
            forall|j: int| 0 <= j < i ==> root@[j] == 0,
        decreases 32 - i,
    {
        if root[i] != 0 {
            assert(root@[i as int] != zero_root()[i as int]);
            return false;
        }
        i = i + 1;
    }
    assert(root@ =~= zero_root());
    true
}

/// Runs the verification pipeline on `msg`. Sets `replay_flag` where the
/// nonce was found to be replayed.
pub fn verify_message(
    config: &MockVerificationConfig,
    msg: &CrossChainMessage,
    processed_nonces: &HashSet<u64>,
    sig_count: u32,
    replay_flag: &mut bool,
) -> (r: VerificationResult)
    ensures
        r == verdict(*config, msg@, processed_nonces@, sig_count),
        *final(replay_flag) == (*old(replay_flag) || r == VerificationResult::BypassAccepted(
            BypassReason::ReplayedNonce,
        )),
{
    if is_zero_root(&msg.merkle_root) && config.simulate_nomad_bypass {
        return VerificationResult::BypassAccepted(BypassReason::ZeroMerkleRoot);
    }
    if sig_count < config.signature_threshold {
        if config.allow_insufficient_sigs {
            return VerificationResult::BypassAccepted(BypassReason::InsufficientSignatures);
        } else {
            return VerificationResult::Rejected;
        }
    }
    if processed_nonces.contains(&msg.nonce) {
        *replay_flag = true;
        return VerificationResult::BypassAccepted(BypassReason::ReplayedNonce);
    }
    VerificationResult::Valid
}

} // verus!
