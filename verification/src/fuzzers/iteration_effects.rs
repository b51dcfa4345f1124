//! What an iteration of a campaign does: what it deposits, what it forces on the
//! message that it relays, which bugs come of that, and what becomes of the
//! corpus and of the weights.

use vstd::prelude::*;

use crate::evm::cross_chain::effects::{
    all_zero, law_deposit_on_chain_a, law_force_changes_what_is_asked, law_relay_is_remembered,
    law_relay_judges_by_facts, law_relay_on_chain_b,
};
use crate::evm::cross_chain::executor::{pick, CrossChainMutationMeta};
use crate::evm::cross_chain::exploit_path::{StepKind, StepView};
use crate::evm::cross_chain::laws::{
    backed, law_deposit_keeps_backed, law_deposit_keeps_numbered, law_inflation_is_detected,
    law_no_false_desync, law_relay_keeps_backed, law_relay_settles_one, lemma_of_value,
    lemma_picked_is_pending,
};
use crate::evm::cross_chain::{amount, lemma_having_status_step, MessageStatus, StateView};
use crate::evm::mutator::{deposit_mutated, relay_mutated};
use crate::evm::oracles::cross_chain::{bugs_of, law_report_is_exact};
use crate::evm::types::{EVMAddress, EVMU256};
use crate::fuzzers::cross_chain_fuzzer::{
    energy_updates, law_no_bug_is_missed, law_record, sig_count_of, storage_after, storage_before,
    synthesized, CrossChainFuzzerConfig, EnergyUpdate, FuzzerView, RunView,
};

verus! {

// ---------------------------------------------------------------- the deposit

/// The number of signatures that come with iteration number `n`: one in each
/// seventh, and five in all others.
pub open spec fn signatures(n: int) -> u32 {
    if n % 7 == 0 {
        1
    } else {
        5
    }
}

/// Each seventh iteration has a single signature, and every other one has five.
pub proof fn law_signatures_by_iteration(n: int, k: int)
    ensures
        sig_count_of(7 * k) == 1,
        sig_count_of(n) == 1 || sig_count_of(n) == 5,
        sig_count_of(n) == 1 ==> n == 7 * (n / 7),
        sig_count_of(n + 7) == sig_count_of(n),
        sig_count_of(n) == signatures(n),
{
}

/// Whether every byte of `data` is `b`.
pub open spec fn all_bytes(data: Seq<u8>, n: nat, b: u8) -> bool {
    data.len() == n && forall|i: int| 0 <= i < n ==> #[trigger] data[i] == b
}

/// Whether the verification pipeline lets a message with the given number of
/// signatures through, whatever its root.
pub open spec fn lets_through(f: FuzzerView, sig_count: u32) -> bool {
    f.executor.verify_config.allow_insufficient_sigs || sig_count
        >= f.executor.verify_config.signature_threshold
}

/// The message that an iteration deposits is an honest one: it carries the
/// number of the iteration as its nonce, a thousand units, a root of ones and
/// no mark of a fake.
pub proof fn law_deposited_message(nonce: u64, meta: CrossChainMutationMeta)
    ensures
        ({
            let m = synthesized(nonce, meta);
            &&& m.nonce == nonce
            &&& !m.is_fake
            &&& m.status == MessageStatus::Pending
            &&& m.sender.value() == 0
            &&& m.recipient.value() == 0
            &&& all_bytes(m.payload, 32, 0xab)
            &&& meta.force_inflate_value ==> m.value.value() == EVMU256::max_nat()
            &&& !meta.force_inflate_value ==> m.value.value() == 1000
            &&& meta.force_zero_merkle_root ==> all_zero(m.merkle_root)
            &&& !meta.force_zero_merkle_root ==> all_bytes(m.merkle_root, 32, 1)
        }),
{
    lemma_of_value(1000);
    lemma_of_value(EVMU256::max_nat());
}

/// What an iteration deposits: where the pipeline lets it through, a pending
/// message of a thousand units with the iteration as its nonce is enqueued last,
/// the thousand are locked, and the path remembers the deposit with nothing
/// forced. Otherwise queue, lock and path stay as they are.
pub proof fn law_iteration_deposits(
    f: FuzzerView,
    token: EVMAddress,
    iteration: u64,
    corpus_idx: int,
)
    requires
        f.executor.state.queue.next_id < u64::MAX,
    ensures
        ({
            let e = f.executor;
            let d = f.deposited(token, iteration, corpus_idx).executor;
            let m = d.state.queue.messages.last();
            let step = d.exploit_path.last();
            let due = amount(e.state.locked_a, token) + 1000;
            &&& d.verify_config == e.verify_config
            &&& d.rng_state == e.rng_state
            &&& d.state.minted_b == e.state.minted_b
            &&& d.state.queue.processed_nonces == e.state.queue.processed_nonces
            &&& d.state.replay_detected <==> e.state.replay_detected || (signatures(
                iteration as int,
            ) >= e.verify_config.signature_threshold && e.state.queue.processed_nonces.contains(
                iteration,
            ))
            &&& !lets_through(f, signatures(iteration as int)) ==> d.state.queue == e.state.queue
                && d.state.locked_a == e.state.locked_a && d.exploit_path == e.exploit_path
            &&& lets_through(f, signatures(iteration as int)) ==> {
                &&& d.state.queue.messages.drop_last() == e.state.queue.messages
                &&& d.state.queue.messages.len() == e.state.queue.messages.len() + 1
                &&& m.id == e.state.queue.next_id
                &&& m.nonce == iteration
                &&& m.value.value() == 1000
                &&& m.status == MessageStatus::Pending
                &&& !m.is_fake
                &&& all_bytes(m.payload, 32, 0xab)
                &&& all_bytes(m.merkle_root, 32, 1)
                &&& amount(d.state.locked_a, token) == if due <= EVMU256::max_nat() {
                    due
                } else {
                    EVMU256::max_nat()
                }
                &&& d.exploit_path.len() == e.exploit_path.len() + 1
                &&& d.exploit_path.drop_last() == e.exploit_path
                &&& step.kind == StepKind::Deposit
                &&& step.token == token
                &&& step.sig_count == signatures(iteration as int)
                &&& step.meta == CrossChainMutationMeta::none()
                &&& step.message.nonce == iteration
            }
        }),
{
    let meta = CrossChainMutationMeta::none();
    let msg = synthesized(iteration, meta);
    law_deposited_message(iteration, meta);
    law_deposit_on_chain_a(f.executor, token, msg, signatures(iteration as int), meta);
    crate::evm::cross_chain::laws::law_deposit_frame(
        f.executor,
        token,
        seq![msg],
        signatures(iteration as int),
        meta,
    );
    assert(msg.merkle_root[0] == 1);
}

/// An iteration mutates its entry of the corpus in place, as a deposit does, and
/// leaves every other entry as it is; where there is no such entry the corpus
/// stays as it is. The relay works on the entry as the deposit left it, and does
/// not keep what it changes in it.
pub proof fn law_iteration_on_the_corpus(
    f: FuzzerView,
    token: EVMAddress,
    iteration: u64,
    corpus_idx: int,
    replay: Option<u64>,
)
    requires
        corpus_idx >= 0,
    ensures
        ({
            let corpus = f.mutator.corpus;
            let after = f.iterated(token, iteration, corpus_idx, replay).mutator;
            let known = corpus_idx < corpus.len();
            let data = f.calldata(corpus_idx);
            let (kept, rng) = deposit_mutated(data, f.mutator.rng);
            &&& after.corpus.len() == corpus.len()
            &&& known ==> data == corpus[corpus_idx]
            &&& !known ==> all_bytes(data, 64, 0)
            &&& known ==> after.corpus[corpus_idx] == kept
            &&& forall|i: int|
                0 <= i < corpus.len() && i != corpus_idx ==> #[trigger] after.corpus[i] == corpus[i]
            &&& after.rng == relay_mutated(
                if known {
                    kept
                } else {
                    data
                },
                rng,
            ).2
            &&& after.abi_available == f.mutator.abi_available
        }),
{
}

// ------------------------------------------------------------------ the relay

/// What the relay of an iteration is asked to force: what the relay mutation of
/// the entry asks, behind the deposit mutation of the same iteration.
pub open spec fn asked(
    f: FuzzerView,
    token: EVMAddress,
    iteration: u64,
    corpus_idx: int,
) -> CrossChainMutationMeta {
    let d = f.deposited(token, iteration, corpus_idx);
    relay_mutated(d.calldata(corpus_idx), d.mutator.rng).1
}

proof fn lemma_deposit_keeps_numbered(
    f: FuzzerView,
    token: EVMAddress,
    iteration: u64,
    corpus_idx: int,
)
    requires
        f.executor.state.queue.numbered(),
        f.executor.state.queue.next_id < u64::MAX,
    ensures
        f.deposited(token, iteration, corpus_idx).executor.state.queue.numbered(),
{
    let meta = CrossChainMutationMeta::none();
    law_deposit_keeps_numbered(
        f.executor,
        token,
        seq![synthesized(iteration, meta)],
        signatures(iteration as int),
        meta,
    );
}

proof fn lemma_deposit_leaves_pending(
    f: FuzzerView,
    token: EVMAddress,
    iteration: u64,
    corpus_idx: int,
)
    requires
        f.executor.state.queue.next_id < u64::MAX,
        lets_through(f, signatures(iteration as int)),
    ensures
        f.deposited(token, iteration, corpus_idx).executor.pending_ids().len() > 0,
{
    law_iteration_deposits(f, token, iteration, corpus_idx);
    let d = f.deposited(token, iteration, corpus_idx).executor;
    lemma_having_status_step(d.state.queue.messages, MessageStatus::Pending);
}

/// An iteration is one deposit and one relay on the bridge: of one message with
/// the iteration as its nonce and nothing forced, and then with what the relay
/// mutation asks and the signatures of the next iteration.
pub proof fn law_iteration_is_a_deposit_and_a_relay(
    f: FuzzerView,
    token: EVMAddress,
    iteration: u64,
    corpus_idx: int,
    replay: Option<u64>,
)
    ensures
        ({
            let none = CrossChainMutationMeta::of(None);
            let d = f.executor.deposited(
                token,
                seq![synthesized(iteration, none)],
                signatures(iteration as int),
                none,
            );
            let a = d.relayed(
                token,
                signatures(iteration + 1),
                asked(f, token, iteration, corpus_idx),
                replay,
            ).0;
            f.iterated(token, iteration, corpus_idx, replay).executor == a
        }),
{
}

/// There is room for an iteration exactly where none of the counters would run
/// out: that of the iterations, that of the executor's steps, of which it takes
/// two, and that of the identifiers.
pub proof fn law_room_by_counters(f: FuzzerView, result: RunView)
    ensures
        f.has_room(result) <==> {
            &&& result.iterations < u64::MAX - 1
            &&& f.executor.iteration < u64::MAX - 1
            &&& f.executor.state.queue.next_id < u64::MAX
        },
{
}

/// The relay of an iteration is done as the relay mutation asked: where a
/// message is executed, the path ends with a relay of the token under the
/// signatures of the next iteration, with what was asked, on a pending message
/// that has it forced on it.
pub proof fn law_iteration_relays_as_asked(
    f: FuzzerView,
    token: EVMAddress,
    iteration: u64,
    corpus_idx: int,
    replay: Option<u64>,
)
    requires
        f.executor.state.queue.numbered(),
        f.executor.state.queue.next_id < u64::MAX,
        lets_through(f, signatures(iteration as int)),
        lets_through(f, signatures(iteration + 1)),
    ensures
        ({
            let d = f.deposited(token, iteration, corpus_idx).executor;
            let a = f.iterated(token, iteration, corpus_idx, replay).executor;
            let meta = asked(f, token, iteration, corpus_idx);
            let m = d.state.queue.messages[pick(d.pending_ids(), d.rng_state).0 as int];
            let step = a.exploit_path.last();
            &&& m.status == MessageStatus::Pending
            &&& a.exploit_path.len() == d.exploit_path.len() + 1
            &&& a.exploit_path.drop_last() == d.exploit_path
            &&& step.kind == StepKind::Relay
            &&& step.token == token
            &&& step.sig_count == signatures(iteration + 1)
            &&& step.meta == meta
            &&& meta.force_zero_merkle_root ==> all_zero(step.message.merkle_root)
            &&& !meta.force_zero_merkle_root ==> step.message.merkle_root == m.merkle_root
            &&& meta.force_replay_nonce && replay is Some ==> step.message.nonce == replay->0
            &&& !meta.force_replay_nonce ==> step.message.nonce == m.nonce
            &&& meta.force_inflate_value ==> step.message.value.value() == EVMU256::max_nat()
            &&& !meta.force_inflate_value ==> step.message.value == m.value
            &&& a.state.queue.processed_nonces == d.state.queue.processed_nonces.insert(m.nonce)
        }),
{
    let d = f.deposited(token, iteration, corpus_idx).executor;
    let meta = asked(f, token, iteration, corpus_idx);
    let sig_count = signatures(iteration + 1);
    law_iteration_deposits(f, token, iteration, corpus_idx);
    lemma_deposit_keeps_numbered(f, token, iteration, corpus_idx);
    lemma_deposit_leaves_pending(f, token, iteration, corpus_idx);
    lemma_picked_is_pending(d);
    law_relay_judges_by_facts(d, token, sig_count, meta, replay);
    law_relay_is_remembered(d, token, sig_count, meta, replay);
    law_relay_on_chain_b(d, token, sig_count, meta, replay);
    let m = d.state.queue.messages[pick(d.pending_ids(), d.rng_state).0 as int];
    law_force_changes_what_is_asked(m, meta, replay);
}

/// An inflated value that an iteration asks for is found out: where no queued
/// message is a fake and the lock does not hold the largest word, the state
/// after the iteration is desynced and the bug is among those found.
pub proof fn law_asked_inflation_is_found(
    f: FuzzerView,
    result: RunView,
    token: EVMAddress,
    iteration: u64,
    corpus_idx: int,
    replay: Option<u64>,
)
    requires
        result.wf(),
        f.executor.state.queue.numbered(),
        f.executor.state.queue.next_id < u64::MAX,
        lets_through(f, signatures(iteration as int)),
        lets_through(f, signatures(iteration + 1)),
        forall|i: int|
            0 <= i < f.executor.state.queue.messages.len()
                ==> !(#[trigger] f.executor.state.queue.messages[i]).is_fake,
        amount(f.executor.state.locked_a, token) + 1000 < EVMU256::max_nat(),
        asked(f, token, iteration, corpus_idx).force_inflate_value,
    ensures
        ({
            let after = f.iterated(token, iteration, corpus_idx, replay);
            &&& after.executor.state.state_desync_detected
            &&& bugs_of(after.executor.state).contains(16)
            &&& after.reported(result).bugs_found.contains(16)
        }),
{
    let d = f.deposited(token, iteration, corpus_idx).executor;
    let meta = asked(f, token, iteration, corpus_idx);
    let sig_count = signatures(iteration + 1);
    law_iteration_deposits(f, token, iteration, corpus_idx);
    lemma_deposit_keeps_numbered(f, token, iteration, corpus_idx);
    lemma_deposit_leaves_pending(f, token, iteration, corpus_idx);
    lemma_picked_is_pending(d);
    law_relay_judges_by_facts(d, token, sig_count, meta, replay);
    let i = pick(d.pending_ids(), d.rng_state).0 as int;
    if i < f.executor.state.queue.messages.len() {
        assert(d.state.queue.messages[i] == d.state.queue.messages.drop_last()[i]);
        assert(!f.executor.state.queue.messages[i].is_fake);
    }
    law_inflation_is_detected(d, token, sig_count, meta, replay);
    let after = f.iterated(token, iteration, corpus_idx, replay);
    law_report_is_exact(after.executor.state);
    law_no_bug_is_missed(after, result);
}

/// A replay that an iteration asks for is found out: where a processed nonce is
/// at hand, the signatures suffice and no root is zero, the replay is detected
/// and the bug is among those found.
pub proof fn law_asked_replay_is_found(
    f: FuzzerView,
    result: RunView,
    token: EVMAddress,
    iteration: u64,
    corpus_idx: int,
    nonce: u64,
)
    requires
        result.wf(),
        f.executor.state.queue.numbered(),
        f.executor.state.queue.next_id < u64::MAX,
        f.executor.state.queue.processed_nonces.contains(nonce),
        lets_through(f, signatures(iteration as int)),
        signatures(iteration + 1) >= f.executor.verify_config.signature_threshold,
        forall|i: int|
            0 <= i < f.executor.state.queue.messages.len()
                ==> !all_zero((#[trigger] f.executor.state.queue.messages[i]).merkle_root),
        asked(f, token, iteration, corpus_idx).force_replay_nonce,
        !f.executor.verify_config.simulate_nomad_bypass
            || !asked(f, token, iteration, corpus_idx).force_zero_merkle_root,
    ensures
        ({
            let after = f.iterated(token, iteration, corpus_idx, Some(nonce));
            &&& after.executor.state.replay_detected
            &&& bugs_of(after.executor.state).contains(14)
            &&& after.reported(result).bugs_found.contains(14)
        }),
{
    let d = f.deposited(token, iteration, corpus_idx).executor;
    let meta = asked(f, token, iteration, corpus_idx);
    let sig_count = signatures(iteration + 1);
    law_iteration_deposits(f, token, iteration, corpus_idx);
    lemma_deposit_keeps_numbered(f, token, iteration, corpus_idx);
    lemma_deposit_leaves_pending(f, token, iteration, corpus_idx);
    lemma_picked_is_pending(d);
    law_relay_judges_by_facts(d, token, sig_count, meta, Some(nonce));
    let i = pick(d.pending_ids(), d.rng_state).0 as int;
    if i < f.executor.state.queue.messages.len() {
        assert(d.state.queue.messages[i] == d.state.queue.messages.drop_last()[i]);
        assert(!all_zero(f.executor.state.queue.messages[i].merkle_root));
    } else {
        assert(d.state.queue.messages[i].merkle_root[0] == 1);
    }
    let after = f.iterated(token, iteration, corpus_idx, Some(nonce));
    law_report_is_exact(after.executor.state);
    law_no_bug_is_missed(after, result);
}

/// An iteration that asks for no inflated value raises no desync: on a bridge
/// whose mints are backed they still are, and the flag stays as it was.
pub proof fn law_unasked_inflation_is_not_found(
    f: FuzzerView,
    token: EVMAddress,
    iteration: u64,
    corpus_idx: int,
    replay: Option<u64>,
)
    requires
        backed(f.executor.state, token),
        f.executor.state.queue.next_id < u64::MAX,
        !asked(f, token, iteration, corpus_idx).force_inflate_value,
    ensures
        ({
            let after = f.iterated(token, iteration, corpus_idx, replay).executor;
            &&& backed(after.state, token)
            &&& after.state.state_desync_detected == f.executor.state.state_desync_detected
        }),
{
    let d = f.deposited(token, iteration, corpus_idx).executor;
    let none = CrossChainMutationMeta::none();
    let meta = asked(f, token, iteration, corpus_idx);
    let sig_count = signatures(iteration + 1);
    let captured = seq![synthesized(iteration, none)];
    law_deposit_keeps_backed(f.executor, token, captured, signatures(iteration as int), none);
    crate::evm::cross_chain::laws::law_deposit_frame(
        f.executor,
        token,
        captured,
        signatures(iteration as int),
        none,
    );
    law_relay_keeps_backed(d, token, sig_count, meta, replay);
    law_no_false_desync(d, token, sig_count, meta, replay);
}

/// An iteration that works on nonces that were not processed before calls no
/// replay.
pub proof fn law_unasked_replay_is_not_found(
    f: FuzzerView,
    token: EVMAddress,
    iteration: u64,
    corpus_idx: int,
    replay: Option<u64>,
)
    requires
        f.executor.state.queue.numbered(),
        f.executor.state.queue.next_id < u64::MAX,
        lets_through(f, signatures(iteration as int)),
        !f.executor.state.queue.processed_nonces.contains(iteration),
        forall|i: int|
            0 <= i < f.executor.state.queue.messages.len()
                && f.executor.state.queue.messages[i].status == MessageStatus::Pending
                ==> !f.executor.state.queue.processed_nonces.contains(
                (#[trigger] f.executor.state.queue.messages[i]).nonce,
            ),
        !asked(f, token, iteration, corpus_idx).force_replay_nonce,
    ensures
        f.iterated(token, iteration, corpus_idx, replay).executor.state.replay_detected
            == f.executor.state.replay_detected,
{
    let d = f.deposited(token, iteration, corpus_idx).executor;
    let meta = asked(f, token, iteration, corpus_idx);
    law_iteration_deposits(f, token, iteration, corpus_idx);
    lemma_deposit_keeps_numbered(f, token, iteration, corpus_idx);
    lemma_deposit_leaves_pending(f, token, iteration, corpus_idx);
    lemma_picked_is_pending(d);
    let i = pick(d.pending_ids(), d.rng_state).0 as int;
    if i < f.executor.state.queue.messages.len() {
        assert(d.state.queue.messages[i] == d.state.queue.messages.drop_last()[i]);
        assert(f.executor.state.queue.messages[i].status == MessageStatus::Pending);
    }
    law_relay_judges_by_facts(d, token, signatures(iteration + 1), meta, replay);
}

// -------------------------------------------------------- signals and records

/// An entry is rewarded twice or decays once: twice where the iteration left a
/// bug in the state or processed a message, and never both.
pub proof fn law_weight_by_signal(f: FuzzerView, after: FuzzerView)
    ensures
        ({
            let updates = energy_updates(f.signalled(after));
            let fruitful = bugs_of(after.executor.state) != Seq::<u64>::empty()
                || after.executor.state.queue.of_status(MessageStatus::Processed).len()
                > f.executor.state.queue.of_status(MessageStatus::Processed).len();
            &&& fruitful ==> updates == seq![EnergyUpdate::Reward, EnergyUpdate::Reward]
            &&& !fruitful ==> updates == seq![EnergyUpdate::Decay]
        }),
{
    if bugs_of(after.executor.state).len() == 0 {
        assert(bugs_of(after.executor.state) =~= Seq::<u64>::empty());
    }
}

/// An iteration that executes a message is rewarded, whatever bugs it shows.
pub proof fn law_executing_iteration_is_rewarded(
    f: FuzzerView,
    token: EVMAddress,
    iteration: u64,
    corpus_idx: int,
    replay: Option<u64>,
)
    requires
        f.executor.state.queue.numbered(),
        f.executor.state.queue.next_id < u64::MAX,
        lets_through(f, signatures(iteration as int)),
        lets_through(f, signatures(iteration + 1)),
    ensures
        energy_updates(f.signalled(f.iterated(token, iteration, corpus_idx, replay))) == seq![
            EnergyUpdate::Reward,
            EnergyUpdate::Reward,
        ],
{
    let d = f.deposited(token, iteration, corpus_idx).executor;
    let meta = asked(f, token, iteration, corpus_idx);
    law_iteration_deposits(f, token, iteration, corpus_idx);
    lemma_deposit_keeps_numbered(f, token, iteration, corpus_idx);
    lemma_deposit_leaves_pending(f, token, iteration, corpus_idx);
    law_relay_judges_by_facts(d, token, signatures(iteration + 1), meta, replay);
    law_relay_settles_one(d, token, signatures(iteration + 1), meta, replay);
    lemma_having_status_step(d.state.queue.messages, MessageStatus::Processed);
}

/// What is kept of an iteration: it counts as one, known bugs keep their places
/// and their paths, every bug of the state is known afterwards and no other
/// comes in, and a bug that comes in brings the steps up to now.
pub proof fn law_iteration_is_recorded(f: FuzzerView, result: RunView, b: u64)
    requires
        result.wf(),
        result.iterations < u64::MAX,
    ensures
        ({
            let after = f.reported(result);
            &&& after.iterations == result.iterations + 1
            &&& result.bugs_found.is_prefix_of(after.bugs_found)
            &&& result.exploit_paths.is_prefix_of(after.exploit_paths)
            &&& after.bugs_found.no_duplicates()
            &&& after.bugs_found.len() == after.exploit_paths.len()
            &&& after.bugs_found.contains(b) <==> result.bugs_found.contains(b) || bugs_of(
                f.executor.state,
            ).contains(b)
            &&& forall|i: int|
                result.bugs_found.len() <= i < after.bugs_found.len() ==> #[trigger]
                after.exploit_paths[i] == f.executor.exploit_path
        }),
{
    law_record(
        RunView { iterations: (result.iterations + 1) as u64, ..result },
        bugs_of(f.executor.state),
        f.executor.exploit_path,
    );
}

/// New bugs are recorded in the order in which they are seen: of two that were
/// not known, the one seen first stands first.
pub proof fn law_bugs_are_recorded_in_order(r: RunView, bugs: Seq<u64>, path: Seq<StepView>)
    requires
        bugs.no_duplicates(),
        forall|i: int| 0 <= i < bugs.len() ==> !r.bugs_found.contains(#[trigger] bugs[i]),
    ensures
        r.recorded(bugs, path).bugs_found == r.bugs_found + bugs,
        r.recorded(bugs, path).exploit_paths == r.exploit_paths + Seq::new(
            bugs.len(),
            |i: int| path,
        ),
    decreases bugs.len(),
{
    if bugs.len() == 0 {
        assert(r.bugs_found + bugs =~= r.bugs_found);
        assert(r.exploit_paths + Seq::new(bugs.len(), |i: int| path) =~= r.exploit_paths);
    } else {
        let init = bugs.drop_last();
        assert forall|i: int| 0 <= i < init.len() implies !r.bugs_found.contains(
            #[trigger] init[i],
        ) by {
            assert(init[i] == bugs[i]);
        }
        law_bugs_are_recorded_in_order(r, init, path);
        let before = r.recorded(init, path);
        let last = bugs.last();
        assert(bugs[bugs.len() - 1] == last);
        if before.bugs_found.contains(last) {
            let i = choose|i: int|
                0 <= i < before.bugs_found.len() && before.bugs_found[i] == last;
            if i < r.bugs_found.len() {
                assert(r.bugs_found[i] == last);
            } else {
                assert(bugs[i - r.bugs_found.len()] == last);
            }
            assert(false);
        }
        assert(r.recorded(bugs, path).bugs_found =~= r.bugs_found + bugs);
        assert(r.recorded(bugs, path).exploit_paths =~= r.exploit_paths + Seq::new(
            bugs.len(),
            |i: int| path,
        ));
    }
}

// ------------------------------------------------------------- start and end

/// How a campaign starts: nothing has happened on the bridge, both generators
/// start from the seed, the mutator's never from zero, and the corpus has three
/// entries of 64 bytes: zeros, ones, and a selector in front of zeros.
pub proof fn law_campaign_starts(config: CrossChainFuzzerConfig)
    ensures
        ({
            let f = config.started();
            let corpus = f.mutator.corpus;
            &&& f.executor.state == StateView::empty()
            &&& bugs_of(f.executor.state) == Seq::<u64>::empty()
            &&& f.executor.state.queue.messages.len() == 0
            &&& f.executor.exploit_path.len() == 0
            &&& f.executor.trace.len() == 0
            &&& f.executor.iteration == 0
            &&& f.executor.verify_config == config.verify_config
            &&& f.executor.trace_log_path is Some <==> config.trace_log_path is Some
            &&& config.seed is Some ==> f.executor.rng_state == config.seed->0
            &&& config.seed is Some && config.seed->0 != 0 ==> f.mutator.rng == config.seed->0
            &&& f.mutator.rng != 0
            &&& corpus.len() == 3
            &&& all_bytes(corpus[0], 64, 0)
            &&& all_bytes(corpus[1], 64, 0xff)
            &&& corpus[2].len() == 64
            &&& corpus[2][0] == 0x12
            &&& corpus[2][1] == 0x34
            &&& corpus[2][2] == 0x56
            &&& corpus[2][3] == 0x78
            &&& forall|i: int| 4 <= i < 64 ==> #[trigger] corpus[2][i] == 0
            &&& forall|token: EVMAddress| #[trigger] backed(f.executor.state, token)
        }),
{
    crate::evm::oracles::cross_chain::law_fresh_state_is_clean();
    assert forall|token: EVMAddress| #[trigger] backed(config.started().executor.state, token) by {
        crate::evm::cross_chain::laws::law_fresh_state_is_backed(token);
    }
}

/// When a campaign stops: at its limit; and past the deadline where there is one
/// and the clock is not ignored. Nothing else stops it.
pub proof fn law_campaign_stops(config: CrossChainFuzzerConfig, iteration: u64, past: bool)
    ensures
        ({
            let full = if config.max_iterations is Some {
                iteration >= config.max_iterations->0
            } else {
                iteration == u64::MAX
            };
            let late = past && config.time_budget_secs is Some && !config.deterministic;
            !config.continues(iteration, past) <==> full || late
        }),
{
}

// ------------------------------------------------------------ the slot changes

/// The storage before and after a list of changes holds a slot exactly where the
/// list names it, with the two values of the last change that does.
pub proof fn law_last_change_counts(
    changes: Seq<(EVMU256, EVMU256, EVMU256)>,
    slot: EVMU256,
    k: int,
)
    ensures
        storage_before(changes).contains_key(slot) <==> exists|i: int|
            0 <= i < changes.len() && (#[trigger] changes[i]).0 == slot,
        storage_after(changes).contains_key(slot) <==> storage_before(changes).contains_key(slot),
        0 <= k < changes.len() && changes[k].0 == slot && (forall|i: int|
            k < i < changes.len() ==> (#[trigger] changes[i]).0 != slot) ==> storage_before(
            changes,
        )[slot] == changes[k].1 && storage_after(changes)[slot] == changes[k].2,
    decreases changes.len(),
{
    if changes.len() > 0 {
        let init = changes.drop_last();
        law_last_change_counts(init, slot, k);
        if exists|i: int| 0 <= i < init.len() && (#[trigger] init[i]).0 == slot {
            let i = choose|i: int| 0 <= i < init.len() && (#[trigger] init[i]).0 == slot;
            assert(changes[i].0 == slot);
        }
        if exists|i: int| 0 <= i < changes.len() && (#[trigger] changes[i]).0 == slot {
            let i = choose|i: int| 0 <= i < changes.len() && (#[trigger] changes[i]).0 == slot;
            if i < init.len() {
                assert(init[i].0 == slot);
            }
        }
        if 0 <= k < changes.len() && changes[k].0 == slot && (forall|i: int|
            k < i < changes.len() ==> (#[trigger] changes[i]).0 != slot) {
            if k < init.len() {
                assert(changes[changes.len() - 1].0 != slot);
                assert forall|i: int| k < i < init.len() implies (#[trigger] init[i]).0
                    != slot by {
                    assert(changes[i].0 != slot);
                }
                assert(init[k].0 == slot);
            }
        }
    }
}

} // verus!
