//! Runs deposits and relays on the dual-chain state.

use std::collections::HashSet;

use vstd::prelude::*;
use vstd::string::StringExecFns;

use crate::evm::cross_chain::exploit_path::{ExploitPath, ExploitStep, StepKind, StepView};
use crate::evm::cross_chain::{
    amount_of, credited, lemma_having_status_within, lemma_statuses_partition, CrossChainMessage,
    DualChainState, MessageStatus, MessageView, StateView,
};
use crate::evm::middlewares::cross_chain_interceptor::{
    verdict, verify_message, zero_root, BypassReason, MockVerificationConfig, VerificationResult,
};
use crate::evm::oracles::reentrancy_crosschain::inspect_reentrancy;
use crate::evm::types::{EVMAddress, EVMU256};
use crate::text::{decimal, to_decimal};

verus! {

/// The order in which pending messages are picked for a relay.
#[derive(Clone, Copy, Debug, PartialEq, Eq, Structural)]
pub enum MessageOrdering {
    Fifo,
    Random,
    Shuffled,
}

/// What the mutator wants the executor to force on a message.
#[derive(Clone, Copy, Debug, PartialEq, Eq, Structural)]
pub struct CrossChainMutationMeta {
    pub force_zero_merkle_root: bool,
    pub force_replay_nonce: bool,
    pub force_inflate_value: bool,
}

impl CrossChainMutationMeta {
    /// Nothing is forced.
    pub open spec fn none() -> CrossChainMutationMeta {
        CrossChainMutationMeta {
            force_zero_merkle_root: false,
            force_replay_nonce: false,
            force_inflate_value: false,
        }
    }

    /// What is forced where the meta may be missing.
    pub open spec fn of(meta: Option<&CrossChainMutationMeta>) -> CrossChainMutationMeta {
        match meta {
            Some(m) => *m,
            None => CrossChainMutationMeta::none(),
        }
    }
}

impl Default for CrossChainMutationMeta {
    fn default() -> (r: CrossChainMutationMeta)
        ensures
            r == CrossChainMutationMeta::none(),
    {
        CrossChainMutationMeta {
            force_zero_merkle_root: false,
            force_replay_nonce: false,
            force_inflate_value: false,
        }
    }
}

/// The successor of a generator state.
pub open spec fn xorshift(x: u64) -> u64 {
    let a = x ^ (x << 13);
    let b = a ^ (a >> 7);
    b ^ (b << 17)
}

/// The generator never falls into the state zero, from which it could not
/// leave.
pub proof fn lemma_xorshift_nonzero(x: u64)
    ensures
        x != 0 ==> xorshift(x) != 0,
        xorshift(0) == 0,
{
    let a = x ^ (x << 13);
    let b = a ^ (a >> 7);
    assert(x != 0 ==> (x ^ (x << 13u64)) != 0) by (bit_vector);
    assert(a != 0 ==> (a ^ (a >> 7u64)) != 0) by (bit_vector);
    assert(b != 0 ==> (b ^ (b << 17u64)) != 0) by (bit_vector);
    assert(0u64 ^ (0u64 << 13u64) == 0) by (bit_vector);
    assert(0u64 ^ (0u64 >> 7u64) == 0) by (bit_vector);
    assert(0u64 ^ (0u64 << 17u64) == 0) by (bit_vector);
}

/// Advances the generator and returns its new state.
pub fn xorshift64(state: &mut u64) -> (r: u64)
    ensures
        r == xorshift(*old(state)),
        *final(state) == r,
{
    let mut x: u64 = *state;
    x = x ^ (x << 13);
    x = x ^ (x >> 7);
    x = x ^ (x << 17);
    *state = x;
    x
}

/// The ordering that a draw stands for.
pub open spec fn ordering_of(draw: u64) -> MessageOrdering {
    if draw % 3 == 0 {
        MessageOrdering::Fifo
    } else if draw % 3 == 1 {
        MessageOrdering::Random
    } else {
        MessageOrdering::Shuffled
    }
}

/// The name of an ordering.
pub open spec fn ordering_name(ordering: MessageOrdering) -> Seq<char> {
    match ordering {
        MessageOrdering::Fifo => "Fifo"@,
        MessageOrdering::Random => "Random"@,
        MessageOrdering::Shuffled => "Shuffled"@,
    }
}

fn ordering_label(ordering: MessageOrdering) -> (r: String)
    ensures
        r@ == ordering_name(ordering),
{
    match ordering {
        MessageOrdering::Fifo => "Fifo".to_owned(),
        MessageOrdering::Random => "Random".to_owned(),
        MessageOrdering::Shuffled => "Shuffled".to_owned(),
    }
}

/// `draw` reduced to a position below `n`.
pub open spec fn index_from(draw: u64, n: int) -> int {
    (draw as usize) as int % n
}

/// Reduces `draw` to a position below `n`.
pub fn reduce(draw: u64, n: usize) -> (r: usize)
    requires
        n > 0,
    ensures
        r == index_from(draw, n as int),
        r < n,
{
    (#[verifier::truncate]
    (draw as usize)) % n
}

/// `ids` with two positions exchanged.
pub open spec fn swapped(ids: Seq<u64>, i: int, j: int) -> Seq<u64> {
    ids.update(i, ids[j]).update(j, ids[i])
}

/// The sequence after a Fisher-Yates pass over positions `i` down to 1, and the
/// generator state after it.
pub open spec fn shuffle(ids: Seq<u64>, i: int, rng: u64) -> (Seq<u64>, u64)
    decreases i,
{
    if i <= 0 {
        (ids, rng)
    } else {
        let draw = xorshift(rng);
        shuffle(swapped(ids, i, index_from(draw, i + 1)), i - 1, draw)
    }
}

/// A shuffle loses and invents nothing.
pub proof fn lemma_shuffle_permutes(ids: Seq<u64>, i: int, rng: u64)
    requires
        i < ids.len(),
    ensures
        shuffle(ids, i, rng).0.len() == ids.len(),
        shuffle(ids, i, rng).0.to_multiset() == ids.to_multiset(),
    decreases i,
{
    if i > 0 {
        let draw = xorshift(rng);
        let j = index_from(draw, i + 1);
        assert(0 <= j <= i);
        let t = swapped(ids, i, j);
        lemma_swap_permutes(ids, i, j);
        lemma_shuffle_permutes(t, i - 1, draw);
    }
}

proof fn lemma_swap_permutes(ids: Seq<u64>, i: int, j: int)
    requires
        0 <= i < ids.len(),
        0 <= j < ids.len(),
    ensures
        swapped(ids, i, j).to_multiset() == ids.to_multiset(),
{
    broadcast use vstd::seq_lib::group_to_multiset_ensures;

    let mid = ids.update(i, ids[j]);
    assert(mid.to_multiset() =~= ids.to_multiset().insert(ids[j]).remove(ids[i]));
    assert(mid[j] == ids[j]);
    assert(swapped(ids, i, j).to_multiset() =~= mid.to_multiset().insert(ids[i]).remove(ids[j]));
    assert(ids.to_multiset().contains(ids[i])) by {
        assert(ids.contains(ids[i]));
    }
    assert(swapped(ids, i, j).to_multiset() =~= ids.to_multiset());
}

/// The identifier that is picked out of `ids`, and the generator state after
/// the pick.
pub open spec fn pick(ids: Seq<u64>, rng: u64) -> (u64, u64) {
    let draw = xorshift(rng);
    match ordering_of(draw) {
        MessageOrdering::Fifo => (ids[0], draw),
        MessageOrdering::Random => {
            let second = xorshift(draw);
            (ids[index_from(second, ids.len() as int)], second)
        },
        MessageOrdering::Shuffled => {
            let done = shuffle(ids, ids.len() - 1, draw);
            (done.0[0], done.1)
        },
    }
}

/// Whatever the ordering, the pick is one of the identifiers.
pub proof fn lemma_pick_is_one_of(ids: Seq<u64>, rng: u64)
    requires
        ids.len() > 0,
    ensures
        ids.contains(pick(ids, rng).0),
{
    let draw = xorshift(rng);
    match ordering_of(draw) {
        MessageOrdering::Fifo => {
            assert(ids.contains(ids[0]));
        },
        MessageOrdering::Random => {
            let k = index_from(xorshift(draw), ids.len() as int);
            assert(ids.contains(ids[k]));
        },
        MessageOrdering::Shuffled => {
            broadcast use vstd::seq_lib::group_to_multiset_ensures;

            lemma_shuffle_permutes(ids, ids.len() - 1, draw);
            let t = shuffle(ids, ids.len() - 1, draw).0;
            assert(t.contains(t[0]));
            assert(t.to_multiset().contains(t[0]));
        },
    }
}

/// One line of the trace log.
#[derive(Debug)]
pub struct TraceRecord {
    pub run_id: u64,
    pub iteration: u64,
    pub input_type: String,
    pub message_id_selected: Option<u64>,
    pub ordering_mode: String,
    pub verification_result: String,
    pub bugs_triggered: Vec<String>,
}

/// What a [`TraceRecord`] holds.
#[verifier::ext_equal]
pub struct TraceView {
    pub run_id: u64,
    pub iteration: u64,
    pub input_type: Seq<char>,
    pub message_id_selected: Option<u64>,
    pub ordering_mode: Seq<char>,
    pub verification_result: Seq<char>,
    pub bugs_triggered: Seq<Seq<char>>,
}

impl View for TraceRecord {
    type V = TraceView;

    open spec fn view(&self) -> TraceView {
        TraceView {
            run_id: self.run_id,
            iteration: self.iteration,
            input_type: self.input_type@,
            message_id_selected: self.message_id_selected,
            ordering_mode: self.ordering_mode@,
            verification_result: self.verification_result@,
            bugs_triggered: self.bugs_triggered@.map_values(|s: String| s@),
        }
    }
}

/// Runs deposits and relays, and remembers the steps that took effect.
pub struct DualChainExecutor {
    pub state: DualChainState,
    /// State of the generator behind all choices.
    pub rng_state: u64,
    pub fixed_seed: Option<u64>,
    /// Where the trace log goes; without it no trace is kept.
    pub trace_log_path: Option<String>,
    pub verify_config: MockVerificationConfig,
    /// Deposits and relays so far.
    pub iteration: u64,
    pub run_id: u64,
    /// Steps that took effect, deposits and relays alike.
    pub exploit_path: ExploitPath,
    /// Trace records that have not been written to the log yet.
    pub trace: Vec<TraceRecord>,
}

/// What a [`DualChainExecutor`] holds.
#[verifier::ext_equal]
pub struct ExecutorView {
    pub state: StateView,
    pub rng_state: u64,
    pub fixed_seed: Option<u64>,
    pub trace_log_path: Option<Seq<char>>,
    pub verify_config: MockVerificationConfig,
    pub iteration: u64,
    pub run_id: u64,
    pub exploit_path: Seq<StepView>,
    pub trace: Seq<TraceView>,
}

impl View for DualChainExecutor {
    type V = ExecutorView;

    open spec fn view(&self) -> ExecutorView {
        ExecutorView {
            state: self.state@,
            rng_state: self.rng_state,
            fixed_seed: self.fixed_seed,
            trace_log_path: match self.trace_log_path {
                Some(p) => Some(p@),
                None => None,
            },
            verify_config: self.verify_config,
            iteration: self.iteration,
            run_id: self.run_id,
            exploit_path: self.exploit_path@,
            trace: self.trace@.map_values(|t: TraceRecord| t@),
        }
    }
}

/// The generator state that an executor starts in.
pub open spec fn initial_rng(seed: Option<u64>) -> u64 {
    match seed {
        Some(s) => s,
        None => 0xdeadbeef_cafebabe,
    }
}

/// The names of the bugs that the trace log shows for a state.
pub open spec fn bug_flags(s: StateView) -> Seq<Seq<char>> {
    named(s.fake_message_accepted, "FAKE_MSG"@) + named(s.replay_detected, "REPLAY"@) + named(
        s.state_desync_detected,
        "DESYNC"@,
    ) + named(s.queue_consistency_violated, "QUEUE"@) + named(s.atomicity_violated, "ATOMICITY"@)
        + named(s.drain_detected, "DRAIN"@)
}

/// The list that holds `name` where `found`, and nothing otherwise.
pub open spec fn named(found: bool, name: Seq<char>) -> Seq<Seq<char>> {
    if found {
        seq![name]
    } else {
        Seq::empty()
    }
}

fn push_named(flags: &mut Vec<String>, found: bool, name: &str)
    ensures
        final(flags)@.map_values(|s: String| s@) == old(flags)@.map_values(|s: String| s@) + named(
            found,
            name@,
        ),
{
    if found {
        flags.push(name.to_owned());
    }
    assert(flags@.map_values(|s: String| s@) =~= old(flags)@.map_values(|s: String| s@) + named(
        found,
        name@,
    ));
}

impl StateView {
    /// The messages of the three statuses add up to the queue.
    pub open spec fn counts_add_up(self) -> bool {
        self.queue.of_status(MessageStatus::Pending).len() + self.queue.of_status(
            MessageStatus::Processed,
        ).len() + self.queue.of_status(MessageStatus::Dropped).len() == self.queue.messages.len()
    }

    /// Whether more of some token was minted than locked.
    pub open spec fn desynced(self) -> bool {
        exists|token: EVMAddress| #[trigger] self.overminted(token)
    }

    /// The state after its invariants were checked.
    pub open spec fn checked(self) -> StateView {
        StateView {
            state_desync_detected: self.state_desync_detected || self.desynced(),
            queue_consistency_violated: self.queue_consistency_violated || !self.counts_add_up(),
            ..self
        }
    }
}

impl ExecutorView {
    /// The identifiers of the pending messages, in insertion order.
    pub open spec fn pending_ids(self) -> Seq<u64> {
        self.state.queue.of_status(MessageStatus::Pending).map_values(|m: MessageView| m.id)
    }

    /// The executor with one more trace record, where it keeps a trace.
    pub open spec fn traced(
        self,
        input_type: Seq<char>,
        message_id_selected: Option<u64>,
        ordering_mode: Seq<char>,
        verification_result: Seq<char>,
    ) -> ExecutorView {
        if self.trace_log_path is Some {
            ExecutorView {
                trace: self.trace.push(
                    TraceView {
                        run_id: self.run_id,
                        iteration: self.iteration,
                        input_type,
                        message_id_selected,
                        ordering_mode,
                        verification_result,
                        bugs_triggered: bug_flags(self.state),
                    },
                ),
                ..self
            }
        } else {
            self
        }
    }
}

/// Whether an execution on chain B reverts, and the generator state after it.
pub open spec fn chain_b_reverts(is_fake: bool, rng: u64) -> (bool, u64) {
    if is_fake {
        (xorshift(rng) % 10 < 7, xorshift(rng))
    } else {
        (false, rng)
    }
}

/// A message after the meta was forced on it; `replay` stands for the nonce of
/// some processed message, where there is one.
pub open spec fn forced(
    msg: MessageView,
    meta: CrossChainMutationMeta,
    replay: Option<u64>,
) -> MessageView {
    MessageView {
        merkle_root: if meta.force_zero_merkle_root {
            zero_root()
        } else {
            msg.merkle_root
        },
        nonce: if meta.force_replay_nonce && replay is Some {
            replay->0
        } else {
            msg.nonce
        },
        value: if meta.force_inflate_value {
            EVMU256::of(EVMU256::max_nat())
        } else {
            msg.value
        },
        ..msg
    }
}

impl StateView {
    /// The state after a message got the verdict `vr`.
    pub open spec fn judged(self, vr: VerificationResult) -> StateView {
        StateView {
            replay_detected: self.replay_detected || vr == VerificationResult::BypassAccepted(
                BypassReason::ReplayedNonce,
            ),
            ..self
        }
    }
}

impl ExecutorView {
    /// What the verification pipeline says of `msg`.
    pub open spec fn verdict_on(self, msg: MessageView, sig_count: u32) -> VerificationResult {
        verdict(self.verify_config, msg, self.state.queue.processed_nonces, sig_count)
    }

    /// The executor after one captured message, and the identifiers enqueued so
    /// far: a message that is not rejected is enqueued, its value is locked and
    /// the step is remembered.
    pub open spec fn deposited_one(
        self,
        ids: Seq<u64>,
        captured: MessageView,
        token: EVMAddress,
        sig_count: u32,
        meta: CrossChainMutationMeta,
    ) -> (ExecutorView, Seq<u64>) {
        let msg = forced(captured, meta, None);
        let vr = self.verdict_on(msg, sig_count);
        let state = self.state.judged(vr);
        if vr is Rejected {
            (ExecutorView { state, ..self }, ids)
        } else {
            (
                ExecutorView {
                    state: StateView {
                        queue: state.queue.pushed(msg),
                        locked_a: credited(state.locked_a, token, msg.value),
                        ..state
                    },
                    exploit_path: self.exploit_path.push(
                        StepView { kind: StepKind::Deposit, message: msg, token, sig_count, meta },
                    ),
                    ..self
                },
                ids.push(state.queue.next_id),
            )
        }
    }

    /// The executor after all captured messages, taken in order, and the
    /// identifiers enqueued.
    pub open spec fn deposited_all(
        self,
        captured: Seq<MessageView>,
        token: EVMAddress,
        sig_count: u32,
        meta: CrossChainMutationMeta,
    ) -> (ExecutorView, Seq<u64>)
        decreases captured.len(),
    {
        if captured.len() == 0 {
            (self, Seq::empty())
        } else {
            let before = self.deposited_all(captured.drop_last(), token, sig_count, meta);
            before.0.deposited_one(before.1, captured.last(), token, sig_count, meta)
        }
    }

    /// The executor after a deposit.
    pub open spec fn deposited(
        self,
        token: EVMAddress,
        captured: Seq<MessageView>,
        sig_count: u32,
        meta: CrossChainMutationMeta,
    ) -> ExecutorView {
        let start = ExecutorView { iteration: (self.iteration + 1) as u64, ..self };
        let done = start.deposited_all(captured, token, sig_count, meta);
        let ids = done.1;
        done.0.traced(
            "Deposit"@,
            if ids.len() > 0 {
                Some(ids[0])
            } else {
                None
            },
            "N/A"@,
            decimal(ids.len()) + " enqueued"@,
        )
    }
}

/// What a look at a set of processed nonces can give: one of them, or nothing
/// where there is none. Which one it is depends on the hasher.
pub open spec fn seen_in(replay: Option<u64>, processed_nonces: Set<u64>) -> bool {
    match replay {
        Some(n) => processed_nonces.contains(n),
        None => processed_nonces == Set::<u64>::empty(),
    }
}

impl ExecutorView {
    /// The message that a relay works on: the first with the picked identifier,
    /// after the meta was forced on it.
    pub open spec fn relayed_message(
        self,
        id: u64,
        meta: CrossChainMutationMeta,
        replay: Option<u64>,
    ) -> MessageView {
        forced(self.state.queue.messages[self.state.queue.find(id)->0], meta, replay)
    }

    /// The executor after a relay of the message `msg`, picked under `id`, that
    /// was rejected.
    pub open spec fn relay_rejected(self, id: u64, label: Seq<char>) -> ExecutorView {
        ExecutorView {
            state: StateView { queue: self.state.queue.dropped(id), ..self.state },
            ..self
        }.traced("Relay"@, Some(id), label, "Rejected"@)
    }

    /// The executor after a relay of the message `msg`, picked under `id`, that
    /// was executed: the step is remembered, the value is minted unless chain B
    /// reverts, the message is processed and the invariants are checked.
    pub open spec fn relay_executed(
        self,
        id: u64,
        msg: MessageView,
        label: Seq<char>,
        token: EVMAddress,
        sig_count: u32,
        meta: CrossChainMutationMeta,
    ) -> ExecutorView {
        let (reverts, rng_state) = chain_b_reverts(msg.is_fake, self.rng_state);
        let state = if reverts {
            StateView { atomicity_violated: true, ..self.state }
        } else {
            StateView {
                minted_b: credited(self.state.minted_b, token, msg.value),
                fake_message_accepted: self.state.fake_message_accepted || msg.is_fake,
                ..self.state
            }
        };
        ExecutorView {
            state: StateView { queue: state.queue.processed(id), ..state }.checked(),
            rng_state,
            exploit_path: self.exploit_path.push(
                StepView { kind: StepKind::Relay, message: msg, token, sig_count, meta },
            ),
            ..self
        }.traced(
            "Relay"@,
            Some(id),
            label,
            if reverts {
                "Revert"@
            } else {
                "Success"@
            },
        )
    }

    /// The executor after a relay of the message picked under `id`, and whether
    /// the message was executed.
    pub open spec fn relayed_id(
        self,
        id: u64,
        token: EVMAddress,
        sig_count: u32,
        meta: CrossChainMutationMeta,
        replay: Option<u64>,
    ) -> (ExecutorView, bool) {
        let msg = self.relayed_message(id, meta, replay);
        let vr = self.verdict_on(msg, sig_count);
        let draw = xorshift(self.rng_state);
        let label = ordering_name(ordering_of(draw));
        let judged = ExecutorView { state: self.state.judged(vr), rng_state: draw, ..self };
        if vr is Rejected {
            (judged.relay_rejected(id, label), false)
        } else {
            (judged.relay_executed(id, msg, label, token, sig_count, meta), true)
        }
    }

    /// The executor after a relay, and whether the relay executed a message.
    pub open spec fn relayed(
        self,
        token: EVMAddress,
        sig_count: u32,
        meta: CrossChainMutationMeta,
        replay: Option<u64>,
    ) -> (ExecutorView, bool) {
        let start = ExecutorView { iteration: (self.iteration + 1) as u64, ..self };
        if self.pending_ids().len() == 0 {
            (start.traced("Relay"@, None, "N/A"@, "NoPending"@), false)
        } else {
            let (id, rng_state) = pick(self.pending_ids(), self.rng_state);
            ExecutorView { rng_state, ..start }.relayed_id(id, token, sig_count, meta, replay)
        }
    }
}

impl DualChainExecutor {
    pub fn new(
        state: DualChainState,
        seed: Option<u64>,
        verify_config: MockVerificationConfig,
    ) -> (r: DualChainExecutor)
        ensures
            r@ == (ExecutorView {
                state: state@,
                rng_state: initial_rng(seed),
                fixed_seed: seed,
                trace_log_path: None,
                verify_config,
                iteration: 0,
                run_id: 0,
                exploit_path: Seq::empty(),
                trace: Seq::empty(),
            }),
    {
        let r = DualChainExecutor {
            state,
            rng_state: match seed {
                Some(s) => s,
                None => 0xdeadbeef_cafebabe,
            },
            fixed_seed: seed,
            trace_log_path: None,
            verify_config,
            iteration: 0,
            run_id: 0,
            exploit_path: ExploitPath::new(),
            trace: Vec::new(),
        };
        assert(r@.trace =~= Seq::empty());
        r
    }

    /// Keeps a trace from now on, for the log at `path`.
    pub fn set_trace_log(&mut self, path: String)
        ensures
            final(self)@ == (ExecutorView { trace_log_path: Some(path@), ..old(self)@ }),
    {
        self.trace_log_path = Some(path);
    }

    fn next_rand(&mut self) -> (r: u64)
        ensures
            r == xorshift(old(self)@.rng_state),
            final(self)@ == (ExecutorView { rng_state: r, ..old(self)@ }),
    {
        xorshift64(&mut self.rng_state)
    }

    fn pick_ordering(&mut self) -> (r: MessageOrdering)
        ensures
            r == ordering_of(xorshift(old(self)@.rng_state)),
            final(self)@ == (ExecutorView {
                rng_state: xorshift(old(self)@.rng_state),
                ..old(self)@
            }),
    {
        match self.next_rand() % 3 {
            0 => MessageOrdering::Fifo,
            1 => MessageOrdering::Random,
            _ => MessageOrdering::Shuffled,
        }
    }

    /// Picks a pending message.
    fn select_pending_id(&mut self) -> (r: Option<u64>)
        ensures
            old(self)@.pending_ids().len() == 0 ==> r is None && final(self)@ == old(self)@,
            old(self)@.pending_ids().len() > 0 ==> {
                let p = pick(old(self)@.pending_ids(), old(self)@.rng_state);
                r == Some(p.0) && final(self)@ == (ExecutorView { rng_state: p.1, ..old(self)@ })
            },
    {
        let mut ids: Vec<u64> = Vec::new();
        {
            let pending = self.state.queue.pending();
            let mut i: usize = 0;
            while i < pending.len()
                invariant
                    i <= pending@.len(),
                    ids@ == pending@.take(i as int).map_values(|m: &CrossChainMessage| m.id),
                decreases pending.len() - i,
            {
                ids.push(pending[i].id);
                i = i + 1;
                assert(ids@ =~= pending@.take(i as int).map_values(|m: &CrossChainMessage| m.id));
            }
            assert(ids@ =~= self@.pending_ids()) by {
                let views = pending@.map_values(|m: &CrossChainMessage| m@);
                assert forall|k: int| 0 <= k < ids@.len() implies ids@[k] == #[trigger] views[k].id by {
                }
            }
        }
        let ghost all = ids@;
        if ids.len() == 0 {
            return None;
        }
        let chosen: u64 = match self.pick_ordering() {
            MessageOrdering::Fifo => ids[0],
            MessageOrdering::Random => {
                let k: usize = reduce(self.next_rand(), ids.len());
                ids[k]
            },
            MessageOrdering::Shuffled => {
                let ghost start = self@.rng_state;
                let mut i: usize = ids.len() - 1;
                while i > 0
                    invariant
                        i < ids.len() == all.len(),
                        shuffle(ids@, i as int, self@.rng_state) == shuffle(
                            all,
                            all.len() - 1,
                            start,
                        ),
                        self@ == (ExecutorView { rng_state: self@.rng_state, ..old(self)@ }),
                    decreases i,
                {
                    let ghost before = ids@;
                    let j: usize = reduce(self.next_rand(), i + 1);
                    let x: u64 = ids[i];
                    let y: u64 = ids[j];
                    ids.set(i, y);
                    ids.set(j, x);
                    assert(ids@ =~= swapped(before, i as int, j as int));
                    i = i - 1;
                }
                ids[0]
            },
        };
        Some(chosen)
    }

    fn collect_bug_flags(&self) -> (r: Vec<String>)
        ensures
            r@.map_values(|s: String| s@) == bug_flags(self@.state),
    {
        let mut flags: Vec<String> = Vec::new();
        assert(flags@.map_values(|s: String| s@) =~= Seq::<Seq<char>>::empty());
        push_named(&mut flags, self.state.fake_message_accepted, "FAKE_MSG");
        push_named(&mut flags, self.state.replay_detected, "REPLAY");
        push_named(&mut flags, self.state.state_desync_detected, "DESYNC");
        push_named(&mut flags, self.state.queue_consistency_violated, "QUEUE");
        push_named(&mut flags, self.state.atomicity_violated, "ATOMICITY");
        push_named(&mut flags, self.state.drain_detected, "DRAIN");
        assert(flags@.map_values(|s: String| s@) =~= bug_flags(self@.state));
        flags
    }

    /// Keeps a trace record, where a trace is kept.
    fn record_trace(
        &mut self,
        input_type: &str,
        message_id_selected: Option<u64>,
        ordering_mode: String,
        verification_result: String,
    )
        ensures
            final(self)@ == old(self)@.traced(
                input_type@,
                message_id_selected,
                ordering_mode@,
                verification_result@,
            ),
    {
        if self.trace_log_path.is_some() {
            let record = TraceRecord {
                run_id: self.run_id,
                iteration: self.iteration,
                input_type: input_type.to_owned(),
                message_id_selected,
                ordering_mode,
                verification_result,
                bugs_triggered: self.collect_bug_flags(),
            };
            self.trace.push(record);
            assert(self@.trace =~= old(self)@.trace.push(record@));
        }
    }

    /// Hands out the trace records that were kept, oldest first, for the log.
    pub fn take_trace(&mut self) -> (r: Vec<TraceRecord>)
        ensures
            r@.map_values(|t: TraceRecord| t@) == old(self)@.trace,
            final(self)@ == (ExecutorView { trace: Seq::empty(), ..old(self)@ }),
    {
        let mut r: Vec<TraceRecord> = Vec::new();
        core::mem::swap(&mut r, &mut self.trace);
        assert(self@.trace =~= Seq::empty());
        r
    }

    /// Sets the flags of the invariants that the state breaks: nothing minted
    /// beyond what is locked, and a queue whose statuses add up.
    pub fn check_invariants(&mut self)
        ensures
            final(self)@ == (ExecutorView { state: old(self)@.state.checked(), ..old(self)@ }),
    {
        let n: usize = self.state.minted_b.len();
        let mut i: usize = 0;
        let mut desync = false;
        let ghost s = self.state.minted_b.in_order();
        let ghost view = self@.state;
        while i < n
            invariant
                i <= n == s.len(),
                s == self.state.minted_b.in_order(),
                self@ == old(self)@,
                view == self@.state,
                desync == exists|j: int| 0 <= j < i && view.overminted(#[trigger] s[j].0),
            decreases n - i,
        {
            let (token, minted) = self.state.minted_b.entry_at(i);
            let locked = amount_of(&self.state.locked_a, &token);
            assert(minted.value() == crate::evm::cross_chain::amount(view.minted_b, s[i as int].0));
            if minted.exceeds(&locked) {
                assert(view.overminted(s[i as int].0));
                desync = true;
            }
            i = i + 1;
        }
        assert(desync == view.desynced()) by {
            if view.desynced() {
                let token = choose|token: EVMAddress| #[trigger] view.overminted(token);
                assert(view.minted_b.contains_key(token));
                let j = choose|j: int| 0 <= j < s.len() && #[trigger] s[j].0 == token;
                assert(view.overminted(s[j].0));
            }
        }
        if desync {
            self.state.state_desync_detected = true;
        }
        proof {
            lemma_statuses_partition(view.queue.messages);
        }
        let total: usize = self.state.queue.total_count();
        let accounted: usize = self.state.queue.pending_count()
            + self.state.queue.processed_count() + self.state.queue.dropped_count();
        if accounted != total {
            self.state.queue_consistency_violated = true;
        }
    }

    /// Whether the execution of `msg` on chain B reverts: of fake messages
    /// seven out of ten draws do.
    fn simulate_chain_b_execution(&mut self, msg: &CrossChainMessage) -> (r: bool)
        ensures
            (r, final(self)@.rng_state) == chain_b_reverts(msg.is_fake, old(self)@.rng_state),
            final(self)@ == (ExecutorView { rng_state: final(self)@.rng_state, ..old(self)@ }),
    {
        if msg.is_fake {
            return (self.next_rand() % 10) < 7;
        }
        false
    }

    /// Forces the meta on a message.
    fn force(msg: &mut CrossChainMessage, meta: CrossChainMutationMeta, replay: Option<u64>)
        ensures
            final(msg)@ == forced(old(msg)@, meta, replay),
    {
        if meta.force_zero_merkle_root {
            msg.merkle_root = [0u8; 32];
            assert(msg.merkle_root@ =~= zero_root());
        }
        if meta.force_replay_nonce {
            if let Some(n) = replay {
                msg.nonce = n;
            }
        }
        if meta.force_inflate_value {
            msg.value = EVMU256::max_value();
        }
    }

    /// Verifies a message, and remembers a replayed nonce.
    fn judge(&mut self, msg: &CrossChainMessage, sig_count: u32) -> (vr: VerificationResult)
        ensures
            vr == old(self)@.verdict_on(msg@, sig_count),
            final(self)@ == (ExecutorView { state: old(self)@.state.judged(vr), ..old(self)@ }),
    {
        let mut replay_flag = false;
        let vr = verify_message(
            &self.verify_config,
            msg,
            &self.state.queue.processed_nonces,
            sig_count,
            &mut replay_flag,
        );
        if replay_flag {
            self.state.replay_detected = true;
        }
        vr
    }

    /// Takes in one captured message; gives its identifier where it was
    /// enqueued.
    fn deposit_one(
        &mut self,
        captured: CrossChainMessage,
        token: EVMAddress,
        sig_count: u32,
        meta: CrossChainMutationMeta,
        ids: &mut Vec<u64>,
    )
        requires
            old(self).state.queue.next_id < u64::MAX,
        ensures
            (final(self)@, final(ids)@) == old(self)@.deposited_one(
                old(ids)@,
                captured@,
                token,
                sig_count,
                meta,
            ),
            final(self).state.queue.next_id <= old(self).state.queue.next_id + 1,
    {
        let mut msg = captured;
        Self::force(&mut msg, meta, None);
        let vr = self.judge(&msg, sig_count);
        match vr {
            VerificationResult::Rejected => {},
            _ => {
                let value = msg.value;
                let step = ExploitStep::deposit(&msg, token, sig_count, meta);
                let id: u64 = self.state.queue.push(msg);
                self.state.lock_a(token, value);
                self.exploit_path.push(step);
                ids.push(id);
            },
        }
    }

    /// Verifies the captured messages, enqueues those that pass and locks their
    /// value on chain A.
    pub fn execute_deposit(
        &mut self,
        token: EVMAddress,
        interceptor_captured: Vec<CrossChainMessage>,
        sig_count: u32,
        meta: Option<&CrossChainMutationMeta>,
    )
        requires
            old(self).iteration < u64::MAX,
            old(self).state.queue.next_id + interceptor_captured@.len() <= u64::MAX,
        ensures
            final(self)@ == old(self)@.deposited(
                token,
                interceptor_captured@.map_values(|m: CrossChainMessage| m@),
                sig_count,
                CrossChainMutationMeta::of(meta),
            ),
    {
        self.iteration = self.iteration + 1;
        let flags = match meta {
            Some(m) => *m,
            None => CrossChainMutationMeta::default(),
        };
        let mut ids: Vec<u64> = Vec::new();
        let ghost start = self@;
        let ghost captured = interceptor_captured@.map_values(|m: CrossChainMessage| m@);
        let ghost first_id = self.state.queue.next_id as int;
        let ghost total = captured.len();
        for msg in it: interceptor_captured
            invariant
                it.seq() == interceptor_captured@,
                captured == interceptor_captured@.map_values(|m: CrossChainMessage| m@),
                total == captured.len(),
                first_id + total <= u64::MAX,
                self.state.queue.next_id <= first_id + it.index(),
                (self@, ids@) == start.deposited_all(
                    captured.take(it.index()),
                    token,
                    sig_count,
                    flags,
                ),
        {
            let ghost k = it.index();
            assert(captured.take(k + 1).drop_last() =~= captured.take(k));
            assert(captured.take(k + 1).last() == msg@);
            self.deposit_one(msg, token, sig_count, flags, &mut ids);
        }
        assert(captured.take(total as int) =~= captured);
        let selected = if ids.len() > 0 {
            Some(ids[0])
        } else {
            None
        };
        let outcome = to_decimal(ids.len() as u64).concat(" enqueued");
        self.record_trace("Deposit", selected, "N/A".to_owned(), outcome);
    }

    /// Picks a pending message, verifies it and executes it on chain B; says
    /// whether a message was executed.
    pub fn execute_relay(
        &mut self,
        token: EVMAddress,
        sig_count: u32,
        meta: Option<&CrossChainMutationMeta>,
    ) -> (r: bool)
        requires
            old(self).iteration < u64::MAX,
        ensures
            exists|replay: Option<u64>|
                #![trigger seen_in(replay, old(self)@.state.queue.processed_nonces)]
                {
                    &&& seen_in(replay, old(self)@.state.queue.processed_nonces)
                    &&& (final(self)@, r) == old(self)@.relayed(
                        token,
                        sig_count,
                        CrossChainMutationMeta::of(meta),
                        replay,
                    )
                },
    {
        let replay: Option<u64> = first_nonce(&self.state.queue.processed_nonces);
        assert(seen_in(replay, old(self)@.state.queue.processed_nonces));
        self.execute_relay_with(token, sig_count, meta, replay)
    }

    /// As [`DualChainExecutor::execute_relay`], with the nonce to replay given.
    pub fn execute_relay_with(
        &mut self,
        token: EVMAddress,
        sig_count: u32,
        meta: Option<&CrossChainMutationMeta>,
        replay: Option<u64>,
    ) -> (r: bool)
        requires
            old(self).iteration < u64::MAX,
        ensures
            (final(self)@, r) == old(self)@.relayed(
                token,
                sig_count,
                CrossChainMutationMeta::of(meta),
                replay,
            ),
    {
        self.iteration = self.iteration + 1;
        let flags = match meta {
            Some(m) => *m,
            None => CrossChainMutationMeta::default(),
        };
        let ghost start = self@;
        let Some(id) = self.select_pending_id() else {
            self.record_trace("Relay", None, "N/A".to_owned(), "NoPending".to_owned());
            return false;
        };
        proof {
            lemma_pending_id_is_found(start, id);
        }
        self.relay_id(id, token, sig_count, flags, replay)
    }

    /// Relays the message picked under `id`.
    fn relay_id(
        &mut self,
        id: u64,
        token: EVMAddress,
        sig_count: u32,
        meta: CrossChainMutationMeta,
        replay: Option<u64>,
    ) -> (r: bool)
        requires
            old(self)@.state.queue.find(id) is Some,
        ensures
            (final(self)@, r) == old(self)@.relayed_id(id, token, sig_count, meta, replay),
    {
        let mut msg = self.state.queue.first_with_id(id);
        Self::force(&mut msg, meta, replay);
        let vr = self.judge(&msg, sig_count);
        let ordering_mode = ordering_label(self.pick_ordering());
        match vr {
            VerificationResult::Rejected => {
                self.relay_refused(id, ordering_mode);
                false
            },
            _ => {
                self.relay_accepted(id, &msg, ordering_mode, token, sig_count, meta);
                true
            },
        }
    }

    /// Drops a message that was rejected.
    fn relay_refused(&mut self, id: u64, ordering_mode: String)
        ensures
            final(self)@ == old(self)@.relay_rejected(id, ordering_mode@),
    {
        self.state.queue.mark_dropped(id);
        self.record_trace("Relay", Some(id), ordering_mode, "Rejected".to_owned());
    }

    /// Executes a message that was not rejected.
    fn relay_accepted(
        &mut self,
        id: u64,
        msg: &CrossChainMessage,
        ordering_mode: String,
        token: EVMAddress,
        sig_count: u32,
        meta: CrossChainMutationMeta,
    )
        ensures
            final(self)@ == old(self)@.relay_executed(
                id,
                msg@,
                ordering_mode@,
                token,
                sig_count,
                meta,
            ),
    {
        let pending_before_relay: usize = self.state.queue.pending_count();
        let reverts = self.simulate_chain_b_execution(msg);
        let step = ExploitStep::relay(msg, token, sig_count, meta);
        self.exploit_path.push(step);
        if reverts {
            self.state.atomicity_violated = true;
        } else {
            self.state.mint_b(token, msg.value);
            if msg.is_fake {
                self.state.fake_message_accepted = true;
            }
        }
        // The relayed message is still pending here, so a larger count means
        // that a deposit came in between.
        let pending_during: usize = self.state.queue.pending_count();
        let bugs = inspect_reentrancy(pending_before_relay, pending_during, true);
        if bugs.len() > 0 {
            self.state.reentrancy_detected = true;
        }
        self.state.queue.mark_processed(id);
        self.check_invariants();
        let outcome = if reverts {
            "Revert".to_owned()
        } else {
            "Success".to_owned()
        };
        self.record_trace("Relay", Some(id), ordering_mode, outcome);
    }
}

/// A nonce of the set, where it has one.
pub(crate) fn first_nonce(nonces: &HashSet<u64>) -> (r: Option<u64>)
    ensures
        seen_in(r, nonces@),
{
    broadcast use vstd::std_specs::hash::group_hash_axioms;

    for n in it: nonces.iter()
        invariant
            it.seq().unref().to_set() == nonces@,
            it.index() == 0,
    {
        assert(it.seq().unref()[0] == *n);
        assert(it.seq().unref().to_set().contains(*n));
        return Some(*n);
    }
    assert(nonces@ =~= Set::empty());
    None
}

/// The picked identifier is that of some message of the queue.
proof fn lemma_pending_id_is_found(e: ExecutorView, id: u64)
    requires
        e.pending_ids().len() > 0,
        id == pick(e.pending_ids(), e.rng_state).0,
    ensures
        e.state.queue.find(id) matches Some(i) && 0 <= i < e.state.queue.messages.len(),
{
    let ids = e.pending_ids();
    lemma_pick_is_one_of(ids, e.rng_state);
    let k = choose|k: int| 0 <= k < ids.len() && ids[k] == id;
    let pending = e.state.queue.of_status(MessageStatus::Pending);
    let all = e.state.queue.messages;
    lemma_having_status_within(all, MessageStatus::Pending, k);
    let n = choose|n: int| 0 <= n < all.len() && all[n] == pending[k];
    let all_ids = all.map_values(|m: MessageView| m.id);
    assert(all_ids[n] == id);
    all_ids.index_of_first_ensures(id);
}

} // verus!
