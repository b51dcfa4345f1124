//! Laws of the queue, of the dual-chain state and of the executor.

use vstd::prelude::*;

use crate::evm::cross_chain::executor::{
    chain_b_reverts, forced, index_from, lemma_pick_is_one_of, lemma_xorshift_nonzero,
    ordering_name, ordering_of, pick, seen_in, shuffle, swapped, xorshift, CrossChainMutationMeta,
    ExecutorView,
};
use crate::evm::cross_chain::{
    amount, credited, having_status, lemma_having_status_step, lemma_having_status_within,
    lemma_statuses_partition, message_stream, queue_stream, MessageStatus, MessageView, QueueView,
    StateView,
};
use crate::evm::middlewares::cross_chain_interceptor::zero_root;
use crate::evm::types::{EVMAddress, EVMU256};

verus! {

// ------------------------------------------------------------------ the queue

impl QueueView {
    /// The identifiers are the positions, and the next one is the length.
    pub open spec fn numbered(self) -> bool {
        &&& self.next_id == self.messages.len()
        &&& forall|i: int| 0 <= i < self.messages.len() ==> (#[trigger] self.messages[i]).id == i
    }
}

/// An empty queue is numbered.
pub proof fn law_new_queue_numbered()
    ensures
        QueueView::empty().numbered(),
{
}

/// A push keeps the queue numbered.
pub proof fn law_push_keeps_numbered(q: QueueView, msg: MessageView)
    requires
        q.numbered(),
        q.next_id < u64::MAX,
    ensures
        q.pushed(msg).numbered(),
{
}

/// A status change keeps the queue numbered, and changes one message at most.
pub proof fn law_marking_keeps_numbered(q: QueueView, id: u64)
    requires
        q.numbered(),
    ensures
        q.processed(id).numbered(),
        q.dropped(id).numbered(),
        forall|i: int|
            0 <= i < q.messages.len() && i != id ==> q.processed(id).messages[i]
                == #[trigger] q.messages[i] && q.dropped(id).messages[i] == q.messages[i],
{
    law_numbered_find(q, id);
}

/// In a numbered queue an identifier leads to its own message, and to nothing
/// where no message has it.
pub proof fn law_numbered_find(q: QueueView, id: u64)
    requires
        q.numbered(),
    ensures
        q.find(id) == if id < q.messages.len() {
            Some(id as int)
        } else {
            None
        },
{
    let ids = q.messages.map_values(|m: MessageView| m.id);
    ids.index_of_first_ensures(id);
    if id < q.messages.len() {
        assert(ids[id as int] == id);
    }
}

/// After a message was processed its nonce counts as replayed.
pub proof fn law_processed_nonce_is_replayed(q: QueueView, id: u64)
    requires
        q.find(id) is Some,
    ensures
        q.processed(id).processed_nonces.contains(q.messages[q.find(id)->0].nonce),
{
}

/// No operation of the queue forgets a processed nonce, and only processing
/// adds one.
pub proof fn law_nonces_are_kept(q: QueueView, msg: MessageView, id: u64)
    ensures
        q.pushed(msg).processed_nonces == q.processed_nonces,
        q.dropped(id).processed_nonces == q.processed_nonces,
        q.processed_nonces.subset_of(q.processed(id).processed_nonces),
{
}

/// A push appends one message and leaves the others as they are; a pending
/// message adds one to the pending count and nothing to the other counts.
pub proof fn law_push_adds_one(q: QueueView, msg: MessageView)
    ensures
        q.pushed(msg).messages.len() == q.messages.len() + 1,
        q.pushed(msg).messages.drop_last() == q.messages,
        forall|s: MessageStatus| #[trigger]
            q.pushed(msg).of_status(s).len() == q.of_status(s).len() + if msg.status == s {
                1nat
            } else {
                0nat
            },
{
    let p = q.pushed(msg);
    assert(p.messages.drop_last() =~= q.messages);
    assert forall|s: MessageStatus| #[trigger]
        p.of_status(s).len() == q.of_status(s).len() + if msg.status == s {
            1nat
        } else {
            0nat
        } by {
        lemma_having_status_step(p.messages, s);
    }
}

/// How a status change at position `i` moves the counts.
proof fn lemma_update_status_counts(
    messages: Seq<MessageView>,
    i: int,
    to: MessageStatus,
    s: MessageStatus,
)
    requires
        0 <= i < messages.len(),
    ensures
        having_status(messages.update(i, MessageView { status: to, ..messages[i] }), s).len() + (
        if messages[i].status == s {
            1nat
        } else {
            0nat
        }) == having_status(messages, s).len() + (if to == s {
            1nat
        } else {
            0nat
        }),
    decreases messages.len(),
{
    let after = messages.update(i, MessageView { status: to, ..messages[i] });
    lemma_having_status_step(messages, s);
    lemma_having_status_step(after, s);
    if i < messages.len() - 1 {
        lemma_update_status_counts(messages.drop_last(), i, to, s);
        assert(after.drop_last() =~= messages.drop_last().update(
            i,
            MessageView { status: to, ..messages[i] },
        ));
    } else {
        assert(after.drop_last() =~= messages.drop_last());
    }
}

/// Processing a pending message moves one message from pending to processed.
pub proof fn law_processing_moves_one(q: QueueView, id: u64)
    requires
        q.find(id) matches Some(i) && q.messages[i].status == MessageStatus::Pending,
    ensures
        q.processed(id).of_status(MessageStatus::Pending).len() + 1 == q.of_status(
            MessageStatus::Pending,
        ).len(),
        q.processed(id).of_status(MessageStatus::Processed).len() == q.of_status(
            MessageStatus::Processed,
        ).len() + 1,
        q.processed(id).of_status(MessageStatus::Dropped).len() == q.of_status(
            MessageStatus::Dropped,
        ).len(),
{
    let i = lemma_find_in_range(q, id);
    lemma_update_status_counts(q.messages, i, MessageStatus::Processed, MessageStatus::Pending);
    lemma_update_status_counts(q.messages, i, MessageStatus::Processed, MessageStatus::Processed);
    lemma_update_status_counts(q.messages, i, MessageStatus::Processed, MessageStatus::Dropped);
}

/// Dropping a pending message moves one message from pending to dropped.
pub proof fn law_dropping_moves_one(q: QueueView, id: u64)
    requires
        q.find(id) matches Some(i) && q.messages[i].status == MessageStatus::Pending,
    ensures
        q.dropped(id).of_status(MessageStatus::Pending).len() + 1 == q.of_status(
            MessageStatus::Pending,
        ).len(),
        q.dropped(id).of_status(MessageStatus::Dropped).len() == q.of_status(
            MessageStatus::Dropped,
        ).len() + 1,
        q.dropped(id).of_status(MessageStatus::Processed).len() == q.of_status(
            MessageStatus::Processed,
        ).len(),
{
    let i = lemma_find_in_range(q, id);
    lemma_update_status_counts(q.messages, i, MessageStatus::Dropped, MessageStatus::Pending);
    lemma_update_status_counts(q.messages, i, MessageStatus::Dropped, MessageStatus::Processed);
    lemma_update_status_counts(q.messages, i, MessageStatus::Dropped, MessageStatus::Dropped);
}

proof fn lemma_find_in_range(q: QueueView, id: u64) -> (i: int)
    requires
        q.find(id) is Some,
    ensures
        q.find(id) == Some(i),
        0 <= i < q.messages.len(),
        q.messages[i].id == id,
{
    q.messages.map_values(|m: MessageView| m.id).index_of_first_ensures(id);
    q.find(id)->0
}

/// The messages of the three statuses always add up to the queue.
pub proof fn law_counts_add_up(s: StateView)
    ensures
        s.counts_add_up(),
{
    lemma_statuses_partition(s.queue.messages);
}

// ------------------------------------------------------------- the state hash

/// The hash looks at the storage of both chains and at identifiers and statuses
/// of the messages, and at nothing else.
pub proof fn law_hash_sees_storage_and_statuses(s: StateView, t: StateView)
    requires
        s.state_a == t.state_a,
        s.state_b == t.state_b,
        s.queue.messages.len() == t.queue.messages.len(),
        forall|i: int|
            0 <= i < s.queue.messages.len() ==> (#[trigger] s.queue.messages[i]).id
                == t.queue.messages[i].id && s.queue.messages[i].status
                == t.queue.messages[i].status,
    ensures
        s.hash_stream() == t.hash_stream(),
{
    lemma_queue_stream_agrees(s.queue.messages, t.queue.messages);
}

proof fn lemma_queue_stream_agrees(s: Seq<MessageView>, t: Seq<MessageView>)
    requires
        s.len() == t.len(),
        forall|i: int|
            0 <= i < s.len() ==> (#[trigger] s[i]).id == t[i].id && s[i].status == t[i].status,
    ensures
        queue_stream(s) == queue_stream(t),
    decreases s.len(),
{
    if s.len() > 0 {
        assert(s.last() == s[s.len() - 1]);
        lemma_queue_stream_agrees(s.drop_last(), t.drop_last());
    }
}

/// A push extends what is hashed by the new message, so it never hashes the
/// same bytes as before.
pub proof fn law_push_changes_hash_stream(s: StateView, msg: MessageView)
    ensures
        ({
            let after = StateView { queue: s.queue.pushed(msg), ..s };
            &&& after.hash_stream() == s.hash_stream() + message_stream(
                MessageView { id: s.queue.next_id, ..msg },
            )
            &&& after.hash_stream() != s.hash_stream()
        }),
{
    let after = StateView { queue: s.queue.pushed(msg), ..s };
    law_push_adds_one(s.queue, msg);
    assert(after.hash_stream() =~= s.hash_stream() + message_stream(
        MessageView { id: s.queue.next_id, ..msg },
    ));
    assert(after.hash_stream().len() == s.hash_stream().len() + 4);
}

// ---------------------------------------------------------------- the ledgers

/// A credit raises the amount of its token, up to the largest word, and leaves
/// every other token alone.
pub proof fn law_credit(ledger: Map<EVMAddress, EVMU256>, token: EVMAddress, added: EVMU256)
    ensures
        amount(credited(ledger, token, added), token) == if amount(ledger, token) + added.value()
            <= EVMU256::max_nat() {
            amount(ledger, token) + added.value()
        } else {
            EVMU256::max_nat()
        },
        forall|other: EVMAddress|
            other != token ==> #[trigger] amount(credited(ledger, token, added), other) == amount(
                ledger,
                other,
            ),
{
    let sum = amount(ledger, token) + added.value();
    let n = if sum <= EVMU256::max_nat() {
        sum
    } else {
        EVMU256::max_nat()
    };
    lemma_of_value(n);
}

pub proof fn lemma_of_value(n: nat)
    requires
        n <= EVMU256::max_nat(),
    ensures
        EVMU256::of(n).value() == n,
{
}

// --------------------------------------------------------------- the executor

/// No flag of `s` is cleared in `t`.
pub open spec fn flags_kept(s: StateView, t: StateView) -> bool {
    &&& s.fake_message_accepted ==> t.fake_message_accepted
    &&& s.replay_detected ==> t.replay_detected
    &&& s.state_desync_detected ==> t.state_desync_detected
    &&& s.queue_consistency_violated ==> t.queue_consistency_violated
    &&& s.atomicity_violated ==> t.atomicity_violated
    &&& s.drain_detected ==> t.drain_detected
    &&& s.reentrancy_detected ==> t.reentrancy_detected
}

/// What a deposit leaves alone, and what it only adds to: it works on chain A,
/// may detect a replay, and never takes anything back.
pub open spec fn deposit_frame(e: ExecutorView, f: ExecutorView, token: EVMAddress) -> bool {
    &&& f.state == (StateView {
        queue: f.state.queue,
        locked_a: f.state.locked_a,
        replay_detected: f.state.replay_detected,
        ..e.state
    })
    &&& flags_kept(e.state, f.state)
    &&& f.state.queue.processed_nonces == e.state.queue.processed_nonces
    &&& e.state.queue.messages.is_prefix_of(f.state.queue.messages)
    &&& e.exploit_path.is_prefix_of(f.exploit_path)
    &&& f.exploit_path.len() - e.exploit_path.len() == f.state.queue.messages.len()
        - e.state.queue.messages.len()
    &&& amount(f.state.locked_a, token) >= amount(e.state.locked_a, token)
    &&& forall|other: EVMAddress|
        other != token ==> #[trigger] amount(f.state.locked_a, other) == amount(
            e.state.locked_a,
            other,
        )
    &&& f.rng_state == e.rng_state
    &&& f.fixed_seed == e.fixed_seed
    &&& f.verify_config == e.verify_config
    &&& f.run_id == e.run_id
    &&& f.trace_log_path == e.trace_log_path
}

pub proof fn lemma_deposited_all_frame(
    e: ExecutorView,
    captured: Seq<MessageView>,
    token: EVMAddress,
    sig_count: u32,
    meta: CrossChainMutationMeta,
)
    ensures
        ({
            let (f, ids) = e.deposited_all(captured, token, sig_count, meta);
            &&& deposit_frame(e, f, token)
            &&& ids.len() == f.state.queue.messages.len() - e.state.queue.messages.len()
            &&& f.iteration == e.iteration
            &&& f.trace == e.trace
        }),
    decreases captured.len(),
{
    if captured.len() > 0 {
        lemma_deposited_all_frame(e, captured.drop_last(), token, sig_count, meta);
        let g = e.deposited_all(captured.drop_last(), token, sig_count, meta).0;
        let msg = forced(captured.last(), meta, None);
        law_credit(g.state.locked_a, token, msg.value);
        let f = e.deposited_all(captured, token, sig_count, meta).0;
        assert(e.state.queue.messages.is_prefix_of(f.state.queue.messages));
        assert(e.exploit_path.is_prefix_of(f.exploit_path));
        lemma_amount_bounded(g.state.locked_a, token);
    }
}

proof fn lemma_amount_bounded(ledger: Map<EVMAddress, EVMU256>, token: EVMAddress)
    ensures
        amount(ledger, token) <= EVMU256::max_nat(),
{
    if ledger.contains_key(token) {
        ledger[token].lemma_value();
    }
}

/// A deposit touches the queue, the locked amount of its token, the path and
/// the replay flag only. It never takes a message, a step, an amount or a flag
/// back, and adds one step for each message that it enqueues.
pub proof fn law_deposit_frame(
    e: ExecutorView,
    token: EVMAddress,
    captured: Seq<MessageView>,
    sig_count: u32,
    meta: CrossChainMutationMeta,
)
    ensures
        deposit_frame(e, e.deposited(token, captured, sig_count, meta), token),
{
    let start = ExecutorView { iteration: (e.iteration + 1) as u64, ..e };
    lemma_deposited_all_frame(start, captured, token, sig_count, meta);
}

/// What a relay leaves alone, and what it only adds to: it works on chain B and
/// never takes anything back.
pub open spec fn relay_frame(e: ExecutorView, f: ExecutorView, token: EVMAddress) -> bool {
    &&& f.state.state_a == e.state.state_a
    &&& f.state.state_b == e.state.state_b
    &&& f.state.locked_a == e.state.locked_a
    &&& f.state.drain_detected == e.state.drain_detected
    &&& f.state.reentrancy_detected == e.state.reentrancy_detected
    &&& f.state.queue_consistency_violated == e.state.queue_consistency_violated
    &&& flags_kept(e.state, f.state)
    &&& f.state.queue.next_id == e.state.queue.next_id
    &&& f.state.queue.messages.len() == e.state.queue.messages.len()
    &&& e.state.queue.processed_nonces.subset_of(f.state.queue.processed_nonces)
    &&& e.exploit_path.is_prefix_of(f.exploit_path)
    &&& amount(f.state.minted_b, token) >= amount(e.state.minted_b, token)
    &&& forall|other: EVMAddress|
        other != token ==> #[trigger] amount(f.state.minted_b, other) == amount(
            e.state.minted_b,
            other,
        )
    &&& f.fixed_seed == e.fixed_seed
    &&& f.verify_config == e.verify_config
    &&& f.run_id == e.run_id
    &&& f.trace_log_path == e.trace_log_path
}

/// A relay never locks, never enqueues, and mints its own token only. It never
/// takes a step, an amount or a flag back; it never reports a broken queue or a
/// re-entrant deposit.
pub proof fn law_relay_frame(
    e: ExecutorView,
    token: EVMAddress,
    sig_count: u32,
    meta: CrossChainMutationMeta,
    replay: Option<u64>,
)
    ensures
        relay_frame(e, e.relayed(token, sig_count, meta, replay).0, token),
{
    if e.pending_ids().len() > 0 {
        let (id, rng) = pick(e.pending_ids(), e.rng_state);
        let msg = e.relayed_message(id, meta, replay);
        let vr = e.verdict_on(msg, sig_count);
        let draw = xorshift(rng);
        let label = ordering_name(ordering_of(draw));
        let judged = ExecutorView {
            state: e.state.judged(vr),
            rng_state: draw,
            iteration: (e.iteration + 1) as u64,
            ..e
        };
        lemma_rejected_frame(judged, id, label, token);
        lemma_executed_frame(judged, id, msg, label, token, sig_count, meta);
    }
}

proof fn lemma_rejected_frame(e: ExecutorView, id: u64, label: Seq<char>, token: EVMAddress)
    ensures
        relay_frame(e, e.relay_rejected(id, label), token),
{
    if e.state.queue.find(id) is Some {
        lemma_find_in_range(e.state.queue, id);
    }
}

proof fn lemma_executed_frame(
    e: ExecutorView,
    id: u64,
    msg: MessageView,
    label: Seq<char>,
    token: EVMAddress,
    sig_count: u32,
    meta: CrossChainMutationMeta,
)
    ensures
        relay_frame(e, e.relay_executed(id, msg, label, token, sig_count, meta), token),
{
    let f = e.relay_executed(id, msg, label, token, sig_count, meta);
    let q = e.state.queue.processed(id);
    assert(q.messages.len() == e.state.queue.messages.len()) by {
        if e.state.queue.find(id) is Some {
            lemma_find_in_range(e.state.queue, id);
        }
    }
    let (reverts, rng_state) = chain_b_reverts(msg.is_fake, e.rng_state);
    let state = if reverts {
        StateView { atomicity_violated: true, ..e.state }
    } else {
        StateView {
            minted_b: credited(e.state.minted_b, token, msg.value),
            fake_message_accepted: e.state.fake_message_accepted || msg.is_fake,
            ..e.state
        }
    };
    let unchecked = StateView { queue: q, ..state };
    law_counts_add_up(unchecked);
    assert(f.state == unchecked.checked());
    assert(e.exploit_path.is_prefix_of(f.exploit_path));
    assert(amount(state.minted_b, token) >= amount(e.state.minted_b, token) && forall|
        other: EVMAddress,
    |
        other != token ==> #[trigger] amount(state.minted_b, other) == amount(
            e.state.minted_b,
            other,
        )) by {
        lemma_amount_bounded(e.state.minted_b, token);
        law_credit(e.state.minted_b, token, msg.value);
    }
}

/// A relay without pending messages executes nothing: it only counts the
/// iteration and leaves a trace record.
pub proof fn law_relay_without_pending(
    e: ExecutorView,
    token: EVMAddress,
    sig_count: u32,
    meta: CrossChainMutationMeta,
    replay: Option<u64>,
)
    requires
        e.state.queue.of_status(MessageStatus::Pending).len() == 0,
    ensures
        !e.relayed(token, sig_count, meta, replay).1,
        e.relayed(token, sig_count, meta, replay).0 == (ExecutorView {
            iteration: (e.iteration + 1) as u64,
            trace: e.relayed(token, sig_count, meta, replay).0.trace,
            ..e
        }),
{
}

/// In a numbered queue the picked message is a pending one.
pub proof fn lemma_picked_is_pending(e: ExecutorView)
    requires
        e.state.queue.numbered(),
        e.pending_ids().len() > 0,
    ensures
        ({
            let id = pick(e.pending_ids(), e.rng_state).0;
            &&& e.state.queue.find(id) == Some(id as int)
            &&& id < e.state.queue.messages.len()
            &&& e.state.queue.messages[id as int].status == MessageStatus::Pending
        }),
{
    let ids = e.pending_ids();
    let id = pick(ids, e.rng_state).0;
    lemma_pick_is_one_of(ids, e.rng_state);
    let k = choose|k: int| 0 <= k < ids.len() && ids[k] == id;
    let all = e.state.queue.messages;
    let pending = having_status(all, MessageStatus::Pending);
    lemma_having_status_within(all, MessageStatus::Pending, k);
    let n = choose|n: int| 0 <= n < all.len() && all[n] == pending[k];
    assert(all[n].id == n);
    law_numbered_find(e.state.queue, id);
}

/// A relay that finds a pending message settles exactly one: it moves from
/// pending to processed where the relay executed it, and to dropped otherwise.
pub proof fn law_relay_settles_one(
    e: ExecutorView,
    token: EVMAddress,
    sig_count: u32,
    meta: CrossChainMutationMeta,
    replay: Option<u64>,
)
    requires
        e.state.queue.numbered(),
        e.state.queue.of_status(MessageStatus::Pending).len() > 0,
    ensures
        ({
            let (f, executed) = e.relayed(token, sig_count, meta, replay);
            let q = e.state.queue;
            let p = f.state.queue;
            &&& p.numbered()
            &&& p.of_status(MessageStatus::Pending).len() + 1 == q.of_status(
                MessageStatus::Pending,
            ).len()
            &&& p.of_status(MessageStatus::Processed).len() == q.of_status(
                MessageStatus::Processed,
            ).len() + if executed {
                1nat
            } else {
                0nat
            }
            &&& p.of_status(MessageStatus::Dropped).len() == q.of_status(
                MessageStatus::Dropped,
            ).len() + if executed {
                0nat
            } else {
                1nat
            }
        }),
{
    lemma_picked_is_pending(e);
    let id = pick(e.pending_ids(), e.rng_state).0;
    law_processing_moves_one(e.state.queue, id);
    law_dropping_moves_one(e.state.queue, id);
    law_marking_keeps_numbered(e.state.queue, id);
}

/// A deposit keeps the queue numbered.
pub proof fn law_deposit_keeps_numbered(
    e: ExecutorView,
    token: EVMAddress,
    captured: Seq<MessageView>,
    sig_count: u32,
    meta: CrossChainMutationMeta,
)
    requires
        e.state.queue.numbered(),
        e.state.queue.next_id + captured.len() <= u64::MAX,
    ensures
        e.deposited(token, captured, sig_count, meta).state.queue.numbered(),
{
    let start = ExecutorView { iteration: (e.iteration + 1) as u64, ..e };
    lemma_deposited_all_numbered(start, captured, token, sig_count, meta);
}

proof fn lemma_deposited_all_numbered(
    e: ExecutorView,
    captured: Seq<MessageView>,
    token: EVMAddress,
    sig_count: u32,
    meta: CrossChainMutationMeta,
)
    requires
        e.state.queue.numbered(),
        e.state.queue.next_id + captured.len() <= u64::MAX,
    ensures
        e.deposited_all(captured, token, sig_count, meta).0.state.queue.numbered(),
        e.deposited_all(captured, token, sig_count, meta).0.state.queue.next_id
            <= e.state.queue.next_id + captured.len(),
    decreases captured.len(),
{
    if captured.len() > 0 {
        lemma_deposited_all_numbered(e, captured.drop_last(), token, sig_count, meta);
    }
}

/// Unless a nonce is to be replayed, a relay is determined by the executor and
/// its arguments: the order of the processed nonces does not matter.
pub proof fn law_relay_deterministic(
    e: ExecutorView,
    token: EVMAddress,
    sig_count: u32,
    meta: CrossChainMutationMeta,
    replay: Option<u64>,
    other: Option<u64>,
)
    requires
        !meta.force_replay_nonce,
    ensures
        e.relayed(token, sig_count, meta, replay) == e.relayed(token, sig_count, meta, other),
{
    if e.pending_ids().len() > 0 {
        let id = pick(e.pending_ids(), e.rng_state).0;
        assert(e.relayed_message(id, meta, replay) == e.relayed_message(id, meta, other));
    }
}

/// A relay never leaves the generator in the state zero, from which it could not
/// get away, unless it was there before.
pub proof fn law_relay_keeps_generator_alive(
    e: ExecutorView,
    token: EVMAddress,
    sig_count: u32,
    meta: CrossChainMutationMeta,
    replay: Option<u64>,
)
    requires
        e.rng_state != 0,
    ensures
        e.relayed(token, sig_count, meta, replay).0.rng_state != 0,
{
    if e.pending_ids().len() > 0 {
        let rng = pick(e.pending_ids(), e.rng_state).1;
        lemma_pick_nonzero(e.pending_ids(), e.rng_state);
        lemma_xorshift_nonzero(rng);
        lemma_xorshift_nonzero(xorshift(rng));
    }
}

proof fn lemma_pick_nonzero(ids: Seq<u64>, rng: u64)
    requires
        rng != 0,
    ensures
        pick(ids, rng).1 != 0,
{
    let draw = xorshift(rng);
    lemma_xorshift_nonzero(rng);
    lemma_xorshift_nonzero(draw);
    lemma_shuffle_nonzero(ids, ids.len() - 1, draw);
}

proof fn lemma_shuffle_nonzero(ids: Seq<u64>, i: int, rng: u64)
    requires
        rng != 0,
    ensures
        shuffle(ids, i, rng).1 != 0,
    decreases i,
{
    if i > 0 {
        let draw = xorshift(rng);
        lemma_xorshift_nonzero(rng);
        lemma_shuffle_nonzero(swapped(ids, i, index_from(draw, i + 1)), i - 1, draw);
    }
}

/// Whether two executors differ in their paths at most.
pub open spec fn same_but_path(e: ExecutorView, f: ExecutorView) -> bool {
    f == (ExecutorView { exploit_path: f.exploit_path, ..e })
}

/// Which of the processed nonces a relay replays shows in the recorded path
/// only: state, trace, generator and outcome are the same for every choice.
pub proof fn law_replay_choice_shows_in_path_only(
    e: ExecutorView,
    f: ExecutorView,
    token: EVMAddress,
    sig_count: u32,
    meta: CrossChainMutationMeta,
    replay: Option<u64>,
    other: Option<u64>,
)
    requires
        same_but_path(e, f),
        seen_in(replay, e.state.queue.processed_nonces),
        seen_in(other, f.state.queue.processed_nonces),
    ensures
        same_but_path(
            e.relayed(token, sig_count, meta, replay).0,
            f.relayed(token, sig_count, meta, other).0,
        ),
        e.relayed(token, sig_count, meta, replay).1 == f.relayed(token, sig_count, meta, other).1,
{
    let e0 = ExecutorView { iteration: (e.iteration + 1) as u64, ..e };
    let f0 = ExecutorView { iteration: (f.iteration + 1) as u64, ..f };
    if e.pending_ids().len() > 0 {
        let (id, rng_state) = pick(e.pending_ids(), e.rng_state);
        let e1 = ExecutorView { rng_state, ..e0 };
        let f1 = ExecutorView { rng_state, ..f0 };
        let m = e1.relayed_message(id, meta, replay);
        let n = f1.relayed_message(id, meta, other);
        let vr = e1.verdict_on(m, sig_count);
        assert(vr == f1.verdict_on(n, sig_count));
        let draw = xorshift(rng_state);
        let label = ordering_name(ordering_of(draw));
        let e2 = ExecutorView { state: e1.state.judged(vr), rng_state: draw, ..e1 };
        let f2 = ExecutorView { state: f1.state.judged(vr), rng_state: draw, ..f1 };
        lemma_rejected_same_but_path(e2, f2, id, label);
        lemma_executed_same_but_path(e2, f2, id, m, n, label, token, sig_count, meta);
    }
}

proof fn lemma_rejected_same_but_path(e: ExecutorView, f: ExecutorView, id: u64, label: Seq<char>)
    requires
        same_but_path(e, f),
    ensures
        same_but_path(e.relay_rejected(id, label), f.relay_rejected(id, label)),
{
}

proof fn lemma_executed_same_but_path(
    e: ExecutorView,
    f: ExecutorView,
    id: u64,
    m: MessageView,
    n: MessageView,
    label: Seq<char>,
    token: EVMAddress,
    sig_count: u32,
    meta: CrossChainMutationMeta,
)
    requires
        same_but_path(e, f),
        m.is_fake == n.is_fake,
        m.value == n.value,
    ensures
        same_but_path(
            e.relay_executed(id, m, label, token, sig_count, meta),
            f.relay_executed(id, n, label, token, sig_count, meta),
        ),
{
}

/// Two executors that differ in their paths at most still do so after the same
/// deposit.
pub proof fn law_deposit_keeps_same_but_path(
    e: ExecutorView,
    f: ExecutorView,
    token: EVMAddress,
    captured: Seq<MessageView>,
    sig_count: u32,
    meta: CrossChainMutationMeta,
)
    requires
        same_but_path(e, f),
    ensures
        same_but_path(
            e.deposited(token, captured, sig_count, meta),
            f.deposited(token, captured, sig_count, meta),
        ),
{
    let e0 = ExecutorView { iteration: (e.iteration + 1) as u64, ..e };
    let f0 = ExecutorView { iteration: (f.iteration + 1) as u64, ..f };
    lemma_deposited_all_same_but_path(e0, f0, captured, token, sig_count, meta);
}

proof fn lemma_deposited_all_same_but_path(
    e: ExecutorView,
    f: ExecutorView,
    captured: Seq<MessageView>,
    token: EVMAddress,
    sig_count: u32,
    meta: CrossChainMutationMeta,
)
    requires
        same_but_path(e, f),
    ensures
        same_but_path(
            e.deposited_all(captured, token, sig_count, meta).0,
            f.deposited_all(captured, token, sig_count, meta).0,
        ),
        e.deposited_all(captured, token, sig_count, meta).1 == f.deposited_all(
            captured,
            token,
            sig_count,
            meta,
        ).1,
    decreases captured.len(),
{
    if captured.len() > 0 {
        lemma_deposited_all_same_but_path(e, f, captured.drop_last(), token, sig_count, meta);
    }
}

/// A forced replay does not go unseen: with enough signatures, and unless the
/// zero root lets the message through, the replay flag is set.
pub proof fn law_forced_replay_is_detected(
    e: ExecutorView,
    token: EVMAddress,
    sig_count: u32,
    meta: CrossChainMutationMeta,
    nonce: u64,
)
    requires
        e.state.queue.of_status(MessageStatus::Pending).len() > 0,
        e.state.queue.processed_nonces.contains(nonce),
        meta.force_replay_nonce,
        sig_count >= e.verify_config.signature_threshold,
        !e.verify_config.simulate_nomad_bypass || e.relayed_message(
            pick(e.pending_ids(), e.rng_state).0,
            meta,
            Some(nonce),
        ).merkle_root != zero_root(),
    ensures
        e.relayed(token, sig_count, meta, Some(nonce)).0.state.replay_detected,
        e.relayed(token, sig_count, meta, Some(nonce)).1,
{
}

/// A fake message that is executed leaves a mark: either chain B reverted and
/// atomicity is reported, or the fake is reported as accepted.
pub proof fn law_executed_fake_is_reported(
    e: ExecutorView,
    token: EVMAddress,
    sig_count: u32,
    meta: CrossChainMutationMeta,
    replay: Option<u64>,
)
    requires
        e.relayed(token, sig_count, meta, replay).1,
        e.relayed_message(pick(e.pending_ids(), e.rng_state).0, meta, replay).is_fake,
    ensures
        ({
            let f = e.relayed(token, sig_count, meta, replay).0;
            f.state.atomicity_violated || f.state.fake_message_accepted
        }),
{
}

/// After a relay that executed a message, the desync flag tells the truth: it
/// is set where some token is minted beyond its lock, and was set before or is
/// set for that reason only.
pub proof fn law_desync_flag_after_relay(
    e: ExecutorView,
    token: EVMAddress,
    sig_count: u32,
    meta: CrossChainMutationMeta,
    replay: Option<u64>,
)
    requires
        e.relayed(token, sig_count, meta, replay).1,
    ensures
        ({
            let f = e.relayed(token, sig_count, meta, replay).0;
            f.state.state_desync_detected <==> (e.state.state_desync_detected
                || f.state.desynced())
        }),
{
    let f = e.relayed(token, sig_count, meta, replay).0;
    let (id, rng) = pick(e.pending_ids(), e.rng_state);
    let msg = e.relayed_message(id, meta, replay);
    let vr = e.verdict_on(msg, sig_count);
    let reverts = chain_b_reverts(msg.is_fake, xorshift(rng)).0;
    let judged = e.state.judged(vr);
    let state = if reverts {
        StateView { atomicity_violated: true, ..judged }
    } else {
        StateView {
            minted_b: credited(judged.minted_b, token, msg.value),
            fake_message_accepted: judged.fake_message_accepted || msg.is_fake,
            ..judged
        }
    };
    let unchecked = StateView { queue: state.queue.processed(id), ..state };
    assert(f.state == unchecked.checked());
    lemma_desynced_agrees(f.state, unchecked);
}

proof fn lemma_desynced_agrees(s: StateView, t: StateView)
    requires
        s.minted_b == t.minted_b,
        s.locked_a == t.locked_a,
    ensures
        s.desynced() == t.desynced(),
{
    assert forall|token: EVMAddress| #[trigger] s.overminted(token) implies t.overminted(token) by {}
    assert forall|token: EVMAddress| #[trigger] t.overminted(token) implies s.overminted(token) by {}
}

/// A deposited message is relayed: where nothing else is pending, a message
/// that passes verification is enqueued by a deposit and executed by the next
/// relay, which marks it as processed and leaves nothing pending.
pub proof fn law_deposit_then_relay(
    e: ExecutorView,
    token: EVMAddress,
    msg: MessageView,
    sig_count: u32,
    meta: CrossChainMutationMeta,
    replay: Option<u64>,
)
    requires
        e.state.queue.numbered(),
        e.state.queue.next_id < u64::MAX,
        e.state.queue.of_status(MessageStatus::Pending).len() == 0,
        msg.status == MessageStatus::Pending,
        meta == CrossChainMutationMeta::none(),
        e.verdict_on(msg, sig_count) !is Rejected,
    ensures
        ({
            let f = e.deposited(token, seq![msg], sig_count, meta);
            let (g, executed) = f.relayed(token, sig_count, meta, replay);
            let n = e.state.queue.messages.len() as int;
            &&& f.state.queue.of_status(MessageStatus::Pending).len() == 1
            &&& executed
            &&& g.state.queue.of_status(MessageStatus::Pending).len() == 0
            &&& g.state.queue.messages[n].status == MessageStatus::Processed
            &&& g.state.queue.processed_nonces.contains(msg.nonce)
        }),
{
    let f = e.deposited(token, seq![msg], sig_count, meta);
    let start = ExecutorView { iteration: (e.iteration + 1) as u64, ..e };
    let (d, ids) = start.deposited_all(seq![msg], token, sig_count, meta);
    let none = start.deposited_all(seq![msg].drop_last(), token, sig_count, meta);
    assert(seq![msg].drop_last() =~= Seq::<MessageView>::empty());
    assert(none == (start, Seq::<u64>::empty()));
    assert(seq![msg].last() == msg);
    assert(forced(msg, meta, None) =~= msg);
    assert((d, ids) == start.deposited_one(Seq::empty(), msg, token, sig_count, meta));
    let n = e.state.queue.messages.len() as int;
    law_push_adds_one(e.state.queue, msg);
    law_push_keeps_numbered(e.state.queue, msg);
    assert(f.state.queue == e.state.queue.pushed(msg));
    lemma_picked_is_pending(f);
    let id = pick(f.pending_ids(), f.rng_state).0;
    lemma_only_pending(e.state.queue, f.state.queue, msg, id as int);
    law_relay_settles_one(f, token, sig_count, meta, replay);
    assert(f.relayed_message(id, meta, replay) =~= MessageView { id: n as u64, ..msg });
    law_numbered_find(f.state.queue, id);
}

/// Where nothing was pending before a push, only the pushed message is.
proof fn lemma_only_pending(q: QueueView, p: QueueView, msg: MessageView, i: int)
    requires
        q.of_status(MessageStatus::Pending).len() == 0,
        p == q.pushed(msg),
        0 <= i < p.messages.len(),
        p.messages[i].status == MessageStatus::Pending,
    ensures
        i == q.messages.len(),
{
    if i < q.messages.len() {
        lemma_pending_counts(q.messages, i);
    }
}

proof fn lemma_pending_counts(messages: Seq<MessageView>, i: int)
    requires
        0 <= i < messages.len(),
        messages[i].status == MessageStatus::Pending,
    ensures
        having_status(messages, MessageStatus::Pending).len() > 0,
    decreases messages.len(),
{
    lemma_having_status_step(messages, MessageStatus::Pending);
    if i < messages.len() - 1 {
        lemma_pending_counts(messages.drop_last(), i);
    }
}

// ------------------------------------------------- the soundness of the bridge

/// The value of all messages.
pub open spec fn total_value(messages: Seq<MessageView>) -> nat
    decreases messages.len(),
{
    if messages.len() == 0 {
        0
    } else {
        total_value(messages.drop_last()) + messages.last().value.value()
    }
}

/// The value of the processed messages.
pub open spec fn processed_value(messages: Seq<MessageView>) -> nat
    decreases messages.len(),
{
    if messages.len() == 0 {
        0
    } else {
        processed_value(messages.drop_last()) + if messages.last().status
            == MessageStatus::Processed {
            messages.last().value.value()
        } else {
            0
        }
    }
}

/// A bridge of one token whose mints are backed: the lock holds the value of
/// all messages, as far as a word can, and no more was minted than the value of
/// the processed ones.
pub open spec fn backed(s: StateView, token: EVMAddress) -> bool {
    &&& s.queue.numbered()
    &&& amount(s.locked_a, token) == if total_value(s.queue.messages) <= EVMU256::max_nat() {
        total_value(s.queue.messages)
    } else {
        EVMU256::max_nat()
    }
    &&& amount(s.minted_b, token) <= processed_value(s.queue.messages)
    &&& forall|other: EVMAddress| other != token ==> #[trigger] amount(s.minted_b, other) == 0
}

proof fn lemma_processed_within_total(messages: Seq<MessageView>)
    ensures
        processed_value(messages) <= total_value(messages),
    decreases messages.len(),
{
    if messages.len() > 0 {
        lemma_processed_within_total(messages.drop_last());
    }
}

proof fn lemma_processing_adds_value(messages: Seq<MessageView>, i: int, to: MessageStatus)
    requires
        0 <= i < messages.len(),
        messages[i].status == MessageStatus::Pending,
    ensures
        ({
            let after = messages.update(i, MessageView { status: to, ..messages[i] });
            &&& total_value(after) == total_value(messages)
            &&& processed_value(after) == processed_value(messages) + if to
                == MessageStatus::Processed {
                messages[i].value.value()
            } else {
                0
            }
        }),
    decreases messages.len(),
{
    let after = messages.update(i, MessageView { status: to, ..messages[i] });
    if i < messages.len() - 1 {
        lemma_processing_adds_value(messages.drop_last(), i, to);
        assert(after.drop_last() =~= messages.drop_last().update(
            i,
            MessageView { status: to, ..messages[i] },
        ));
    } else {
        assert(after.drop_last() =~= messages.drop_last());
    }
}

/// The state in which nothing has happened is backed.
pub proof fn law_fresh_state_is_backed(token: EVMAddress)
    ensures
        backed(StateView::empty(), token),
{
}

/// In a backed state no token is minted beyond its lock.
pub proof fn law_backed_is_not_desynced(s: StateView, token: EVMAddress)
    requires
        backed(s, token),
    ensures
        !s.desynced(),
{
    lemma_processed_within_total(s.queue.messages);
    assert forall|t: EVMAddress| !(#[trigger] s.overminted(t)) by {
        lemma_amount_bounded(s.minted_b, t);
        assert(t == token || amount(s.minted_b, t) == 0);
    }
}

/// Deposits of the token keep the state backed, whatever the meta forces:
/// what is enqueued is also locked.
pub proof fn law_deposit_keeps_backed(
    e: ExecutorView,
    token: EVMAddress,
    captured: Seq<MessageView>,
    sig_count: u32,
    meta: CrossChainMutationMeta,
)
    requires
        backed(e.state, token),
        e.state.queue.next_id + captured.len() <= u64::MAX,
    ensures
        backed(e.deposited(token, captured, sig_count, meta).state, token),
{
    let start = ExecutorView { iteration: (e.iteration + 1) as u64, ..e };
    lemma_deposited_all_backed(start, captured, token, sig_count, meta);
}

proof fn lemma_deposited_all_backed(
    e: ExecutorView,
    captured: Seq<MessageView>,
    token: EVMAddress,
    sig_count: u32,
    meta: CrossChainMutationMeta,
)
    requires
        backed(e.state, token),
        e.state.queue.next_id + captured.len() <= u64::MAX,
    ensures
        backed(e.deposited_all(captured, token, sig_count, meta).0.state, token),
        e.deposited_all(captured, token, sig_count, meta).0.state.queue.next_id
            <= e.state.queue.next_id + captured.len(),
    decreases captured.len(),
{
    if captured.len() > 0 {
        lemma_deposited_all_backed(e, captured.drop_last(), token, sig_count, meta);
        let g = e.deposited_all(captured.drop_last(), token, sig_count, meta).0;
        let msg = forced(captured.last(), meta, None);
        law_credit(g.state.locked_a, token, msg.value);
        let p = g.state.queue.pushed(msg);
        assert(p.messages.drop_last() =~= g.state.queue.messages);
        msg.value.lemma_value();
    }
}

/// Relays of the token that do not inflate the value keep the state backed:
/// replays, zero roots and reverts do not mint what was not locked.
pub proof fn law_relay_keeps_backed(
    e: ExecutorView,
    token: EVMAddress,
    sig_count: u32,
    meta: CrossChainMutationMeta,
    replay: Option<u64>,
)
    requires
        backed(e.state, token),
        !meta.force_inflate_value,
    ensures
        backed(e.relayed(token, sig_count, meta, replay).0.state, token),
{
    if e.pending_ids().len() > 0 {
        lemma_picked_is_pending(e);
        let id = pick(e.pending_ids(), e.rng_state).0;
        let q = e.state.queue;
        let msg = e.relayed_message(id, meta, replay);
        law_credit(e.state.minted_b, token, msg.value);
        law_marking_keeps_numbered(q, id);
        lemma_processing_adds_value(q.messages, id as int, MessageStatus::Processed);
        lemma_processing_adds_value(q.messages, id as int, MessageStatus::Dropped);
    }
}

/// No false alarm: on a backed bridge a relay that does not inflate the value
/// does not set the desync flag.
pub proof fn law_no_false_desync(
    e: ExecutorView,
    token: EVMAddress,
    sig_count: u32,
    meta: CrossChainMutationMeta,
    replay: Option<u64>,
)
    requires
        backed(e.state, token),
        !meta.force_inflate_value,
    ensures
        e.relayed(token, sig_count, meta, replay).0.state.state_desync_detected
            == e.state.state_desync_detected,
{
    law_relay_keeps_backed(e, token, sig_count, meta, replay);
    law_backed_is_not_desynced(e.relayed(token, sig_count, meta, replay).0.state, token);
    if e.relayed(token, sig_count, meta, replay).1 {
        law_desync_flag_after_relay(e, token, sig_count, meta, replay);
    }
}

/// No missed alarm: an inflated value that chain B mints sets the desync flag,
/// unless the lock already holds the largest word.
pub proof fn law_inflation_is_detected(
    e: ExecutorView,
    token: EVMAddress,
    sig_count: u32,
    meta: CrossChainMutationMeta,
    replay: Option<u64>,
)
    requires
        meta.force_inflate_value,
        e.relayed(token, sig_count, meta, replay).1,
        !e.relayed_message(pick(e.pending_ids(), e.rng_state).0, meta, replay).is_fake,
        amount(e.state.locked_a, token) < EVMU256::max_nat(),
    ensures
        e.relayed(token, sig_count, meta, replay).0.state.state_desync_detected,
{
    law_desync_flag_after_relay(e, token, sig_count, meta, replay);
    let f = e.relayed(token, sig_count, meta, replay).0;
    lemma_of_value(EVMU256::max_nat());
    law_credit(e.state.minted_b, token, EVMU256::of(EVMU256::max_nat()));
    assert(f.state.overminted(token));
}

} // verus!
