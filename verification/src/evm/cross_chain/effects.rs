//! What a deposit and a relay do, told message by message: which message a relay
//! takes, what it is worth on chain B, which flags come up and why, and what
//! the path and the trace remember.

use vstd::prelude::*;

use crate::collections::ascending;
use crate::evm::cross_chain::executor::{
    bug_flags, forced, index_from, initial_rng, lemma_shuffle_permutes, named, pick, seen_in,
    shuffle, swapped, xorshift, CrossChainMutationMeta, ExecutorView,
};
use crate::evm::cross_chain::exploit_path::StepKind;
use crate::evm::cross_chain::laws::{
    law_counts_add_up, law_credit, law_numbered_find, lemma_deposited_all_frame, lemma_of_value,
    lemma_picked_is_pending,
};
use crate::evm::cross_chain::{
    amount, flag_byte, having_status, lemma_having_status_step, lemma_having_status_within,
    queue_stream, slots_stream, storage_stream, MessageStatus, MessageView, QueueView, StateView,
};
use crate::evm::middlewares::cross_chain_interceptor::{
    verdict, zero_root, BypassReason, MockVerificationConfig, VerificationResult,
};
use crate::evm::mutator::{after_draws, lemma_after_draws_adds};
use crate::evm::types::{le_bytes, EVMAddress, EVMU256};
use crate::text::decimal;

verus! {

// ------------------------------------------------------------------ the queue

/// A push appends the message as it is, under the next identifier.
pub proof fn law_push_appends(q: QueueView, msg: MessageView)
    requires
        q.next_id < u64::MAX,
    ensures
        ({
            let p = q.pushed(msg);
            &&& p.messages.len() == q.messages.len() + 1
            &&& p.messages.drop_last() == q.messages
            &&& p.messages.last() == (MessageView { id: q.next_id, ..msg })
            &&& p.next_id == q.next_id + 1
            &&& p.processed_nonces == q.processed_nonces
        }),
{
    assert(q.pushed(msg).messages.drop_last() =~= q.messages);
}

/// An identifier leads to the first message that has it, and to none where no
/// message has it.
pub proof fn law_identifier_finds_the_first(q: QueueView, id: u64, i: int)
    ensures
        0 <= i < q.messages.len() && q.messages[i].id == id && (forall|j: int|
            0 <= j < i ==> (#[trigger] q.messages[j]).id != id) ==> q.find(id) == Some(i),
        (forall|j: int| 0 <= j < q.messages.len() ==> (#[trigger] q.messages[j]).id != id)
            ==> q.find(id) is None,
{
    let ids = q.messages.map_values(|m: MessageView| m.id);
    ids.index_of_first_ensures(id);
    assert forall|j: int| 0 <= j < q.messages.len() implies ids[j]
        == (#[trigger] q.messages[j]).id by {}
    if 0 <= i < q.messages.len() && q.messages[i].id == id && (forall|j: int|
        0 <= j < i ==> (#[trigger] q.messages[j]).id != id) {
        assert(ids[i] == id);
        let f = q.find(id)->0;
        if f < i {
            assert(q.messages[f].id != id);
        }
    }
    if forall|j: int| 0 <= j < q.messages.len() ==> (#[trigger] q.messages[j]).id != id {
        if ids.contains(id) {
            let j = choose|j: int| 0 <= j < ids.len() && ids[j] == id;
            assert(q.messages[j].id != id);
        }
    }
}

/// Marking a message by its identifier changes its status and no other field,
/// and no other message. Processing also makes its nonce a processed one;
/// dropping leaves the nonces alone. An identifier that no message has changes
/// nothing.
pub proof fn law_marking_by_identifier(q: QueueView, id: u64, i: int)
    requires
        0 <= i < q.messages.len(),
    ensures
        ({
            let p = q.processed(id);
            let d = q.dropped(id);
            let found = q.find(id) == Some(i);
            &&& p.messages.len() == q.messages.len()
            &&& d.messages.len() == q.messages.len()
            &&& p.next_id == q.next_id
            &&& d.next_id == q.next_id
            &&& d.processed_nonces == q.processed_nonces
            &&& p.messages[i] == if found {
                MessageView { status: MessageStatus::Processed, ..q.messages[i] }
            } else {
                q.messages[i]
            }
            &&& d.messages[i] == if found {
                MessageView { status: MessageStatus::Dropped, ..q.messages[i] }
            } else {
                q.messages[i]
            }
            &&& found ==> p.processed_nonces == q.processed_nonces.insert(q.messages[i].nonce)
            &&& q.find(id) is None ==> p == q && d == q
        }),
{
    q.messages.map_values(|m: MessageView| m.id).index_of_first_ensures(id);
}

/// The messages of a status are those that have it, in the order of the queue.
pub proof fn law_status_lists_in_order(q: QueueView, status: MessageStatus)
    requires
        q.numbered(),
    ensures
        forall|i: int|
            0 <= i < q.messages.len() ==> (q.of_status(status).contains(#[trigger] q.messages[i])
                <==> q.messages[i].status == status),
        forall|a: int, b: int|
            0 <= a < b < q.of_status(status).len() ==> (#[trigger] q.of_status(status)[a]).id < (
            #[trigger] q.of_status(status)[b]).id,
        forall|a: int|
            0 <= a < q.of_status(status).len() ==> q.messages.contains(
                #[trigger] q.of_status(status)[a],
            ),
{
    lemma_status_lists_in_order(q.messages, status);
    assert forall|i: int| 0 <= i < q.messages.len() implies (q.of_status(status).contains(
        #[trigger] q.messages[i],
    ) <==> q.messages[i].status == status) by {
        if q.of_status(status).contains(q.messages[i]) {
            let a = choose|a: int|
                0 <= a < q.of_status(status).len() && q.of_status(status)[a] == q.messages[i];
            lemma_having_status_within(q.messages, status, a);
        }
    }
    assert forall|a: int| 0 <= a < q.of_status(status).len() implies q.messages.contains(
        #[trigger] q.of_status(status)[a],
    ) by {
        lemma_having_status_within(q.messages, status, a);
    }
}

proof fn lemma_status_lists_in_order(messages: Seq<MessageView>, status: MessageStatus)
    requires
        forall|i: int| 0 <= i < messages.len() ==> (#[trigger] messages[i]).id == i,
    ensures
        ({
            let s = having_status(messages, status);
            &&& forall|i: int|
                0 <= i < messages.len() && messages[i].status == status ==> s.contains(
                    #[trigger] messages[i],
                )
            &&& forall|a: int, b: int|
                0 <= a < b < s.len() ==> (#[trigger] s[a]).id < (#[trigger] s[b]).id
            &&& forall|a: int| 0 <= a < s.len() ==> (#[trigger] s[a]).id < messages.len()
        }),
    decreases messages.len(),
{
    lemma_having_status_step(messages, status);
    if messages.len() > 0 {
        let init = messages.drop_last();
        assert forall|i: int| 0 <= i < init.len() implies (#[trigger] init[i]).id == i by {
            assert(init[i] == messages[i]);
        }
        lemma_status_lists_in_order(init, status);
        let s = having_status(messages, status);
        let t = having_status(init, status);
        assert(messages.last() == messages[messages.len() - 1]);
        assert forall|i: int|
            0 <= i < messages.len() && messages[i].status == status implies s.contains(
            #[trigger] messages[i],
        ) by {
            if i < init.len() {
                assert(t.contains(init[i]));
                let a = choose|a: int| 0 <= a < t.len() && t[a] == init[i];
                assert(s[a] == messages[i]);
            } else {
                assert(s[s.len() - 1] == messages[i]);
            }
        }
        assert forall|a: int, b: int| 0 <= a < b < s.len() implies (#[trigger] s[a]).id < (
        #[trigger] s[b]).id by {
            assert(s[a] == t[a]);
            if b < t.len() {
                assert(s[b] == t[b]);
            }
        }
        assert forall|a: int| 0 <= a < s.len() implies (#[trigger] s[a]).id < messages.len() by {
            if a < t.len() {
                assert(s[a] == t[a]);
            }
        }
    }
}

// ------------------------------------------------------------- the state hash

/// A message feeds the hash with its identifier and with one byte for each
/// status, of which the one that it has is set. Messages do so one after another.
pub proof fn law_messages_in_the_hash(messages: Seq<MessageView>, i: int)
    requires
        0 <= i < messages.len(),
    ensures
        ({
            let h = queue_stream(messages);
            let m = messages[i];
            &&& h.len() == 4 * messages.len()
            &&& h[4 * i] == le_bytes(m.id as nat, 8)
            &&& h[4 * i + 1] == seq![up(m.status == MessageStatus::Pending) as u8]
            &&& h[4 * i + 2] == seq![up(m.status == MessageStatus::Processed) as u8]
            &&& h[4 * i + 3] == seq![up(m.status == MessageStatus::Dropped) as u8]
        }),
    decreases messages.len(),
{
    let init = messages.drop_last();
    lemma_queue_stream_len(init);
    if i < init.len() {
        law_messages_in_the_hash(init, i);
    } else {
        let m = messages[i];
        assert(seq![up(m.status == MessageStatus::Pending) as u8] =~= flag_byte(
            m.status == MessageStatus::Pending,
        ));
        assert(seq![up(m.status == MessageStatus::Processed) as u8] =~= flag_byte(
            m.status == MessageStatus::Processed,
        ));
        assert(seq![up(m.status == MessageStatus::Dropped) as u8] =~= flag_byte(
            m.status == MessageStatus::Dropped,
        ));
    }
}

proof fn lemma_queue_stream_len(messages: Seq<MessageView>)
    ensures
        queue_stream(messages).len() == 4 * messages.len(),
    decreases messages.len(),
{
    if messages.len() > 0 {
        lemma_queue_stream_len(messages.drop_last());
    }
}

/// A change of status always shows in what is hashed.
pub proof fn law_status_shows_in_the_hash(s: StateView, t: StateView, i: int)
    requires
        s.state_a == t.state_a,
        s.state_b == t.state_b,
        s.queue.messages.len() == t.queue.messages.len(),
        0 <= i < s.queue.messages.len(),
        s.queue.messages[i].status != t.queue.messages[i].status,
    ensures
        s.hash_stream() != t.hash_stream(),
{
    law_messages_in_the_hash(s.queue.messages, i);
    law_messages_in_the_hash(t.queue.messages, i);
    let front = (storage_stream(ascending(s.state_a)) + storage_stream(
        ascending(s.state_b),
    )).len() as int;
    let a = queue_stream(s.queue.messages);
    let b = queue_stream(t.queue.messages);
    let k: int = if s.queue.messages[i].status == MessageStatus::Pending {
        1
    } else if s.queue.messages[i].status == MessageStatus::Processed {
        2
    } else {
        3
    };
    assert(a[4 * i + k][0] == 1);
    assert(b[4 * i + k][0] == 0);
    assert(s.hash_stream()[front + 4 * i + k] == a[4 * i + k]);
    assert(t.hash_stream()[front + 4 * i + k] == b[4 * i + k]);
}

/// A slot feeds the hash with its number and its value, each behind the number
/// of its limbs. Slots do so one after another.
pub proof fn law_slots_in_the_hash(slots: Seq<(EVMU256, EVMU256)>, i: int)
    requires
        0 <= i < slots.len(),
    ensures
        ({
            let h = slots_stream(slots);
            &&& h.len() == 4 * slots.len()
            &&& h[4 * i] == le_bytes(4, 8)
            &&& h[4 * i + 1] == slots[i].0.limb_bytes()
            &&& h[4 * i + 2] == le_bytes(4, 8)
            &&& h[4 * i + 3] == slots[i].1.limb_bytes()
        }),
    decreases slots.len(),
{
    let init = slots.drop_last();
    lemma_slots_stream_len(init);
    if i < init.len() {
        law_slots_in_the_hash(init, i);
    }
}

proof fn lemma_slots_stream_len(slots: Seq<(EVMU256, EVMU256)>)
    ensures
        slots_stream(slots).len() == 4 * slots.len(),
    decreases slots.len(),
{
    if slots.len() > 0 {
        lemma_slots_stream_len(slots.drop_last());
    }
}

/// An account feeds the hash with its address and then with its slots in
/// ascending order. Accounts do so one after another: what some and then others
/// feed is what all of them feed.
pub proof fn law_accounts_in_the_hash(
    account: EVMAddress,
    slots: Map<EVMU256, EVMU256>,
    some: Seq<(EVMAddress, Map<EVMU256, EVMU256>)>,
    others: Seq<(EVMAddress, Map<EVMU256, EVMU256>)>,
)
    ensures
        storage_stream(Seq::<(EVMAddress, Map<EVMU256, EVMU256>)>::empty()).len() == 0,
        storage_stream(seq![(account, slots)]) == seq![account.bytes()] + slots_stream(
            ascending(slots),
        ),
        storage_stream(some + others) == storage_stream(some) + storage_stream(others),
    decreases others.len(),
{
    reveal_with_fuel(storage_stream, 2);
    let one = seq![(account, slots)];
    assert(one.drop_last() =~= Seq::<(EVMAddress, Map<EVMU256, EVMU256>)>::empty());
    assert(storage_stream(one) =~= seq![account.bytes()] + slots_stream(ascending(slots)));
    if others.len() == 0 {
        assert(some + others =~= some);
        assert(storage_stream(some) + storage_stream(others) =~= storage_stream(some));
    } else {
        let init = others.drop_last();
        law_accounts_in_the_hash(account, slots, some, init);
        assert((some + others).drop_last() =~= some + init);
        assert((some + others).last() == others.last());
        assert(storage_stream(some + others) =~= storage_stream(some) + storage_stream(others));
    }
}

/// The state feeds the hash with chain A, then with chain B, then with the
/// queue.
pub proof fn law_parts_of_the_hash(s: StateView)
    ensures
        ({
            let a = storage_stream(ascending(s.state_a));
            let b = storage_stream(ascending(s.state_b));
            let q = queue_stream(s.queue.messages);
            let h = s.hash_stream();
            &&& h.len() == a.len() + b.len() + q.len()
            &&& h.take(a.len() as int) == a
            &&& h.subrange(a.len() as int, (a.len() + b.len()) as int) == b
            &&& h.skip((a.len() + b.len()) as int) == q
        }),
{
    let a = storage_stream(ascending(s.state_a));
    let b = storage_stream(ascending(s.state_b));
    let q = queue_stream(s.queue.messages);
    let h = s.hash_stream();
    assert(h.take(a.len() as int) =~= a);
    assert(h.subrange(a.len() as int, (a.len() + b.len()) as int) =~= b);
    assert(h.skip((a.len() + b.len()) as int) =~= q);
}

// ------------------------------------------------------------- the selection

/// The first message of a status is the one that no other of that status
/// precedes.
proof fn lemma_first_of_status(messages: Seq<MessageView>, status: MessageStatus, i: int)
    requires
        0 <= i < messages.len(),
        messages[i].status == status,
        forall|j: int| 0 <= j < i ==> (#[trigger] messages[j]).status != status,
    ensures
        having_status(messages, status).len() > 0,
        having_status(messages, status)[0] == messages[i],
    decreases messages.len(),
{
    lemma_having_status_step(messages, status);
    let shorter = messages.drop_last();
    if i < shorter.len() {
        assert(shorter[i] == messages[i]);
        assert forall|j: int| 0 <= j < i implies (#[trigger] shorter[j]).status != status by {
            assert(shorter[j] == messages[j]);
        }
        lemma_first_of_status(shorter, status, i);
    } else {
        assert forall|j: int| 0 <= j < shorter.len() implies (#[trigger] shorter[j]).status
            != status by {
            assert(shorter[j] == messages[j]);
        }
        lemma_none_of_status(shorter, status);
    }
}

proof fn lemma_none_of_status(messages: Seq<MessageView>, status: MessageStatus)
    requires
        forall|j: int| 0 <= j < messages.len() ==> (#[trigger] messages[j]).status != status,
    ensures
        having_status(messages, status).len() == 0,
    decreases messages.len(),
{
    lemma_having_status_step(messages, status);
    if messages.len() > 0 {
        let shorter = messages.drop_last();
        assert(messages[messages.len() - 1].status != status);
        assert forall|j: int| 0 <= j < shorter.len() implies (#[trigger] shorter[j]).status
            != status by {
            assert(shorter[j] == messages[j]);
        }
        lemma_none_of_status(shorter, status);
    }
}

/// Whether `q` became `p` by settling the message at position `i` and no other:
/// it is not pending any more, and is otherwise what it was.
pub open spec fn settled_at(q: QueueView, p: QueueView, i: int) -> bool {
    &&& p.messages.len() == q.messages.len()
    &&& q.messages[i].status == MessageStatus::Pending
    &&& p.messages[i].status != MessageStatus::Pending
    &&& p.messages[i] == (MessageView { status: p.messages[i].status, ..q.messages[i] })
    &&& forall|j: int|
        0 <= j < q.messages.len() && j != i ==> #[trigger] p.messages[j] == q.messages[j]
}

/// First in, first out: where the drawn ordering says so, a relay settles the
/// pending message that none precedes.
pub proof fn law_fifo_takes_the_oldest(
    e: ExecutorView,
    token: EVMAddress,
    sig_count: u32,
    meta: CrossChainMutationMeta,
    replay: Option<u64>,
    i: int,
)
    requires
        e.state.queue.numbered(),
        xorshift(e.rng_state) % 3 == 0,
        0 <= i < e.state.queue.messages.len(),
        e.state.queue.messages[i].status == MessageStatus::Pending,
        forall|j: int|
            0 <= j < i ==> (#[trigger] e.state.queue.messages[j]).status
                != MessageStatus::Pending,
    ensures
        settled_at(
            e.state.queue,
            e.relayed(token, sig_count, meta, replay).0.state.queue,
            i,
        ),
{
    lemma_first_of_status(e.state.queue.messages, MessageStatus::Pending, i);
    assert(e.pending_ids()[0] == i);
    lemma_relay_settles_pick(e, token, sig_count, meta, replay);
}

/// A relay settles the message that was picked, and no other.
proof fn lemma_relay_settles_pick(
    e: ExecutorView,
    token: EVMAddress,
    sig_count: u32,
    meta: CrossChainMutationMeta,
    replay: Option<u64>,
)
    requires
        e.state.queue.numbered(),
        e.pending_ids().len() > 0,
    ensures
        ({
            let (f, executed) = e.relayed(token, sig_count, meta, replay);
            let i = pick(e.pending_ids(), e.rng_state).0 as int;
            &&& settled_at(e.state.queue, f.state.queue, i)
            &&& f.state.queue.messages[i].status == if executed {
                MessageStatus::Processed
            } else {
                MessageStatus::Dropped
            }
        }),
{
    lemma_picked_is_pending(e);
    law_numbered_find(e.state.queue, pick(e.pending_ids(), e.rng_state).0);
}

/// A random pick: where the drawn ordering says so, a relay settles the pending
/// message whose rank among the pending ones is the next draw, modulo their
/// number.
pub proof fn law_random_takes_the_drawn(
    e: ExecutorView,
    token: EVMAddress,
    sig_count: u32,
    meta: CrossChainMutationMeta,
    replay: Option<u64>,
    k: int,
)
    requires
        e.state.queue.numbered(),
        xorshift(e.rng_state) % 3 == 1,
        xorshift(xorshift(e.rng_state)) <= usize::MAX,
        0 <= k < e.state.queue.of_status(MessageStatus::Pending).len(),
        (xorshift(xorshift(e.rng_state)) - k) % (e.state.queue.of_status(
            MessageStatus::Pending,
        ).len() as int) == 0,
    ensures
        settled_at(
            e.state.queue,
            e.relayed(token, sig_count, meta, replay).0.state.queue,
            e.state.queue.of_status(MessageStatus::Pending)[k].id as int,
        ),
{
    let n = e.pending_ids().len() as int;
    let draw = xorshift(xorshift(e.rng_state));
    law_index_is_the_remainder(draw, n);
    let r = index_from(draw, n);
    assert(r == k) by {
        vstd::arithmetic::div_mod::lemma_fundamental_div_mod(draw - k, n);
        vstd::arithmetic::div_mod::lemma_fundamental_div_mod(draw as int, n);
        let a = (draw - k) / n;
        let b = draw as int / n;
        assert(n * a + k == n * b + r);
        assert(a == b) by (nonlinear_arith)
            requires
                n * a + k == n * b + r,
                0 <= k < n,
                0 <= r < n,
        ;
    }
    lemma_relay_settles_pick(e, token, sig_count, meta, replay);
}

/// Reducing a draw to a position below `n` gives the position that is congruent
/// to it modulo `n`.
pub proof fn law_index_is_the_remainder(draw: u64, n: int)
    requires
        n > 0,
        draw <= usize::MAX,
    ensures
        0 <= index_from(draw, n) < n,
        (draw - index_from(draw, n)) % n == 0,
        index_from(draw, n) == draw as int % n,
{
    let d = draw as int;
    vstd::arithmetic::div_mod::lemma_fundamental_div_mod(d, n);
    vstd::arithmetic::div_mod::lemma_mod_multiples_basic(d / n, n);
    assert(n * (d / n) == (d / n) * n) by (nonlinear_arith);
}

/// A shuffle fills its last position with the element that the first draw
/// points at, never touches that position or a later one again, and takes one
/// draw for each position but the first.
pub proof fn law_shuffle_fills_from_the_back(ids: Seq<u64>, i: int, rng: u64)
    requires
        0 < i < ids.len(),
    ensures
        shuffle(ids, i, rng).0[i] == ids[index_from(xorshift(rng), i + 1)],
        forall|k: int| i < k < ids.len() ==> #[trigger] shuffle(ids, i, rng).0[k] == ids[k],
        shuffle(ids, i, rng).1 == after_draws(rng, i as nat),
{
    let draw = xorshift(rng);
    let j = index_from(draw, i + 1);
    lemma_shuffle_draws(ids, i, rng);
    lemma_shuffle_keeps_tail(swapped(ids, i, j), i - 1, draw);
}

proof fn lemma_shuffle_draws(ids: Seq<u64>, i: int, rng: u64)
    requires
        i >= 0,
    ensures
        shuffle(ids, i, rng).1 == after_draws(rng, i as nat),
    decreases i,
{
    if i > 0 {
        let draw = xorshift(rng);
        lemma_shuffle_draws(swapped(ids, i, index_from(draw, i + 1)), i - 1, draw);
        lemma_after_draws_adds(rng, 1, (i - 1) as nat);
        reveal_with_fuel(after_draws, 2);
    }
}

proof fn lemma_shuffle_keeps_tail(ids: Seq<u64>, i: int, rng: u64)
    requires
        i < ids.len(),
    ensures
        shuffle(ids, i, rng).0.len() == ids.len(),
        forall|k: int|
            i < k < ids.len() && 0 <= k ==> #[trigger] shuffle(ids, i, rng).0[k] == ids[k],
    decreases i,
{
    if i > 0 {
        let draw = xorshift(rng);
        let j = index_from(draw, i + 1);
        lemma_shuffle_keeps_tail(swapped(ids, i, j), i - 1, draw);
    }
}

/// A shuffle begins with an exchange of its last element and the drawn one, and
/// goes on as a shuffle of the elements before the last.
pub proof fn law_shuffle_begins_with_an_exchange(
    ids: Seq<u64>,
    exchanged: Seq<u64>,
    i: int,
    rng: u64,
)
    requires
        0 < i < ids.len(),
        xorshift(rng) <= usize::MAX,
        exchanged.len() == ids.len(),
        exchanged[i] == ids[xorshift(rng) as int % (i + 1)],
        exchanged[xorshift(rng) as int % (i + 1)] == ids[i],
        forall|k: int|
            0 <= k < ids.len() && k != i && k != xorshift(rng) as int % (i + 1)
                ==> #[trigger] exchanged[k] == ids[k],
    ensures
        shuffle(ids, i, rng) == shuffle(exchanged, i - 1, xorshift(rng)),
{
    law_index_is_the_remainder(xorshift(rng), i + 1);
    assert(exchanged =~= swapped(ids, i, index_from(xorshift(rng), i + 1)));
}

/// A pick costs one draw for the ordering, one more where it is random, and one
/// for each message but one where the messages are shuffled.
pub proof fn law_pick_draws(ids: Seq<u64>, rng: u64)
    requires
        ids.len() > 0,
    ensures
        ({
            let draw = xorshift(rng);
            &&& draw % 3 == 0 ==> pick(ids, rng).1 == draw
            &&& draw % 3 == 1 ==> pick(ids, rng).1 == xorshift(draw)
            &&& draw % 3 == 2 ==> pick(ids, rng).1 == after_draws(draw, (ids.len() - 1) as nat)
        }),
{
    lemma_shuffle_draws(ids, ids.len() - 1, xorshift(rng));
}

/// Shuffling two messages is a fair exchange: the draw decides by its parity
/// which of the two comes first.
pub proof fn law_shuffle_of_two(first: u64, second: u64, rng: u64)
    requires
        xorshift(rng) <= usize::MAX,
    ensures
        shuffle(seq![first, second], 1, rng).0 == if xorshift(rng) % 2 == 0 {
            seq![second, first]
        } else {
            seq![first, second]
        },
        shuffle(seq![first, second], 1, rng).1 == xorshift(rng),
{
    reveal_with_fuel(shuffle, 2);
    let ids = seq![first, second];
    let draw = xorshift(rng);
    law_index_is_the_remainder(draw, 2);
    assert(shuffle(ids, 1, rng) == shuffle(swapped(ids, 1, index_from(draw, 2)), 0, draw));
    assert(shuffle(ids, 1, rng).0 =~= if draw % 2 == 0 {
        seq![second, first]
    } else {
        seq![first, second]
    });
}

/// Where the drawn ordering is to shuffle, a relay settles the message that the
/// shuffle of the pending ones puts first.
pub proof fn law_shuffled_takes_the_first(
    e: ExecutorView,
    token: EVMAddress,
    sig_count: u32,
    meta: CrossChainMutationMeta,
    replay: Option<u64>,
)
    requires
        e.state.queue.numbered(),
        xorshift(e.rng_state) % 3 == 2,
        e.pending_ids().len() > 0,
    ensures
        ({
            let ids = e.pending_ids();
            let order = shuffle(ids, ids.len() - 1, xorshift(e.rng_state)).0;
            &&& order.to_multiset() == ids.to_multiset()
            &&& settled_at(
                e.state.queue,
                e.relayed(token, sig_count, meta, replay).0.state.queue,
                order[0] as int,
            )
        }),
{
    let ids = e.pending_ids();
    lemma_shuffle_permutes(ids, ids.len() - 1, xorshift(e.rng_state));
    lemma_relay_settles_pick(e, token, sig_count, meta, replay);
}

// -------------------------------------------------------------- the judgement

/// Whether a root is the one that the Nomad bypass lets through.
pub open spec fn all_zero(root: Seq<u8>) -> bool {
    root.len() == 32 && forall|i: int| 0 <= i < 32 ==> #[trigger] root[i] == 0
}

/// The verdict, read off the facts: an all-zero root passes where the bypass is
/// simulated; of the rest, too few signatures pass where they are let through
/// and are rejected otherwise; with enough signatures a processed nonce is a
/// replay, and any other nonce is valid.
pub proof fn law_verdict_by_facts(
    config: MockVerificationConfig,
    msg: MessageView,
    processed_nonces: Set<u64>,
    sig_count: u32,
)
    ensures
        ({
            let v = verdict(config, msg, processed_nonces, sig_count);
            let bypass = config.simulate_nomad_bypass && all_zero(msg.merkle_root);
            let enough = sig_count >= config.signature_threshold;
            let known = processed_nonces.contains(msg.nonce);
            &&& v == VerificationResult::BypassAccepted(BypassReason::ZeroMerkleRoot) <==> bypass
            &&& v == VerificationResult::BypassAccepted(BypassReason::InsufficientSignatures)
                <==> !bypass && !enough && config.allow_insufficient_sigs
            &&& v == VerificationResult::Rejected <==> !bypass && !enough
                && !config.allow_insufficient_sigs
            &&& v == VerificationResult::BypassAccepted(BypassReason::ReplayedNonce) <==> !bypass
                && enough && known
            &&& v == VerificationResult::Valid <==> !bypass && enough && !known
        }),
{
    lemma_zero_root(msg.merkle_root);
}

proof fn lemma_zero_root(root: Seq<u8>)
    ensures
        root == zero_root() <==> all_zero(root),
{
    if all_zero(root) {
        assert(root =~= zero_root());
    }
}

/// What the meta forces on a message: a zero root, a processed nonce where there
/// is one, the largest value; each where it is asked for, and nothing else.
pub proof fn law_force_changes_what_is_asked(
    msg: MessageView,
    meta: CrossChainMutationMeta,
    replay: Option<u64>,
)
    ensures
        ({
            let m = forced(msg, meta, replay);
            &&& meta.force_zero_merkle_root ==> all_zero(m.merkle_root)
            &&& !meta.force_zero_merkle_root ==> m.merkle_root == msg.merkle_root
            &&& meta.force_replay_nonce && replay is Some ==> Some(m.nonce) == replay
            &&& !meta.force_replay_nonce || replay is None ==> m.nonce == msg.nonce
            &&& meta.force_inflate_value ==> m.value.value() == EVMU256::max_nat()
            &&& !meta.force_inflate_value ==> m.value == msg.value
            &&& m.id == msg.id
            &&& m.sender == msg.sender
            &&& m.recipient == msg.recipient
            &&& m.payload == msg.payload
            &&& m.status == msg.status
            &&& m.is_fake == msg.is_fake
        }),
{
    lemma_zero_root(forced(msg, meta, replay).merkle_root);
    lemma_of_value(EVMU256::max_nat());
}

// ------------------------------------------------------------------ the relay

/// What chain B makes of a message that a relay took: a rejected one is dropped
/// and does nothing more; an executed one is processed, its own nonce counts as
/// processed from now on, and its value, or the largest one where the meta
/// inflates it, is minted unless chain B reverts. Chain B reverts on fakes only,
/// in seven of ten draws, and a revert mints nothing and breaks atomicity.
pub proof fn law_relay_on_chain_b(
    e: ExecutorView,
    token: EVMAddress,
    sig_count: u32,
    meta: CrossChainMutationMeta,
    replay: Option<u64>,
)
    requires
        e.state.queue.numbered(),
        e.pending_ids().len() > 0,
    ensures
        ({
            let (f, executed) = e.relayed(token, sig_count, meta, replay);
            let (id, rng) = pick(e.pending_ids(), e.rng_state);
            let m = e.state.queue.messages[id as int];
            let worth = if meta.force_inflate_value {
                EVMU256::max_nat()
            } else {
                m.value.value()
            };
            let due = amount(e.state.minted_b, token) + worth;
            let reverts = m.is_fake && xorshift(xorshift(rng)) % 10 <= 6;
            &&& settled_at(e.state.queue, f.state.queue, id as int)
            &&& f.state.queue.next_id == e.state.queue.next_id
            &&& executed ==> {
                &&& f.state.queue.messages[id as int].status == MessageStatus::Processed
                &&& f.state.queue.processed_nonces == e.state.queue.processed_nonces.insert(m.nonce)
                &&& f.rng_state == if m.is_fake {
                    xorshift(xorshift(rng))
                } else {
                    xorshift(rng)
                }
                &&& f.state.atomicity_violated <==> e.state.atomicity_violated || reverts
                &&& f.state.fake_message_accepted <==> e.state.fake_message_accepted || (m.is_fake
                    && !reverts)
                &&& reverts ==> f.state.minted_b == e.state.minted_b
                &&& !reverts ==> amount(f.state.minted_b, token) == if due <= EVMU256::max_nat() {
                    due
                } else {
                    EVMU256::max_nat()
                }
            }
            &&& !executed ==> {
                &&& f.state.queue.messages[id as int].status == MessageStatus::Dropped
                &&& f.state.queue.processed_nonces == e.state.queue.processed_nonces
                &&& f.rng_state == xorshift(rng)
                &&& f.state.atomicity_violated == e.state.atomicity_violated
                &&& f.state.fake_message_accepted == e.state.fake_message_accepted
                &&& f.state.state_desync_detected == e.state.state_desync_detected
                &&& f.state.minted_b == e.state.minted_b
                &&& f.exploit_path == e.exploit_path
            }
        }),
{
    let id = pick(e.pending_ids(), e.rng_state).0;
    lemma_relay_settles_pick(e, token, sig_count, meta, replay);
    lemma_picked_is_pending(e);
    law_numbered_find(e.state.queue, id);
    let msg = e.relayed_message(id, meta, replay);
    lemma_of_value(EVMU256::max_nat());
    law_credit(e.state.minted_b, token, msg.value);
}

/// When a relay executes the message that it took, and when it calls a replay:
/// it refuses only what has too few signatures, and only where those are not let
/// through and no zero root bypasses the check; it calls a replay where the
/// signatures suffice, no zero root bypasses the check and the nonce, its own or
/// the forced one, was processed before.
pub proof fn law_relay_judges_by_facts(
    e: ExecutorView,
    token: EVMAddress,
    sig_count: u32,
    meta: CrossChainMutationMeta,
    replay: Option<u64>,
)
    requires
        e.state.queue.numbered(),
        e.pending_ids().len() > 0,
    ensures
        ({
            let (f, executed) = e.relayed(token, sig_count, meta, replay);
            let m = e.state.queue.messages[pick(e.pending_ids(), e.rng_state).0 as int];
            let nonce = if meta.force_replay_nonce && replay is Some {
                replay->0
            } else {
                m.nonce
            };
            let bypass = e.verify_config.simulate_nomad_bypass && (meta.force_zero_merkle_root
                || all_zero(m.merkle_root));
            let enough = sig_count >= e.verify_config.signature_threshold;
            &&& executed <==> bypass || enough || e.verify_config.allow_insufficient_sigs
            &&& f.state.replay_detected <==> e.state.replay_detected || (!bypass && enough
                && e.state.queue.processed_nonces.contains(nonce))
        }),
{
    let id = pick(e.pending_ids(), e.rng_state).0;
    lemma_picked_is_pending(e);
    law_numbered_find(e.state.queue, id);
    let m = e.state.queue.messages[id as int];
    let msg = e.relayed_message(id, meta, replay);
    law_verdict_by_facts(e.verify_config, msg, e.state.queue.processed_nonces, sig_count);
    law_force_changes_what_is_asked(m, meta, replay);
}

/// No false replay alarm: a relay that works on a nonce that was not processed
/// before leaves the replay flag as it was.
pub proof fn law_relay_raises_no_false_replay(
    e: ExecutorView,
    token: EVMAddress,
    sig_count: u32,
    meta: CrossChainMutationMeta,
    replay: Option<u64>,
)
    requires
        e.state.queue.numbered(),
        e.pending_ids().len() > 0,
        ({
            let m = e.state.queue.messages[pick(e.pending_ids(), e.rng_state).0 as int];
            !e.state.queue.processed_nonces.contains(
                if meta.force_replay_nonce && replay is Some {
                    replay->0
                } else {
                    m.nonce
                },
            )
        }),
    ensures
        e.relayed(token, sig_count, meta, replay).0.state.replay_detected
            == e.state.replay_detected,
{
    law_relay_judges_by_facts(e, token, sig_count, meta, replay);
}

/// The path remembers an executed relay as it was done: the message with what
/// was forced on it, the token, the number of signatures and the meta.
pub proof fn law_relay_is_remembered(
    e: ExecutorView,
    token: EVMAddress,
    sig_count: u32,
    meta: CrossChainMutationMeta,
    replay: Option<u64>,
)
    requires
        e.state.queue.numbered(),
        e.relayed(token, sig_count, meta, replay).1,
    ensures
        ({
            let f = e.relayed(token, sig_count, meta, replay).0;
            let m = e.state.queue.messages[pick(e.pending_ids(), e.rng_state).0 as int];
            let step = f.exploit_path.last();
            &&& f.exploit_path.len() == e.exploit_path.len() + 1
            &&& f.exploit_path.drop_last() == e.exploit_path
            &&& step.kind == StepKind::Relay
            &&& step.token == token
            &&& step.sig_count == sig_count
            &&& step.meta == meta
            &&& step.message == forced(m, meta, replay)
            &&& step.message.value.value() == if meta.force_inflate_value {
                EVMU256::max_nat()
            } else {
                m.value.value()
            }
        }),
{
    lemma_picked_is_pending(e);
    let f = e.relayed(token, sig_count, meta, replay).0;
    let m = e.state.queue.messages[pick(e.pending_ids(), e.rng_state).0 as int];
    law_force_changes_what_is_asked(m, meta, replay);
    assert(f.exploit_path.drop_last() =~= e.exploit_path);
}

/// The trace has one record for each relay where a log is kept: what was
/// selected, the ordering that the draw after the selection stands for, how it
/// went, and the flags that are up after it. Without a log there is none.
pub proof fn law_relay_is_traced(
    e: ExecutorView,
    token: EVMAddress,
    sig_count: u32,
    meta: CrossChainMutationMeta,
    replay: Option<u64>,
)
    requires
        e.state.queue.numbered(),
        e.iteration < u64::MAX,
    ensures
        ({
            let (f, executed) = e.relayed(token, sig_count, meta, replay);
            let (id, rng) = pick(e.pending_ids(), e.rng_state);
            let idle = e.pending_ids().len() == 0;
            let t = f.trace.last();
            let m = e.state.queue.messages[id as int];
            let draw = xorshift(rng);
            &&& f.iteration == e.iteration + 1
            &&& e.trace_log_path is None ==> f.trace == e.trace
            &&& e.trace_log_path is Some ==> {
                &&& f.trace.len() == e.trace.len() + 1
                &&& f.trace.drop_last() == e.trace
                &&& t.run_id == e.run_id
                &&& t.iteration == e.iteration + 1
                &&& t.input_type == "Relay"@
                &&& t.bugs_triggered == bug_flags(f.state)
                &&& idle ==> t.message_id_selected is None && t.ordering_mode == "N/A"@
                    && t.verification_result == "NoPending"@
                &&& !idle ==> t.message_id_selected == Some(id)
                &&& !idle && draw % 3 == 0 ==> t.ordering_mode == "Fifo"@
                &&& !idle && draw % 3 == 1 ==> t.ordering_mode == "Random"@
                &&& !idle && draw % 3 == 2 ==> t.ordering_mode == "Shuffled"@
                &&& !idle && !executed ==> t.verification_result == "Rejected"@
                &&& executed ==> t.verification_result == if m.is_fake && xorshift(draw) % 10 <= 6 {
                    "Revert"@
                } else {
                    "Success"@
                }
            }
        }),
{
    let f = e.relayed(token, sig_count, meta, replay).0;
    if e.pending_ids().len() > 0 {
        lemma_picked_is_pending(e);
        let (id, rng) = pick(e.pending_ids(), e.rng_state);
        assert(xorshift(rng) % 3 < 3);
    }
    if e.trace_log_path is Some {
        assert(f.trace.drop_last() =~= e.trace);
    }
}

// ---------------------------------------------------------------- the deposit

/// What chain A makes of one captured message: it is refused only where it has
/// too few signatures, those are not let through and no zero root bypasses the
/// check. A refused message leaves no mark but a possible replay alarm. An
/// accepted one is enqueued last, under the next identifier, its value, or the
/// largest one where the meta inflates it, is locked, and the path remembers it.
/// A deposit keeps the nonce of a message, whatever the meta asks.
pub proof fn law_deposit_on_chain_a(
    e: ExecutorView,
    token: EVMAddress,
    msg: MessageView,
    sig_count: u32,
    meta: CrossChainMutationMeta,
)
    requires
        e.state.queue.next_id < u64::MAX,
    ensures
        ({
            let f = e.deposited(token, seq![msg], sig_count, meta);
            let bypass = e.verify_config.simulate_nomad_bypass && (meta.force_zero_merkle_root
                || all_zero(msg.merkle_root));
            let enough = sig_count >= e.verify_config.signature_threshold;
            let accepted = bypass || enough || e.verify_config.allow_insufficient_sigs;
            let q = e.state.queue;
            let p = f.state.queue;
            let m = p.messages.last();
            let step = f.exploit_path.last();
            let worth = if meta.force_inflate_value {
                EVMU256::max_nat()
            } else {
                msg.value.value()
            };
            let due = amount(e.state.locked_a, token) + worth;
            &&& f.state.replay_detected <==> e.state.replay_detected || (!bypass && enough
                && q.processed_nonces.contains(msg.nonce))
            &&& p.processed_nonces == q.processed_nonces
            &&& f.state.minted_b == e.state.minted_b
            &&& f.rng_state == e.rng_state
            &&& !accepted ==> p == q && f.state.locked_a == e.state.locked_a && f.exploit_path
                == e.exploit_path
            &&& accepted ==> {
                &&& p.messages.len() == q.messages.len() + 1
                &&& p.messages.drop_last() == q.messages
                &&& p.next_id == q.next_id + 1
                &&& m.id == q.next_id
                &&& m.nonce == msg.nonce
                &&& m.sender == msg.sender
                &&& m.recipient == msg.recipient
                &&& m.payload == msg.payload
                &&& m.value.value() == worth
                &&& m.status == msg.status
                &&& m.is_fake == msg.is_fake
                &&& if meta.force_zero_merkle_root {
                    all_zero(m.merkle_root)
                } else {
                    m.merkle_root == msg.merkle_root
                }
                &&& amount(f.state.locked_a, token) == if due <= EVMU256::max_nat() {
                    due
                } else {
                    EVMU256::max_nat()
                }
                &&& f.exploit_path.len() == e.exploit_path.len() + 1
                &&& f.exploit_path.drop_last() == e.exploit_path
                &&& step.kind == StepKind::Deposit
                &&& step.token == token
                &&& step.sig_count == sig_count
                &&& step.meta == meta
                &&& step.message == (MessageView { id: msg.id, ..m })
            }
        }),
{
    let start = ExecutorView { iteration: (e.iteration + 1) as u64, ..e };
    let f = e.deposited(token, seq![msg], sig_count, meta);
    assert(seq![msg].drop_last() =~= Seq::<MessageView>::empty());
    assert(seq![msg].last() == msg);
    assert(start.deposited_all(seq![msg].drop_last(), token, sig_count, meta) == (
        start,
        Seq::<u64>::empty(),
    ));
    let one = start.deposited_one(Seq::empty(), msg, token, sig_count, meta);
    assert(start.deposited_all(seq![msg], token, sig_count, meta) == one);
    let m = forced(msg, meta, None);
    law_verdict_by_facts(e.verify_config, m, e.state.queue.processed_nonces, sig_count);
    law_force_changes_what_is_asked(msg, meta, None);
    law_credit(e.state.locked_a, token, m.value);
    if !(start.verdict_on(m, sig_count) is Rejected) {
        assert(f.state.queue.messages.drop_last() =~= e.state.queue.messages);
        assert(f.exploit_path.drop_last() =~= e.exploit_path);
    }
}

/// Messages are taken one after another: depositing some messages and then
/// others leaves the same state and the same path as depositing all of them at
/// once.
pub proof fn law_deposits_follow_one_another(
    e: ExecutorView,
    token: EVMAddress,
    some: Seq<MessageView>,
    others: Seq<MessageView>,
    sig_count: u32,
    meta: CrossChainMutationMeta,
)
    ensures
        ({
            let once = e.deposited(token, some + others, sig_count, meta);
            let twice = e.deposited(token, some, sig_count, meta).deposited(
                token,
                others,
                sig_count,
                meta,
            );
            &&& once.state == twice.state
            &&& once.exploit_path == twice.exploit_path
            &&& once.rng_state == twice.rng_state
        }),
{
    let start = ExecutorView { iteration: (e.iteration + 1) as u64, ..e };
    let mid = start.deposited_all(some, token, sig_count, meta).0;
    let first = e.deposited(token, some, sig_count, meta);
    let again = ExecutorView { iteration: (first.iteration + 1) as u64, ..first };
    lemma_deposited_all_adds(start, token, some, others, sig_count, meta);
    lemma_deposited_all_agrees(mid, again, token, others, sig_count, meta);
}

proof fn lemma_deposited_all_adds(
    e: ExecutorView,
    token: EVMAddress,
    some: Seq<MessageView>,
    others: Seq<MessageView>,
    sig_count: u32,
    meta: CrossChainMutationMeta,
)
    ensures
        e.deposited_all(some + others, token, sig_count, meta).0 == e.deposited_all(
            some,
            token,
            sig_count,
            meta,
        ).0.deposited_all(others, token, sig_count, meta).0,
    decreases others.len(),
{
    if others.len() == 0 {
        assert(some + others =~= some);
    } else {
        lemma_deposited_all_adds(e, token, some, others.drop_last(), sig_count, meta);
        assert((some + others).drop_last() =~= some + others.drop_last());
        assert((some + others).last() == others.last());
    }
}

proof fn lemma_deposited_all_agrees(
    e: ExecutorView,
    g: ExecutorView,
    token: EVMAddress,
    captured: Seq<MessageView>,
    sig_count: u32,
    meta: CrossChainMutationMeta,
)
    requires
        g.state == e.state,
        g.exploit_path == e.exploit_path,
        g.rng_state == e.rng_state,
        g.verify_config == e.verify_config,
    ensures
        ({
            let a = e.deposited_all(captured, token, sig_count, meta).0;
            let b = g.deposited_all(captured, token, sig_count, meta).0;
            &&& a.state == b.state
            &&& a.exploit_path == b.exploit_path
            &&& a.rng_state == b.rng_state
            &&& a.verify_config == b.verify_config
        }),
    decreases captured.len(),
{
    if captured.len() > 0 {
        lemma_deposited_all_agrees(e, g, token, captured.drop_last(), sig_count, meta);
    }
}

/// No false replay alarm: a deposit of messages whose nonces were not processed
/// before leaves the replay flag as it was.
pub proof fn law_deposit_raises_no_false_replay(
    e: ExecutorView,
    token: EVMAddress,
    captured: Seq<MessageView>,
    sig_count: u32,
    meta: CrossChainMutationMeta,
)
    requires
        forall|k: int|
            0 <= k < captured.len() ==> !e.state.queue.processed_nonces.contains(
                (#[trigger] captured[k]).nonce,
            ),
    ensures
        e.deposited(token, captured, sig_count, meta).state.replay_detected
            == e.state.replay_detected,
{
    let start = ExecutorView { iteration: (e.iteration + 1) as u64, ..e };
    lemma_deposited_all_raises_no_replay(start, token, captured, sig_count, meta);
}

proof fn lemma_deposited_all_raises_no_replay(
    e: ExecutorView,
    token: EVMAddress,
    captured: Seq<MessageView>,
    sig_count: u32,
    meta: CrossChainMutationMeta,
)
    requires
        forall|k: int|
            0 <= k < captured.len() ==> !e.state.queue.processed_nonces.contains(
                (#[trigger] captured[k]).nonce,
            ),
    ensures
        ({
            let f = e.deposited_all(captured, token, sig_count, meta).0;
            &&& f.state.replay_detected == e.state.replay_detected
            &&& f.state.queue.processed_nonces == e.state.queue.processed_nonces
            &&& f.verify_config == e.verify_config
        }),
    decreases captured.len(),
{
    if captured.len() > 0 {
        let shorter = captured.drop_last();
        assert forall|k: int|
            0 <= k < shorter.len() implies !e.state.queue.processed_nonces.contains(
            (#[trigger] shorter[k]).nonce,
        ) by {
            assert(shorter[k] == captured[k]);
        }
        lemma_deposited_all_raises_no_replay(e, token, shorter, sig_count, meta);
        let g = e.deposited_all(shorter, token, sig_count, meta).0;
        let msg = forced(captured.last(), meta, None);
        assert(captured.last() == captured[captured.len() - 1]);
        law_force_changes_what_is_asked(captured.last(), meta, None);
        law_verdict_by_facts(g.verify_config, msg, g.state.queue.processed_nonces, sig_count);
    }
}

/// The trace has one record for each deposit where a log is kept: the first
/// identifier that was given out, if any, how many messages were enqueued, and
/// the flags that are up after it. Without a log there is none.
pub proof fn law_deposit_is_traced(
    e: ExecutorView,
    token: EVMAddress,
    captured: Seq<MessageView>,
    sig_count: u32,
    meta: CrossChainMutationMeta,
)
    requires
        e.iteration < u64::MAX,
        e.state.queue.numbered(),
        e.state.queue.next_id + captured.len() <= u64::MAX,
    ensures
        ({
            let f = e.deposited(token, captured, sig_count, meta);
            let enqueued = (f.state.queue.messages.len() - e.state.queue.messages.len()) as nat;
            let t = f.trace.last();
            &&& f.iteration == e.iteration + 1
            &&& e.trace_log_path is None ==> f.trace == e.trace
            &&& e.trace_log_path is Some ==> {
                &&& f.trace.len() == e.trace.len() + 1
                &&& f.trace.drop_last() == e.trace
                &&& t.run_id == e.run_id
                &&& t.iteration == e.iteration + 1
                &&& t.input_type == "Deposit"@
                &&& t.message_id_selected == if enqueued > 0 {
                    Some(e.state.queue.next_id)
                } else {
                    None
                }
                &&& t.ordering_mode == "N/A"@
                &&& t.verification_result == decimal(enqueued) + " enqueued"@
                &&& t.bugs_triggered == bug_flags(f.state)
            }
        }),
{
    let start = ExecutorView { iteration: (e.iteration + 1) as u64, ..e };
    lemma_deposited_all_frame(start, captured, token, sig_count, meta);
    lemma_first_identifier(start, captured, token, sig_count, meta);
    let f = e.deposited(token, captured, sig_count, meta);
    if e.trace_log_path is Some {
        assert(f.trace.drop_last() =~= e.trace);
    }
}

proof fn lemma_first_identifier(
    e: ExecutorView,
    captured: Seq<MessageView>,
    token: EVMAddress,
    sig_count: u32,
    meta: CrossChainMutationMeta,
)
    ensures
        ({
            let (f, ids) = e.deposited_all(captured, token, sig_count, meta);
            &&& ids.len() == 0 ==> f.state.queue == e.state.queue
            &&& ids.len() > 0 ==> ids[0] == e.state.queue.next_id
        }),
    decreases captured.len(),
{
    if captured.len() > 0 {
        lemma_first_identifier(e, captured.drop_last(), token, sig_count, meta);
    }
}

// ---------------------------------------------------------------- the flags

/// One for a flag that is up, and zero otherwise.
pub open spec fn up(flag: bool) -> int {
    if flag {
        1
    } else {
        0
    }
}

proof fn lemma_in_either<A>(s: Seq<A>, t: Seq<A>, x: A)
    ensures
        (s + t).contains(x) <==> s.contains(x) || t.contains(x),
{
    if s.contains(x) {
        let i = choose|i: int| 0 <= i < s.len() && s[i] == x;
        assert((s + t)[i] == x);
    }
    if t.contains(x) {
        let i = choose|i: int| 0 <= i < t.len() && t[i] == x;
        assert((s + t)[s.len() + i] == x);
    }
    if (s + t).contains(x) {
        let i = choose|i: int| 0 <= i < (s + t).len() && (s + t)[i] == x;
        if i < s.len() {
            assert(s[i] == x);
        } else {
            assert(t[i - s.len()] == x);
        }
    }
}

proof fn lemma_named(found: bool, name: Seq<char>, x: Seq<char>)
    ensures
        named(found, name).contains(x) <==> found && x == name,
{
    if found {
        assert(named(found, name)[0] == name);
    }
}

/// The trace names a flag exactly where it is up, each once and in a fixed order.
/// A re-entrant deposit has no name in the trace.
pub proof fn law_trace_names_the_flags(s: StateView)
    ensures
        bug_flags(s).contains("FAKE_MSG"@) <==> s.fake_message_accepted,
        bug_flags(s).contains("REPLAY"@) <==> s.replay_detected,
        bug_flags(s).contains("DESYNC"@) <==> s.state_desync_detected,
        bug_flags(s).contains("QUEUE"@) <==> s.queue_consistency_violated,
        bug_flags(s).contains("ATOMICITY"@) <==> s.atomicity_violated,
        bug_flags(s).contains("DRAIN"@) <==> s.drain_detected,
        s.fake_message_accepted ==> bug_flags(s)[0] == "FAKE_MSG"@,
        s.replay_detected ==> bug_flags(s)[up(s.fake_message_accepted)] == "REPLAY"@,
        s.state_desync_detected ==> bug_flags(s)[up(s.fake_message_accepted) + up(
            s.replay_detected,
        )] == "DESYNC"@,
        s.queue_consistency_violated ==> bug_flags(s)[up(s.fake_message_accepted) + up(
            s.replay_detected,
        ) + up(s.state_desync_detected)] == "QUEUE"@,
        s.atomicity_violated ==> bug_flags(s)[up(s.fake_message_accepted) + up(s.replay_detected)
            + up(s.state_desync_detected) + up(s.queue_consistency_violated)] == "ATOMICITY"@,
        s.drain_detected ==> bug_flags(s).last() == "DRAIN"@,
        bug_flags(s).len() == up(s.fake_message_accepted) + up(s.replay_detected) + up(
            s.state_desync_detected,
        ) + up(s.queue_consistency_violated) + up(s.atomicity_violated) + up(s.drain_detected),
{
    reveal_strlit("FAKE_MSG");
    reveal_strlit("REPLAY");
    reveal_strlit("DESYNC");
    reveal_strlit("QUEUE");
    reveal_strlit("ATOMICITY");
    reveal_strlit("DRAIN");
    assert("FAKE_MSG"@.len() == 8);
    assert("ATOMICITY"@.len() == 9);
    assert("REPLAY"@.len() == 6 && "REPLAY"@[0] == 'R');
    assert("DESYNC"@.len() == 6 && "DESYNC"@[0] == 'D');
    assert("QUEUE"@.len() == 5 && "QUEUE"@[0] == 'Q');
    assert("DRAIN"@.len() == 5 && "DRAIN"@[0] == 'D');
    assert forall|x: Seq<char>| #[trigger]
        bug_flags(s).contains(x) <==> {
            ||| s.fake_message_accepted && x == "FAKE_MSG"@
            ||| s.replay_detected && x == "REPLAY"@
            ||| s.state_desync_detected && x == "DESYNC"@
            ||| s.queue_consistency_violated && x == "QUEUE"@
            ||| s.atomicity_violated && x == "ATOMICITY"@
            ||| s.drain_detected && x == "DRAIN"@
        } by {
        let a = named(s.fake_message_accepted, "FAKE_MSG"@);
        let b = named(s.replay_detected, "REPLAY"@);
        let c = named(s.state_desync_detected, "DESYNC"@);
        let d = named(s.queue_consistency_violated, "QUEUE"@);
        let f = named(s.atomicity_violated, "ATOMICITY"@);
        let g = named(s.drain_detected, "DRAIN"@);
        lemma_in_either(a, b, x);
        lemma_in_either(a + b, c, x);
        lemma_in_either(a + b + c, d, x);
        lemma_in_either(a + b + c + d, f, x);
        lemma_in_either(a + b + c + d + f, g, x);
        lemma_named(s.fake_message_accepted, "FAKE_MSG"@, x);
        lemma_named(s.replay_detected, "REPLAY"@, x);
        lemma_named(s.state_desync_detected, "DESYNC"@, x);
        lemma_named(s.queue_consistency_violated, "QUEUE"@, x);
        lemma_named(s.atomicity_violated, "ATOMICITY"@, x);
        lemma_named(s.drain_detected, "DRAIN"@, x);
    }
}

/// A check of the invariants raises the desync flag exactly where some token was
/// minted beyond its lock, never lowers it, and leaves all else alone: the counts
/// of a queue always add up. To check twice is to check once.
pub proof fn law_check_raises_what_is_broken(s: StateView, token: EVMAddress)
    ensures
        amount(s.minted_b, token) > amount(s.locked_a, token)
            ==> s.checked().state_desync_detected,
        (forall|t: EVMAddress| #[trigger] amount(s.minted_b, t) <= amount(s.locked_a, t))
            ==> s.checked().state_desync_detected == s.state_desync_detected,
        s.state_desync_detected ==> s.checked().state_desync_detected,
        s.checked() == (StateView {
            state_desync_detected: s.checked().state_desync_detected,
            ..s
        }),
        s.checked().checked() == s.checked(),
{
    law_counts_add_up(s);
    law_counts_add_up(s.checked());
    if amount(s.minted_b, token) > amount(s.locked_a, token) {
        assert(s.overminted(token));
    }
    if forall|t: EVMAddress| #[trigger] amount(s.minted_b, t) <= amount(s.locked_a, t) {
        assert forall|t: EVMAddress| !(#[trigger] s.overminted(t)) by {
            assert(amount(s.minted_b, t) <= amount(s.locked_a, t));
        }
    }
    if s.desynced() {
    } else if s.checked().desynced() {
        let t = choose|t: EVMAddress| #[trigger] s.checked().overminted(t);
        assert(s.overminted(t));
    }
}

// ---------------------------------------------------------------- what is given

/// A meta that is missing forces nothing; one that is given is the one that
/// counts.
pub proof fn law_missing_meta_forces_nothing(meta: CrossChainMutationMeta, msg: MessageView)
    ensures
        CrossChainMutationMeta::of(Some(&meta)) == meta,
        forced(msg, CrossChainMutationMeta::of(None), None) == msg,
        forall|n: u64| #[trigger]
            forced(msg, CrossChainMutationMeta::of(None), Some(n)) == msg,
{
}

/// Where some nonce was processed there is one at hand for a replay, and it is a
/// processed one.
pub proof fn law_replay_is_at_hand(replay: Option<u64>, processed_nonces: Set<u64>, n: u64)
    requires
        seen_in(replay, processed_nonces),
    ensures
        processed_nonces.contains(n) ==> replay is Some,
        replay matches Some(r) ==> processed_nonces.contains(r),
{
}

/// An executor starts from its seed, and from a number other than zero where it
/// has none.
pub proof fn law_generator_starts_from_the_seed(seed: Option<u64>)
    ensures
        seed is Some ==> Some(initial_rng(seed)) == seed,
        seed is None ==> initial_rng(seed) == 0xdeadbeef_cafebabe,
{
}

} // verus!
