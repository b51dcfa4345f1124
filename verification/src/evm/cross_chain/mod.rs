//! The data model of dual-chain fuzzing: messages, the queue between the two
//! chains, and the combined state. Chain A is the source, where tokens are
//! locked; chain B is the destination, where they are minted.

use std::collections::hash_map::DefaultHasher;
use std::collections::HashSet;
use std::hash::Hasher;

use vstd::prelude::*;
use vstd::std_specs::hash::DefaultHasherAdditionalSpecFns;
use vstd::std_specs::iter::IteratorSpec;

use crate::collections::{ascending, lemma_ascending_values, SortedMap};
use crate::evm::types::{le_bytes, to_le_bytes, EVMAddress, EVMU256};

pub mod effects;
pub mod executor;
pub mod exploit_path;
pub mod laws;

verus! {

broadcast use vstd::std_specs::hash::group_hash_axioms;

/// How far the delivery of a message has come.
#[derive(Clone, Copy, Debug, PartialEq, Eq, Structural)]
pub enum MessageStatus {
    Pending,
    Processed,
    Dropped,
}

impl Default for MessageStatus {
    fn default() -> (r: MessageStatus)
        ensures
            r == MessageStatus::Pending,
    {
        MessageStatus::Pending
    }
}

/// A message from chain A to chain B.
#[derive(Debug)]
pub struct CrossChainMessage {
    /// Unique identifier assigned by the queue.
    pub id: u64,
    /// Nonce, used for replay detection.
    pub nonce: u64,
    /// Sender address on chain A.
    pub sender: EVMAddress,
    /// Recipient address on chain B.
    pub recipient: EVMAddress,
    /// Raw payload bytes.
    pub payload: Vec<u8>,
    /// Token value being bridged.
    pub value: EVMU256,
    /// Merkle root; all zeros triggers the Nomad bypass.
    pub merkle_root: [u8; 32],
    /// Current delivery status.
    pub status: MessageStatus,
    /// Whether the fuzzer injected the message as a fake.
    pub is_fake: bool,
}

/// What a [`CrossChainMessage`] holds.
#[verifier::ext_equal]
pub struct MessageView {
    pub id: u64,
    pub nonce: u64,
    pub sender: EVMAddress,
    pub recipient: EVMAddress,
    pub payload: Seq<u8>,
    pub value: EVMU256,
    pub merkle_root: Seq<u8>,
    pub status: MessageStatus,
    pub is_fake: bool,
}

impl View for CrossChainMessage {
    type V = MessageView;

    open spec fn view(&self) -> MessageView {
        MessageView {
            id: self.id,
            nonce: self.nonce,
            sender: self.sender,
            recipient: self.recipient,
            payload: self.payload@,
            value: self.value,
            merkle_root: self.merkle_root@,
            status: self.status,
            is_fake: self.is_fake,
        }
    }
}

impl Clone for CrossChainMessage {
    fn clone(&self) -> (r: CrossChainMessage)
        ensures
            r@ == self@,
    {
        let payload = self.payload.clone();
        assert(payload@ =~= self.payload@);
        CrossChainMessage {
            id: self.id,
            nonce: self.nonce,
            sender: self.sender,
            recipient: self.recipient,
            payload,
            value: self.value,
            merkle_root: self.merkle_root,
            status: self.status,
            is_fake: self.is_fake,
        }
    }
}

impl CrossChainMessage {
    /// A pending message; the queue assigns its identifier.
    pub fn new(
        nonce: u64,
        sender: EVMAddress,
        recipient: EVMAddress,
        payload: Vec<u8>,
        value: EVMU256,
        merkle_root: [u8; 32],
        is_fake: bool,
    ) -> (r: CrossChainMessage)
        ensures
            r@ == (MessageView {
                id: 0,
                nonce,
                sender,
                recipient,
                payload: payload@,
                value,
                merkle_root: merkle_root@,
                status: MessageStatus::Pending,
                is_fake,
            }),
    {
        CrossChainMessage {
            id: 0,
            nonce,
            sender,
            recipient,
            payload,
            value,
            merkle_root,
            status: MessageStatus::Pending,
            is_fake,
        }
    }
}

/// The messages of a bridge, in insertion order.
#[derive(Debug)]
pub struct CrossChainMessageQueue {
    /// All messages, in insertion order.
    pub messages: Vec<CrossChainMessage>,
    /// The identifier of the next message.
    pub next_id: u64,
    /// Nonces that have been processed, for replay detection.
    pub processed_nonces: HashSet<u64>,
}

/// What a [`CrossChainMessageQueue`] holds.
#[verifier::ext_equal]
pub struct QueueView {
    pub messages: Seq<MessageView>,
    pub next_id: u64,
    pub processed_nonces: Set<u64>,
}

/// The messages of a given status, in order.
pub open spec fn having_status(messages: Seq<MessageView>, status: MessageStatus) -> Seq<MessageView> {
    messages.filter(|m: MessageView| m.status == status)
}

/// The messages of a given status after one more message.
pub proof fn lemma_having_status_step(messages: Seq<MessageView>, status: MessageStatus)
    ensures
        messages.len() == 0 ==> having_status(messages, status) == Seq::<MessageView>::empty(),
        messages.len() > 0 ==> having_status(messages, status) == if messages.last().status
            == status {
            having_status(messages.drop_last(), status).push(messages.last())
        } else {
            having_status(messages.drop_last(), status)
        },
{
    reveal(Seq::filter);
}

/// A message of a given status is one of the messages.
pub proof fn lemma_having_status_within(messages: Seq<MessageView>, status: MessageStatus, k: int)
    requires
        0 <= k < having_status(messages, status).len(),
    ensures
        having_status(messages, status)[k].status == status,
        exists|n: int| 0 <= n < messages.len() && messages[n] == having_status(messages, status)[k],
    decreases messages.len(),
{
    lemma_having_status_step(messages, status);
    if messages.len() > 0 {
        let shorter = messages.drop_last();
        if k < having_status(shorter, status).len() {
            lemma_having_status_within(shorter, status, k);
            let n = choose|n: int|
                0 <= n < shorter.len() && shorter[n] == having_status(shorter, status)[k];
            assert(messages[n] == having_status(messages, status)[k]);
        } else {
            assert(messages[messages.len() - 1] == having_status(messages, status)[k]);
        }
    }
}

/// Every message has exactly one of the three statuses.
pub proof fn lemma_statuses_partition(messages: Seq<MessageView>)
    ensures
        having_status(messages, MessageStatus::Pending).len() + having_status(
            messages,
            MessageStatus::Processed,
        ).len() + having_status(messages, MessageStatus::Dropped).len() == messages.len(),
    decreases messages.len(),
{
    lemma_having_status_step(messages, MessageStatus::Pending);
    lemma_having_status_step(messages, MessageStatus::Processed);
    lemma_having_status_step(messages, MessageStatus::Dropped);
    if messages.len() > 0 {
        lemma_statuses_partition(messages.drop_last());
    }
}

impl QueueView {
    /// The queue without messages.
    pub open spec fn empty() -> QueueView {
        QueueView { messages: Seq::empty(), next_id: 0, processed_nonces: Set::empty() }
    }

    /// The messages of a given status, in insertion order.
    pub open spec fn of_status(self, status: MessageStatus) -> Seq<MessageView> {
        having_status(self.messages, status)
    }

    /// The position of the first message with identifier `id`.
    pub open spec fn find(self, id: u64) -> Option<int> {
        self.messages.map_values(|m: MessageView| m.id).index_of_first(id)
    }

    /// The queue with the status of the message at position `i` replaced.
    pub open spec fn with_status(self, i: int, status: MessageStatus) -> QueueView {
        QueueView {
            messages: self.messages.update(i, MessageView { status, ..self.messages[i] }),
            ..self
        }
    }

    /// The queue after a push of `msg`.
    pub open spec fn pushed(self, msg: MessageView) -> QueueView {
        QueueView {
            messages: self.messages.push(MessageView { id: self.next_id, ..msg }),
            next_id: (self.next_id + 1) as u64,
            ..self
        }
    }

    /// The queue after its first message with identifier `id` was processed.
    pub open spec fn processed(self, id: u64) -> QueueView {
        match self.find(id) {
            Some(i) => QueueView {
                processed_nonces: self.processed_nonces.insert(self.messages[i].nonce),
                ..self.with_status(i, MessageStatus::Processed)
            },
            None => self,
        }
    }

    /// The queue after its first message with identifier `id` was dropped.
    pub open spec fn dropped(self, id: u64) -> QueueView {
        match self.find(id) {
            Some(i) => self.with_status(i, MessageStatus::Dropped),
            None => self,
        }
    }
}

impl View for CrossChainMessageQueue {
    type V = QueueView;

    open spec fn view(&self) -> QueueView {
        QueueView {
            messages: self.messages@.map_values(|m: CrossChainMessage| m@),
            next_id: self.next_id,
            processed_nonces: self.processed_nonces@,
        }
    }
}

impl Default for CrossChainMessageQueue {
    fn default() -> (r: CrossChainMessageQueue)
        ensures
            r@ == QueueView::empty(),
    {
        let r = CrossChainMessageQueue {
            messages: Vec::new(),
            next_id: 0,
            processed_nonces: HashSet::new(),
        };
        assert(r@ =~= QueueView::empty());
        r
    }
}

impl Clone for CrossChainMessageQueue {
    fn clone(&self) -> (r: CrossChainMessageQueue)
        ensures
            r@ == self@,
    {
        let mut messages: Vec<CrossChainMessage> = Vec::new();
        let mut i: usize = 0;
        while i < self.messages.len()
            invariant
                i <= self.messages@.len(),
                messages@.len() == i,
                forall|j: int| 0 <= j < i ==> (#[trigger] messages@[j])@ == self.messages@[j]@,
            decreases self.messages.len() - i,
        {
            messages.push(self.messages[i].clone());
            i = i + 1;
        }
        let r = CrossChainMessageQueue {
            messages,
            next_id: self.next_id,
            processed_nonces: copy_nonces(&self.processed_nonces),
        };
        assert(r@ =~= self@);
        r
    }
}

/// A copy of a set of nonces.
fn copy_nonces(nonces: &HashSet<u64>) -> (r: HashSet<u64>)
    ensures
        r@ == nonces@,
{
    broadcast use vstd::std_specs::hash::group_hash_axioms;

    let mut r: HashSet<u64> = HashSet::new();
    let ghost all = nonces.iter().remaining();
    for n in it: nonces.iter()
        invariant
            it.seq() == all,
            it.seq().unref().to_set() == nonces@,
            r@ == all.unref().take(it.index()).to_set(),
    {
        let ghost k = it.index();
        assert(all.unref().take(k + 1) =~= all.unref().take(k).push(*n));
        r.insert(*n);
        assert(r@ =~= all.unref().take(k + 1).to_set()) by {
            broadcast use vstd::seq_lib::group_seq_properties;
        }
    }
    assert(all.unref().take(all.len() as int) =~= all.unref());
    r
}

impl CrossChainMessageQueue {
    /// A queue without messages.
    pub fn new() -> (r: CrossChainMessageQueue)
        ensures
            r@ == QueueView::empty(),
    {
        Self::default()
    }

    /// Assigns an identifier to the message, appends it and returns the
    /// identifier.
    pub fn push(&mut self, msg: CrossChainMessage) -> (id: u64)
        requires
            old(self).next_id < u64::MAX,
        ensures
            id == old(self)@.next_id,
            final(self)@ == old(self)@.pushed(msg@),
    {
        let id: u64 = self.next_id;
        let mut msg = msg;
        msg.id = id;
        self.next_id = self.next_id + 1;
        self.messages.push(msg);
        assert(self@ =~= old(self)@.pushed(msg@));
        id
    }

    /// References to all pending messages, in insertion order.
    pub fn pending(&self) -> (r: Vec<&CrossChainMessage>)
        ensures
            r@.map_values(|m: &CrossChainMessage| m@) == self@.of_status(MessageStatus::Pending),
    {
        let mut r: Vec<&CrossChainMessage> = Vec::new();
        let mut i: usize = 0;
        let ghost all = self@.messages;
        proof {
            lemma_having_status_step(all.take(0), MessageStatus::Pending);
        }
        assert(r@.map_values(|m: &CrossChainMessage| m@) =~= having_status(
            all.take(0),
            MessageStatus::Pending,
        ));
        while i < self.messages.len()
            invariant
                i <= self.messages@.len(),
                all == self@.messages,
                r@.map_values(|m: &CrossChainMessage| m@) == having_status(
                    all.take(i as int),
                    MessageStatus::Pending,
                ),
            decreases self.messages.len() - i,
        {
            proof {
                lemma_having_status_step(all.take(i + 1), MessageStatus::Pending);
            }
            assert(all.take(i + 1).drop_last() =~= all.take(i as int));
            let m = &self.messages[i];
            assert(all.take(i + 1).last() == m@);
            let ghost before = r@;
            if m.status == MessageStatus::Pending {
                r.push(m);
                assert(r@.map_values(|m: &CrossChainMessage| m@) =~= before.map_values(
                    |m: &CrossChainMessage| m@,
                ).push(m@));
            }
            i = i + 1;
        }
        assert(all.take(all.len() as int) =~= all);
        r
    }

    /// The position of the first message with identifier `id`.
    fn find(&self, id: u64) -> (r: Option<usize>)
        ensures
            match r {
                Some(i) => self@.find(id) == Some(i as int) && i < self.messages@.len(),
                None => self@.find(id) is None,
            },
    {
        let ghost ids = self@.messages.map_values(|m: MessageView| m.id);
        proof {
            ids.index_of_first_ensures(id);
        }
        let mut i: usize = 0;
        while i < self.messages.len()
            invariant
                i <= self.messages@.len(),
                ids == self@.messages.map_values(|m: MessageView| m.id),
                forall|j: int| 0 <= j < i ==> ids[j] != id,
            decreases self.messages.len() - i,
        {
            assert(ids[i as int] == self.messages@[i as int].id);
            if self.messages[i].id == id {
                proof {
                    ids.index_of_first_ensures(id);
                    assert(ids.contains(id));
                }
                return Some(i);
            }
            i = i + 1;
        }
        None
    }

    /// A copy of the first message with identifier `id`.
    pub(crate) fn first_with_id(&self, id: u64) -> (r: CrossChainMessage)
        requires
            self@.find(id) is Some,
        ensures
            r@ == self@.messages[self@.find(id)->0],
    {
        let i: usize = self.find(id).unwrap();
        self.messages[i].clone()
    }

    /// Marks the message with identifier `id` as processed and records its
    /// nonce.
    pub fn mark_processed(&mut self, id: u64)
        ensures
            final(self)@ == old(self)@.processed(id),
    {
        if let Some(i) = self.find(id) {
            let nonce: u64 = self.messages[i].nonce;
            self.processed_nonces.insert(nonce);
            self.messages[i].status = MessageStatus::Processed;
            assert(self@ =~= old(self)@.processed(id));
        }
    }

    /// Marks the message with identifier `id` as dropped.
    pub fn mark_dropped(&mut self, id: u64)
        ensures
            final(self)@ == old(self)@.dropped(id),
    {
        if let Some(i) = self.find(id) {
            self.messages[i].status = MessageStatus::Dropped;
            assert(self@ =~= old(self)@.dropped(id));
        }
    }

    /// Whether `nonce` has already been processed.
    pub fn is_nonce_replayed(&self, nonce: u64) -> (r: bool)
        ensures
            r == self@.processed_nonces.contains(nonce),
    {
        self.processed_nonces.contains(&nonce)
    }

    /// The number of messages of a given status.
    fn count_of(&self, status: MessageStatus) -> (r: usize)
        ensures
            r == self@.of_status(status).len(),
            r <= self.messages@.len(),
    {
        let mut r: usize = 0;
        let mut i: usize = 0;
        let ghost all = self@.messages;
        proof {
            lemma_having_status_step(all.take(0), status);
        }
        while i < self.messages.len()
            invariant
                r <= i <= self.messages@.len(),
                all == self@.messages,
                r == having_status(all.take(i as int), status).len(),
            decreases self.messages.len() - i,
        {
            proof {
                lemma_having_status_step(all.take(i + 1), status);
            }
            assert(all.take(i + 1).drop_last() =~= all.take(i as int));
            assert(all.take(i + 1).last() == self.messages@[i as int]@);
            if self.messages[i].status == status {
                r = r + 1;
            }
            i = i + 1;
        }
        assert(all.take(all.len() as int) =~= all);
        r
    }

    /// The number of pending messages.
    pub fn pending_count(&self) -> (r: usize)
        ensures
            r == self@.of_status(MessageStatus::Pending).len(),
            r <= self.messages@.len(),
    {
        self.count_of(MessageStatus::Pending)
    }

    /// The number of processed messages.
    pub fn processed_count(&self) -> (r: usize)
        ensures
            r == self@.of_status(MessageStatus::Processed).len(),
            r <= self.messages@.len(),
    {
        self.count_of(MessageStatus::Processed)
    }

    /// The number of dropped messages.
    pub fn dropped_count(&self) -> (r: usize)
        ensures
            r == self@.of_status(MessageStatus::Dropped).len(),
            r <= self.messages@.len(),
    {
        self.count_of(MessageStatus::Dropped)
    }

    /// The number of messages.
    pub fn total_count(&self) -> (r: usize)
        ensures
            r == self@.messages.len(),
    {
        self.messages.len()
    }
}

/// The storage of one chain: the slots of each account.
pub struct EVMState {
    /// Slots and their values, by account.
    pub state: SortedMap<EVMAddress, SortedMap<EVMU256, EVMU256>>,
}

impl View for EVMState {
    type V = Map<EVMAddress, Map<EVMU256, EVMU256>>;

    open spec fn view(&self) -> Map<EVMAddress, Map<EVMU256, EVMU256>> {
        self.state@.map_values(|slots: SortedMap<EVMU256, EVMU256>| slots@)
    }
}

impl Default for EVMState {
    fn default() -> (r: EVMState)
        ensures
            r@ == Map::<EVMAddress, Map<EVMU256, EVMU256>>::empty(),
    {
        let r = EVMState { state: SortedMap::new() };
        assert(r@ =~= Map::<EVMAddress, Map<EVMU256, EVMU256>>::empty());
        r
    }
}

impl Clone for EVMState {
    fn clone(&self) -> (r: EVMState)
        ensures
            r@ == self@,
    {
        let r = EVMState { state: self.state.clone() };
        assert forall|a: EVMAddress| r.state@.contains_key(a) implies r.state@[a]@
            == self.state@[a]@ by {
            assert(cloned(self.state@[a], r.state@[a]));
            assert(r.state@[a]@ =~= self.state@[a]@);
        }
        assert(r@ =~= self@);
        r
    }
}

/// What feeds the hash for a word: the number of its limbs, then the limbs.
pub open spec fn word_stream(word: EVMU256) -> Seq<Seq<u8>> {
    seq![le_bytes(4, 8), word.limb_bytes()]
}

/// What feeds the hash for the slots of one account: each slot and its value.
pub open spec fn slots_stream(slots: Seq<(EVMU256, EVMU256)>) -> Seq<Seq<u8>>
    decreases slots.len(),
{
    if slots.len() == 0 {
        Seq::empty()
    } else {
        slots_stream(slots.drop_last()) + word_stream(slots.last().0) + word_stream(slots.last().1)
    }
}

/// What feeds the hash for the accounts of one chain: each address, then the
/// slots of the account in ascending order.
pub open spec fn storage_stream(accounts: Seq<(EVMAddress, Map<EVMU256, EVMU256>)>) -> Seq<Seq<u8>>
    decreases accounts.len(),
{
    if accounts.len() == 0 {
        Seq::empty()
    } else {
        storage_stream(accounts.drop_last()).push(accounts.last().0.bytes()) + slots_stream(
            ascending(accounts.last().1),
        )
    }
}

/// One byte for a truth value.
pub open spec fn flag_byte(b: bool) -> Seq<u8> {
    seq![
        if b {
            1u8
        } else {
            0u8
        },
    ]
}

/// What feeds the hash for one message: its identifier and its status.
pub open spec fn message_stream(m: MessageView) -> Seq<Seq<u8>> {
    seq![
        le_bytes(m.id as nat, 8),
        flag_byte(m.status == MessageStatus::Pending),
        flag_byte(m.status == MessageStatus::Processed),
        flag_byte(m.status == MessageStatus::Dropped),
    ]
}

/// What feeds the hash for the messages of the queue, in insertion order.
pub open spec fn queue_stream(messages: Seq<MessageView>) -> Seq<Seq<u8>>
    decreases messages.len(),
{
    if messages.len() == 0 {
        Seq::empty()
    } else {
        queue_stream(messages.drop_last()) + message_stream(messages.last())
    }
}

/// Both chains, the queue between them, and what the fuzzer has seen go wrong.
pub struct DualChainState {
    /// State of chain A, the source.
    pub state_a: EVMState,
    /// State of chain B, the destination.
    pub state_b: EVMState,
    /// Message queue shared between the two chains.
    pub queue: CrossChainMessageQueue,
    /// Locked amounts on chain A, by token.
    pub locked_a: SortedMap<EVMAddress, EVMU256>,
    /// Minted amounts on chain B, by token.
    pub minted_b: SortedMap<EVMAddress, EVMU256>,
    /// A fake message was accepted and executed without revert.
    pub fake_message_accepted: bool,
    /// A replayed nonce was seen during verification.
    pub replay_detected: bool,
    /// More was minted than locked.
    pub state_desync_detected: bool,
    /// The messages of the three statuses do not add up to the queue.
    pub queue_consistency_violated: bool,
    /// A state update was left half done by a revert.
    pub atomicity_violated: bool,
    /// The balance of the bridge was drained.
    pub drain_detected: bool,
    /// A deposit re-entered the bridge during a relay.
    pub reentrancy_detected: bool,
}

/// What a [`DualChainState`] holds.
#[verifier::ext_equal]
pub struct StateView {
    pub state_a: Map<EVMAddress, Map<EVMU256, EVMU256>>,
    pub state_b: Map<EVMAddress, Map<EVMU256, EVMU256>>,
    pub queue: QueueView,
    pub locked_a: Map<EVMAddress, EVMU256>,
    pub minted_b: Map<EVMAddress, EVMU256>,
    pub fake_message_accepted: bool,
    pub replay_detected: bool,
    pub state_desync_detected: bool,
    pub queue_consistency_violated: bool,
    pub atomicity_violated: bool,
    pub drain_detected: bool,
    pub reentrancy_detected: bool,
}

/// The amount that a ledger holds of `token`: zero where it has no entry.
pub open spec fn amount(ledger: Map<EVMAddress, EVMU256>, token: EVMAddress) -> nat {
    if ledger.contains_key(token) {
        ledger[token].value()
    } else {
        0
    }
}

/// The ledger after `added` of `token` was credited; an amount stops at the
/// largest word.
pub open spec fn credited(
    ledger: Map<EVMAddress, EVMU256>,
    token: EVMAddress,
    added: EVMU256,
) -> Map<EVMAddress, EVMU256> {
    let sum = amount(ledger, token) + added.value();
    ledger.insert(
        token,
        EVMU256::of(
            if sum <= EVMU256::max_nat() {
                sum
            } else {
                EVMU256::max_nat()
            },
        ),
    )
}

impl StateView {
    /// The state in which nothing has happened.
    pub open spec fn empty() -> StateView {
        StateView {
            state_a: Map::empty(),
            state_b: Map::empty(),
            queue: QueueView::empty(),
            locked_a: Map::empty(),
            minted_b: Map::empty(),
            fake_message_accepted: false,
            replay_detected: false,
            state_desync_detected: false,
            queue_consistency_violated: false,
            atomicity_violated: false,
            drain_detected: false,
            reentrancy_detected: false,
        }
    }

    /// Whether more of `token` was minted than locked.
    pub open spec fn overminted(self, token: EVMAddress) -> bool {
        amount(self.minted_b, token) > amount(self.locked_a, token)
    }

    /// What feeds the state hash: chain A, chain B, then the queue.
    pub open spec fn hash_stream(self) -> Seq<Seq<u8>> {
        storage_stream(ascending(self.state_a)) + storage_stream(ascending(self.state_b))
            + queue_stream(self.queue.messages)
    }
}

impl View for DualChainState {
    type V = StateView;

    open spec fn view(&self) -> StateView {
        StateView {
            state_a: self.state_a@,
            state_b: self.state_b@,
            queue: self.queue@,
            locked_a: self.locked_a@,
            minted_b: self.minted_b@,
            fake_message_accepted: self.fake_message_accepted,
            replay_detected: self.replay_detected,
            state_desync_detected: self.state_desync_detected,
            queue_consistency_violated: self.queue_consistency_violated,
            atomicity_violated: self.atomicity_violated,
            drain_detected: self.drain_detected,
            reentrancy_detected: self.reentrancy_detected,
        }
    }
}

impl Default for DualChainState {
    fn default() -> (r: DualChainState)
        ensures
            r@ == StateView::empty(),
    {
        DualChainState {
            state_a: EVMState::default(),
            state_b: EVMState::default(),
            queue: CrossChainMessageQueue::new(),
            locked_a: SortedMap::new(),
            minted_b: SortedMap::new(),
            fake_message_accepted: false,
            replay_detected: false,
            state_desync_detected: false,
            queue_consistency_violated: false,
            atomicity_violated: false,
            drain_detected: false,
            reentrancy_detected: false,
        }
    }
}

/// A copy of a ledger.
fn copy_ledger(ledger: &SortedMap<EVMAddress, EVMU256>) -> (r: SortedMap<EVMAddress, EVMU256>)
    ensures
        r@ == ledger@,
{
    let r = ledger.clone();
    assert(r@ =~= ledger@);
    r
}

impl Clone for DualChainState {
    fn clone(&self) -> (r: DualChainState)
        ensures
            r@ == self@,
    {
        DualChainState {
            state_a: self.state_a.clone(),
            state_b: self.state_b.clone(),
            queue: self.queue.clone(),
            locked_a: copy_ledger(&self.locked_a),
            minted_b: copy_ledger(&self.minted_b),
            fake_message_accepted: self.fake_message_accepted,
            replay_detected: self.replay_detected,
            state_desync_detected: self.state_desync_detected,
            queue_consistency_violated: self.queue_consistency_violated,
            atomicity_violated: self.atomicity_violated,
            drain_detected: self.drain_detected,
            reentrancy_detected: self.reentrancy_detected,
        }
    }
}

/// The amount that `ledger` holds of `token`.
pub fn amount_of(ledger: &SortedMap<EVMAddress, EVMU256>, token: &EVMAddress) -> (r: EVMU256)
    ensures
        r.value() == amount(ledger@, *token),
{
    match ledger.get(token) {
        Some(v) => *v,
        None => EVMU256::zero(),
    }
}

/// Credits `added` of `token`.
fn credit(ledger: &mut SortedMap<EVMAddress, EVMU256>, token: EVMAddress, added: EVMU256)
    ensures
        final(ledger)@ == credited(old(ledger)@, token, added),
{
    let sum = amount_of(ledger, &token).saturating_add(added);
    proof {
        sum.lemma_value();
    }
    ledger.insert(token, sum);
}

impl DualChainState {
    /// A state in which nothing has happened.
    pub fn new() -> (r: DualChainState)
        ensures
            r@ == StateView::empty(),
    {
        Self::default()
    }

    /// A hash of both chains' storage and of the identifiers and statuses in
    /// the queue, to tell whether the state changed.
    pub fn state_hash(&self) -> (r: u64)
        ensures
            r == DefaultHasher::spec_finish(self@.hash_stream()),
    {
        let mut h = DefaultHasher::new();
        hash_storage(&mut h, &self.state_a);
        hash_storage(&mut h, &self.state_b);
        hash_messages(&mut h, &self.queue.messages);
        assert(h@ =~= self@.hash_stream());
        h.finish()
    }

    /// Locks `amount` of `token` on chain A.
    pub fn lock_a(&mut self, token: EVMAddress, amount: EVMU256)
        ensures
            final(self)@ == (StateView {
                locked_a: credited(old(self)@.locked_a, token, amount),
                ..old(self)@
            }),
    {
        credit(&mut self.locked_a, token, amount);
    }

    /// Mints `amount` of `token` on chain B.
    pub fn mint_b(&mut self, token: EVMAddress, amount: EVMU256)
        ensures
            final(self)@ == (StateView {
                minted_b: credited(old(self)@.minted_b, token, amount),
                ..old(self)@
            }),
    {
        credit(&mut self.minted_b, token, amount);
    }
}

fn hash_word(h: &mut DefaultHasher, word: EVMU256)
    ensures
        final(h)@ == old(h)@ + word_stream(word),
{
    h.write(to_le_bytes(4, 8).as_slice());
    h.write(word.to_limb_bytes().as_slice());
    assert(h@ =~= old(h)@ + word_stream(word));
}

fn hash_slots(h: &mut DefaultHasher, slots: &SortedMap<EVMU256, EVMU256>)
    ensures
        final(h)@ == old(h)@ + slots_stream(ascending(slots@)),
{
    let n: usize = slots.len();
    let mut i: usize = 0;
    let ghost all = ascending(slots@);
    assert(h@ =~= old(h)@ + slots_stream(all.take(0)));
    while i < n
        invariant
            i <= n == all.len(),
            all == slots.in_order(),
            h@ == old(h)@ + slots_stream(all.take(i as int)),
        decreases n - i,
    {
        let (slot, value) = slots.entry_at(i);
        hash_word(h, slot);
        hash_word(h, *value);
        assert(all.take(i + 1).drop_last() =~= all.take(i as int));
        i = i + 1;
        assert(h@ =~= old(h)@ + slots_stream(all.take(i as int)));
    }
    assert(all.take(all.len() as int) =~= all);
}

fn hash_storage(h: &mut DefaultHasher, chain: &EVMState)
    ensures
        final(h)@ == old(h)@ + storage_stream(ascending(chain@)),
{
    let n: usize = chain.state.len();
    let mut i: usize = 0;
    let ghost all = ascending(chain@);
    let ghost f = |slots: SortedMap<EVMU256, EVMU256>| slots@;
    proof {
        lemma_ascending_values(chain.state.in_order(), chain.state@, f);
    }
    assert(h@ =~= old(h)@ + storage_stream(all.take(0)));
    while i < n
        invariant
            i <= n == all.len(),
            n == chain.state.in_order().len(),
            all == chain.state.in_order().map_values(
                |e: (EVMAddress, SortedMap<EVMU256, EVMU256>)| (e.0, e.1@),
            ),
            h@ == old(h)@ + storage_stream(all.take(i as int)),
        decreases n - i,
    {
        let (account, slots) = chain.state.entry_at(i);
        h.write(account.to_bytes().as_slice());
        hash_slots(h, slots);
        assert(all.take(i + 1).drop_last() =~= all.take(i as int));
        assert(all.take(i + 1).last() == (account, slots@));
        i = i + 1;
        assert(h@ =~= old(h)@ + storage_stream(all.take(i as int)));
    }
    assert(all.take(all.len() as int) =~= all);
}

fn flag_bytes(b: bool) -> (r: Vec<u8>)
    ensures
        r@ == flag_byte(b),
{
    let mut r: Vec<u8> = Vec::new();
    r.push(
        if b {
            1u8
        } else {
            0u8
        },
    );
    assert(r@ =~= flag_byte(b));
    r
}

fn hash_messages(h: &mut DefaultHasher, messages: &Vec<CrossChainMessage>)
    ensures
        final(h)@ == old(h)@ + queue_stream(messages@.map_values(|m: CrossChainMessage| m@)),
{
    let ghost all = messages@.map_values(|m: CrossChainMessage| m@);
    let mut i: usize = 0;
    assert(h@ =~= old(h)@ + queue_stream(all.take(0)));
    while i < messages.len()
        invariant
            i <= messages@.len(),
            all == messages@.map_values(|m: CrossChainMessage| m@),
            h@ == old(h)@ + queue_stream(all.take(i as int)),
        decreases messages.len() - i,
    {
        let m = &messages[i];
        h.write(to_le_bytes(m.id as u128, 8).as_slice());
        h.write(flag_bytes(m.status == MessageStatus::Pending).as_slice());
        h.write(flag_bytes(m.status == MessageStatus::Processed).as_slice());
        h.write(flag_bytes(m.status == MessageStatus::Dropped).as_slice());
        assert(all.take(i + 1).drop_last() =~= all.take(i as int));
        assert(all.take(i + 1).last() == m@);
        i = i + 1;
        assert(h@ =~= old(h)@ + queue_stream(all.take(i as int)));
    }
    assert(all.take(all.len() as int) =~= all);
}

} // verus!
