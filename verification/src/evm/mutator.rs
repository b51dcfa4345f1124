//! Mutation of bridge transactions, and the access pattern of an execution.

use revm_interpreter::Stack;
use vstd::prelude::*;

use crate::evm::cross_chain::executor::{
    index_from, lemma_xorshift_nonzero, reduce, xorshift, xorshift64, CrossChainMutationMeta,
};
use crate::evm::types::{
    account_in, be_bytes, convert_u256_to_h160, lemma_be_bytes_round_trip, to_be_bytes, EVMAddress,
    EVMU256,
};

verus! {

/// What an execution looked at. There is no need to mutate what an execution
/// never uses.
#[derive(Debug)]
pub struct AccessPattern {
    /// Caller or origin.
    pub caller: bool,
    /// Accounts whose balance was queried.
    pub balance: Vec<EVMAddress>,
    pub call_value: bool,
    pub gas_price: bool,
    pub number: bool,
    pub coinbase: bool,
    pub timestamp: bool,
    pub prevrandao: bool,
    pub gas_limit: bool,
    pub chain_id: bool,
    pub basefee: bool,
}

/// What an [`AccessPattern`] holds.
#[verifier::ext_equal]
pub struct AccessView {
    pub caller: bool,
    pub balance: Seq<EVMAddress>,
    pub call_value: bool,
    pub gas_price: bool,
    pub number: bool,
    pub coinbase: bool,
    pub timestamp: bool,
    pub prevrandao: bool,
    pub gas_limit: bool,
    pub chain_id: bool,
    pub basefee: bool,
}

impl AccessView {
    /// Nothing was looked at.
    pub open spec fn none() -> AccessView {
        AccessView {
            caller: false,
            balance: Seq::empty(),
            call_value: false,
            gas_price: false,
            number: false,
            coinbase: false,
            timestamp: false,
            prevrandao: false,
            gas_limit: false,
            chain_id: false,
            basefee: false,
        }
    }

    /// The pattern after one more opcode, executed with `top` on top of the
    /// stack.
    pub open spec fn decoded(self, opcode: u8, top: Option<EVMU256>) -> AccessView {
        if opcode == BALANCE {
            AccessView { balance: self.balance.push(account_in(top->0)), ..self }
        } else if opcode == 0x32 || opcode == 0x33 {
            AccessView { caller: true, ..self }
        } else if opcode == 0x3a {
            AccessView { gas_price: true, ..self }
        } else if opcode == 0x43 {
            AccessView { number: true, ..self }
        } else if opcode == 0x41 {
            AccessView { coinbase: true, ..self }
        } else if opcode == 0x42 {
            AccessView { timestamp: true, ..self }
        } else if opcode == 0x44 {
            AccessView { prevrandao: true, ..self }
        } else if opcode == 0x45 {
            AccessView { gas_limit: true, ..self }
        } else if opcode == 0x46 {
            AccessView { chain_id: true, ..self }
        } else if opcode == 0x48 {
            AccessView { basefee: true, ..self }
        } else if opcode == 0x34 {
            AccessView { call_value: true, ..self }
        } else {
            self
        }
    }
}

impl View for AccessPattern {
    type V = AccessView;

    open spec fn view(&self) -> AccessView {
        AccessView {
            caller: self.caller,
            balance: self.balance@,
            call_value: self.call_value,
            gas_price: self.gas_price,
            number: self.number,
            coinbase: self.coinbase,
            timestamp: self.timestamp,
            prevrandao: self.prevrandao,
            gas_limit: self.gas_limit,
            chain_id: self.chain_id,
            basefee: self.basefee,
        }
    }
}

impl Clone for AccessPattern {
    fn clone(&self) -> (r: AccessPattern)
        ensures
            r@ == self@,
    {
        let balance = self.balance.clone();
        assert(balance@ =~= self.balance@);
        AccessPattern {
            balance,
            caller: self.caller,
            call_value: self.call_value,
            gas_price: self.gas_price,
            number: self.number,
            coinbase: self.coinbase,
            timestamp: self.timestamp,
            prevrandao: self.prevrandao,
            gas_limit: self.gas_limit,
            chain_id: self.chain_id,
            basefee: self.basefee,
        }
    }
}

impl Default for AccessPattern {
    fn default() -> (r: AccessPattern)
        ensures
            r@ == AccessView::none(),
    {
        Self::new()
    }
}

impl AccessPattern {
    /// The pattern in which nothing was looked at.
    pub fn new() -> (r: AccessPattern)
        ensures
            r@ == AccessView::none(),
    {
        AccessPattern {
            balance: Vec::new(),
            caller: false,
            call_value: false,
            gas_price: false,
            number: false,
            coinbase: false,
            timestamp: false,
            prevrandao: false,
            gas_limit: false,
            chain_id: false,
            basefee: false,
        }
    }

    /// Records the access of an opcode that is executed with `top` on top of the
    /// stack, which a balance query reads.
    pub fn decode_opcode(&mut self, opcode: u8, top: Option<EVMU256>)
        requires
            opcode == BALANCE ==> top is Some,
        ensures
            final(self)@ == old(self)@.decoded(opcode, top),
    {
        match opcode {
            0x31 => {
                if let Some(word) = top {
                    self.balance.push(convert_u256_to_h160(word));
                }
            },
            0x32 | 0x33 => self.caller = true,
            0x3a => self.gas_price = true,
            0x43 => self.number = true,
            0x41 => self.coinbase = true,
            0x42 => self.timestamp = true,
            0x44 => self.prevrandao = true,
            0x45 => self.gas_limit = true,
            0x46 => self.chain_id = true,
            0x48 => self.basefee = true,
            0x34 => self.call_value = true,
            _ => {},
        }
    }

    /// Records the access of the opcode that an interpreter with the given stack
    /// is about to execute.
    pub fn decode_instruction(&mut self, opcode: u8, stack: &Stack)
        requires
            opcode == BALANCE ==> stack_words(*stack).len() > 0,
        ensures
            final(self)@ == old(self)@.decoded(opcode, top_of(stack_words(*stack))),
    {
        self.decode_opcode(opcode, top_word(stack));
    }

    /// As [`AccessPattern::decode_instruction`] where the stack has what the
    /// opcode reads; says whether it has, and records nothing otherwise.
    pub fn try_decode_instruction(&mut self, opcode: u8, stack: &Stack) -> (r: bool)
        ensures
            r == (opcode != BALANCE || stack_words(*stack).len() > 0),
            final(self)@ == if r {
                old(self)@.decoded(opcode, top_of(stack_words(*stack)))
            } else {
                old(self)@
            },
    {
        if opcode == BALANCE && top_word(stack).is_none() {
            return false;
        }
        self.decode_instruction(opcode, stack);
        true
    }
}

/// The opcode of a balance query.
pub const BALANCE: u8 = 0x31;

/// The stack of an EVM interpreter.
#[verifier::external_type_specification]
#[verifier::external_body]
pub struct ExStack(revm_interpreter::Stack);

/// The words on a stack, from the bottom to the top, each as thirty-two bytes
/// with the most significant one first.
pub uninterp spec fn stack_words(stack: revm_interpreter::Stack) -> Seq<Seq<u8>>;

/// `revm_interpreter::Stack::peek`: the word that lies under `no_from_top` others,
/// and nothing where there are not enough words. The word is handed on in the
/// bytes that `to_be_bytes` gives.
#[verifier::external_body]
fn peek(stack: &Stack, no_from_top: usize) -> (r: Option<[u8; 32]>)
    ensures
        match r {
            Some(word) => {
                &&& no_from_top < stack_words(*stack).len()
                &&& word@ == stack_words(*stack)[stack_words(*stack).len() - 1 - no_from_top]
            },
            None => no_from_top >= stack_words(*stack).len(),
        },
{
    match stack.peek(no_from_top) {
        Ok(word) => Some(word.to_be_bytes::<32>()),
        Err(_) => None,
    }
}

/// The word on top of the given ones, where there is one.
pub open spec fn top_of(words: Seq<Seq<u8>>) -> Option<EVMU256> {
    if words.len() > 0 {
        Some(EVMU256::read(words.last()))
    } else {
        None
    }
}

/// The word on top of the stack, where there is one.
fn top_word(stack: &Stack) -> (r: Option<EVMU256>)
    ensures
        r == top_of(stack_words(*stack)),
{
    match peek(stack, 0) {
        Some(bytes) => Some(EVMU256::from(bytes)),
        None => None,
    }
}

/// The ways to mutate a bridge transaction.
#[derive(Clone, Copy, Debug, PartialEq, Eq, Structural)]
pub enum CrossChainMutationStrategy {
    /// Flip one to eight bits of a random byte, from the lowest up.
    BitFlip,
    /// Mutate a single ABI-encoded field.
    AbiFieldMutate,
    /// Set intent flags for the executor.
    StateAwareMutate,
    /// Set a numeric field to a boundary value.
    BoundaryValue,
}

/// The ways to mutate an ABI-encoded field.
#[derive(Clone, Copy, Debug, PartialEq, Eq, Structural)]
pub enum AbiMutateSubtype {
    Zero,
    Max,
    Increment,
    Decrement,
    RandomBytes,
}

/// The state of the generator after `k` draws.
pub open spec fn after_draws(rng: u64, k: nat) -> u64
    decreases k,
{
    if k == 0 {
        rng
    } else {
        xorshift(after_draws(rng, (k - 1) as nat))
    }
}

/// `data` with the bytes from `start` on replaced by `bytes`.
pub open spec fn overlaid(data: Seq<u8>, start: int, bytes: Seq<u8>) -> Seq<u8> {
    Seq::new(
        data.len(),
        |i: int|
            if start <= i < start + bytes.len() {
                bytes[i - start]
            } else {
                data[i]
            },
    )
}

/// `n` copies of the byte `b`.
pub open spec fn repeated(b: u8, n: int) -> Seq<u8> {
    Seq::new(n as nat, |i: int| b)
}

/// The low bytes of `n` draws.
pub open spec fn drawn_bytes(rng: u64, n: int) -> Seq<u8> {
    Seq::new(n as nat, |i: int| (after_draws(rng, (i + 1) as nat) % 256) as u8)
}

/// One to eight low bits of one byte are flipped.
pub open spec fn bit_flip(data: Seq<u8>, rng: u64) -> (Seq<u8>, u64) {
    if data.len() == 0 {
        (data, rng)
    } else {
        let at = index_from(after_draws(rng, 1), data.len() as int);
        let bits = after_draws(rng, 2) % 8 + 1;
        (data.update(at, data[at] ^ low_bits(bits)), after_draws(rng, 2))
    }
}

/// The byte whose `bits` low bits are set.
pub open spec fn low_bits(bits: int) -> u8 {
    if bits == 1 {
        0x01
    } else if bits == 2 {
        0x03
    } else if bits == 3 {
        0x07
    } else if bits == 4 {
        0x0f
    } else if bits == 5 {
        0x1f
    } else if bits == 6 {
        0x3f
    } else if bits == 7 {
        0x7f
    } else {
        0xff
    }
}

/// The number of whole 32-byte fields behind the 4-byte selector.
pub open spec fn field_count(data: Seq<u8>) -> int {
    if data.len() < 36 {
        0
    } else {
        (data.len() - 4) / 32
    }
}

/// Where field `k` starts.
pub open spec fn field_start(k: int) -> int {
    4 + k * 32
}

/// One field is mutated: set to zero, set to all ones, its last byte stepped up
/// or down, or all its bytes drawn.
pub open spec fn abi_field_mutate(data: Seq<u8>, rng: u64) -> (Seq<u8>, u64) {
    if field_count(data) == 0 {
        (data, rng)
    } else {
        let start = field_start(index_from(after_draws(rng, 1), field_count(data)));
        let last = start + 31;
        let way = after_draws(rng, 2) % 5;
        if way == 0 {
            (overlaid(data, start, repeated(0, 32)), after_draws(rng, 2))
        } else if way == 1 {
            (overlaid(data, start, repeated(0xff, 32)), after_draws(rng, 2))
        } else if way == 2 {
            (data.update(last, ((data[last] + 1) % 256) as u8), after_draws(rng, 2))
        } else if way == 3 {
            (data.update(last, ((data[last] + 255) % 256) as u8), after_draws(rng, 2))
        } else {
            (
                overlaid(data, start, drawn_bytes(after_draws(rng, 2), 32)),
                after_draws(rng, 34),
            )
        }
    }
}

/// One field is set to zero.
pub open spec fn abi_field_zero(data: Seq<u8>, rng: u64) -> (Seq<u8>, u64) {
    if field_count(data) == 0 {
        (data, rng)
    } else {
        let start = field_start(index_from(after_draws(rng, 1), field_count(data)));
        (overlaid(data, start, repeated(0, 32)), after_draws(rng, 1))
    }
}

/// Where the field at `offset` ends: after 32 bytes, or with the data.
pub open spec fn field_end(data: Seq<u8>, offset: int) -> int {
    if offset + 32 <= data.len() {
        offset + 32
    } else {
        data.len() as int
    }
}

/// The boundary value that a draw stands for.
pub open spec fn boundary(draw: u64) -> u64 {
    let k = index_from(draw, 5);
    if k == 0 {
        0
    } else if k == 1 || k == 2 {
        u64::MAX
    } else if k == 3 {
        0xffff_ffff
    } else {
        1
    }
}

/// A boundary value is written, most significant byte first, so that it ends
/// where the field at `offset` ends; where the field has fewer than eight bytes,
/// only the low bytes of the value are written, and nothing before the field.
pub open spec fn boundary_value(data: Seq<u8>, offset: int, rng: u64) -> (Seq<u8>, u64) {
    let draw = after_draws(rng, 1);
    let end = field_end(data, offset);
    let bytes = be_bytes(boundary(draw) as nat, 8);
    if end <= offset {
        (data, draw)
    } else if end - offset >= 8 {
        (overlaid(data, end - 8, bytes), draw)
    } else {
        (overlaid(data, offset, bytes.skip(8 - (end - offset))), draw)
    }
}

/// The field at `offset` is set to all ones.
pub open spec fn boundary_max(data: Seq<u8>, offset: int) -> Seq<u8> {
    if field_end(data, offset) <= offset {
        data
    } else {
        overlaid(data, offset, repeated(0xff, field_end(data, offset) - offset))
    }
}

/// The data of a deposit after a mutation, and the generator state: in two of
/// four draws a boundary value of the amount, else a bit flip or a field
/// mutation.
pub open spec fn deposit_mutated(data: Seq<u8>, rng: u64) -> (Seq<u8>, u64) {
    let draw = xorshift(rng);
    if draw % 4 == 0 || draw % 4 == 1 {
        boundary_value(data, 4, draw)
    } else if draw % 4 == 2 {
        bit_flip(data, draw)
    } else {
        abi_field_mutate(data, draw)
    }
}

/// The data of a relay after a mutation, what is forced on the message, and the
/// generator state.
pub open spec fn relay_mutated(data: Seq<u8>, rng: u64) -> (
    Seq<u8>,
    CrossChainMutationMeta,
    u64,
) {
    let draw = xorshift(rng);
    let none = CrossChainMutationMeta::none();
    if draw % 5 == 0 || draw % 5 == 1 {
        (
            data,
            CrossChainMutationMeta {
                force_zero_merkle_root: after_draws(draw, 1) % 2 == 0,
                force_replay_nonce: after_draws(draw, 2) % 2 == 0,
                force_inflate_value: after_draws(draw, 3) % 2 == 0,
            },
            after_draws(draw, 3),
        )
    } else if draw % 5 == 2 {
        let zeroed = abi_field_zero(data, draw);
        (zeroed.0, none, zeroed.1)
    } else if draw % 5 == 3 {
        if data.len() == 0 {
            (data, none, draw)
        } else {
            let range = if data.len() < 64 {
                data.len() as int
            } else {
                64
            };
            let at = index_from(after_draws(draw, 1), range);
            let bit = (after_draws(draw, 2) % 8) as int;
            (data.update(at, data[at] ^ single_bit(bit)), none, after_draws(draw, 2))
        }
    } else {
        (
            boundary_max(data, 4),
            CrossChainMutationMeta { force_inflate_value: true, ..none },
            draw,
        )
    }
}

/// The byte in which only bit number `bit` is set.
pub open spec fn single_bit(bit: int) -> u8 {
    if bit == 0 {
        0x01
    } else if bit == 1 {
        0x02
    } else if bit == 2 {
        0x04
    } else if bit == 3 {
        0x08
    } else if bit == 4 {
        0x10
    } else if bit == 5 {
        0x20
    } else if bit == 6 {
        0x40
    } else {
        0x80
    }
}

/// The strategy for the next mutation, and the generator state: seven out of
/// ten draws explore, the others repeat the last strategy where there is one.
pub open spec fn strategy_picked(last: Option<CrossChainMutationStrategy>, rng: u64) -> (
    CrossChainMutationStrategy,
    u64,
) {
    let draw = after_draws(rng, 1);
    if draw % 100 < 70 || last is None {
        let second = after_draws(rng, 2);
        (
            if second % 4 == 0 {
                CrossChainMutationStrategy::BitFlip
            } else if second % 4 == 1 {
                CrossChainMutationStrategy::AbiFieldMutate
            } else if second % 4 == 2 {
                CrossChainMutationStrategy::StateAwareMutate
            } else {
                CrossChainMutationStrategy::BoundaryValue
            },
            second,
        )
    } else {
        (last->0, draw)
    }
}

/// Mutates the raw calldata of bridge transactions, and keeps the corpus of
/// calldata to start from.
#[derive(Debug)]
pub struct CrossChainMutator {
    /// Calldata to start from.
    pub corpus: Vec<Vec<u8>>,
    /// State of the generator behind all choices; never zero.
    pub rng: u64,
    /// Whether an ABI is at hand.
    pub abi_available: bool,
}

/// What a [`CrossChainMutator`] holds.
#[verifier::ext_equal]
pub struct MutatorView {
    pub corpus: Seq<Seq<u8>>,
    pub rng: u64,
    pub abi_available: bool,
}

impl MutatorView {
    /// After the draw by which the next corpus entry is selected, and the draw;
    /// nothing is drawn where the corpus is empty.
    pub open spec fn selection_drawn(self) -> (MutatorView, Option<u64>) {
        if self.corpus.len() == 0 {
            (self, None)
        } else {
            (MutatorView { rng: xorshift(self.rng), ..self }, Some(xorshift(self.rng)))
        }
    }
}

impl View for CrossChainMutator {
    type V = MutatorView;

    open spec fn view(&self) -> MutatorView {
        MutatorView {
            corpus: self.corpus@.map_values(|d: Vec<u8>| d@),
            rng: self.rng,
            abi_available: self.abi_available,
        }
    }
}

impl CrossChainMutator {
    pub fn new(seed: u64) -> (r: CrossChainMutator)
        ensures
            r@ == (MutatorView {
                corpus: Seq::empty(),
                rng: if seed == 0 {
                    0xdeadbeef
                } else {
                    seed
                },
                abi_available: false,
            }),
            r@.rng != 0,
    {
        let r = CrossChainMutator {
            corpus: Vec::new(),
            rng: if seed == 0 {
                0xdeadbeef
            } else {
                seed
            },
            abi_available: false,
        };
        assert(r@.corpus =~= Seq::<Seq<u8>>::empty());
        r
    }

    fn next_rand(&mut self) -> (r: u64)
        ensures
            r == xorshift(old(self)@.rng),
            final(self)@ == (MutatorView { rng: r, ..old(self)@ }),
    {
        xorshift64(&mut self.rng)
    }

    /// Appends calldata to the corpus.
    pub fn add_seed(&mut self, data: Vec<u8>)
        ensures
            final(self)@ == (MutatorView { corpus: old(self)@.corpus.push(data@), ..old(self)@ }),
    {
        self.corpus.push(data);
        assert(self@.corpus =~= old(self)@.corpus.push(data@));
    }

    /// The draw by which the next corpus entry is selected, in proportion to
    /// the weights that the caller keeps; nothing where the corpus is empty.
    pub fn draw_selection(&mut self) -> (r: Option<u64>)
        ensures
            (final(self)@, r) == old(self)@.selection_drawn(),
    {
        if self.corpus.len() == 0 {
            None
        } else {
            Some(self.next_rand())
        }
    }

    /// Picks the strategy for the next mutation.
    pub fn pick_strategy(
        &mut self,
        last_strategy: Option<&CrossChainMutationStrategy>,
    ) -> (r: CrossChainMutationStrategy)
        ensures
            ({
                let last = match last_strategy {
                    Some(s) => Some(*s),
                    None => None,
                };
                let p = strategy_picked(last, old(self)@.rng);
                r == p.0 && final(self)@ == (MutatorView { rng: p.1, ..old(self)@ })
            }),
    {
        proof {
            reveal_with_fuel(after_draws, 3);
        }
        let explore = (self.next_rand() % 100) < 70;
        match last_strategy {
            Some(s) if !explore => *s,
            _ => match self.next_rand() % 4 {
                0 => CrossChainMutationStrategy::BitFlip,
                1 => CrossChainMutationStrategy::AbiFieldMutate,
                2 => CrossChainMutationStrategy::StateAwareMutate,
                _ => CrossChainMutationStrategy::BoundaryValue,
            },
        }
    }

    /// Mutates the calldata of a deposit.
    pub fn mutate_deposit(&mut self, data: &mut Vec<u8>) -> (r: CrossChainMutationMeta)
        ensures
            r == CrossChainMutationMeta::none(),
            ({
                let m = deposit_mutated(old(data)@, old(self)@.rng);
                final(data)@ == m.0 && final(self)@ == (MutatorView { rng: m.1, ..old(self)@ })
            }),
    {
        match self.next_rand() % 4 {
            0 | 1 => self.apply_boundary_value(data, 4),
            2 => self.apply_bit_flip(data),
            _ => self.apply_abi_field_mutate(data),
        }
        CrossChainMutationMeta::default()
    }

    /// Mutates the calldata of a relay; says what the executor is to force on
    /// the message.
    pub fn mutate_relay(&mut self, data: &mut Vec<u8>) -> (r: CrossChainMutationMeta)
        ensures
            ({
                let m = relay_mutated(old(data)@, old(self)@.rng);
                &&& final(data)@ == m.0
                &&& r == m.1
                &&& final(self)@ == (MutatorView { rng: m.2, ..old(self)@ })
            }),
    {
        let mut meta = CrossChainMutationMeta::default();
        proof {
            reveal_with_fuel(after_draws, 4);
        }
        match self.next_rand() % 5 {
            0 | 1 => {
                meta.force_zero_merkle_root = self.next_rand() % 2 == 0;
                meta.force_replay_nonce = self.next_rand() % 2 == 0;
                meta.force_inflate_value = self.next_rand() % 2 == 0;
            },
            2 => {
                self.apply_abi_field_zero(data);
            },
            3 => {
                if data.len() > 0 {
                    let range: usize = if data.len() < 64 {
                        data.len()
                    } else {
                        64
                    };
                    let at: usize = reduce(self.next_rand(), range);
                    let bit: u64 = self.next_rand() % 8;
                    let b: u8 = data[at] ^ bit_mask(bit);
                    data.set(at, b);
                }
            },
            _ => {
                Self::apply_boundary_max(data, 4);
                meta.force_inflate_value = true;
            },
        }
        meta
    }

    fn apply_bit_flip(&mut self, data: &mut Vec<u8>)
        ensures
            (final(data)@, final(self)@.rng) == bit_flip(old(data)@, old(self)@.rng),
            final(self)@ == (MutatorView { rng: final(self)@.rng, ..old(self)@ }),
    {
        if data.len() == 0 {
            return;
        }
        proof {
            reveal_with_fuel(after_draws, 3);
        }
        let at: usize = reduce(self.next_rand(), data.len());
        let bits: u64 = (self.next_rand() % 8) + 1;
        let b: u8 = data[at] ^ low_mask(bits);
        data.set(at, b);
    }

    fn apply_abi_field_mutate(&mut self, data: &mut Vec<u8>)
        ensures
            (final(data)@, final(self)@.rng) == abi_field_mutate(old(data)@, old(self)@.rng),
            final(self)@ == (MutatorView { rng: final(self)@.rng, ..old(self)@ }),
    {
        if data.len() < 36 {
            return;
        }
        proof {
            reveal_with_fuel(after_draws, 3);
        }
        let ghost rng = self@.rng;
        let fields: usize = (data.len() - 4) / 32;
        let field: usize = reduce(self.next_rand(), fields);
        let start: usize = 4 + field * 32;
        let end: usize = start + 32;
        match self.next_rand() % 5 {
            0 => {
                fill(data, start, end, 0);
            },
            1 => {
                fill(data, start, end, 0xff);
            },
            2 => {
                let b: u8 = data[end - 1].wrapping_add(1);
                data.set(end - 1, b);
            },
            3 => {
                let b: u8 = data[end - 1].wrapping_sub(1);
                data.set(end - 1, b);
            },
            _ => {
                let ghost from = self@.rng;
                let mut i: usize = start;
                while i < end
                    invariant
                        start <= i <= end <= data@.len() == old(data)@.len(),
                        end == start + 32,
                        self@ == (MutatorView {
                            rng: after_draws(from, (i - start) as nat),
                            ..old(self)@
                        }),
                        data@ == overlaid(old(data)@, start as int, drawn_bytes(from, i - start)),
                    decreases end - i,
                {
                    let draw: u64 = self.next_rand();
                    data.set(i, (draw % 256) as u8);
                    i = i + 1;
                    assert(data@ =~= overlaid(
                        old(data)@,
                        start as int,
                        drawn_bytes(from, i - start),
                    ));
                }
                proof {
                    lemma_after_draws_adds(rng, 2, 32);
                }
            },
        }
    }

    fn apply_abi_field_zero(&mut self, data: &mut Vec<u8>)
        ensures
            (final(data)@, final(self)@.rng) == abi_field_zero(old(data)@, old(self)@.rng),
            final(self)@ == (MutatorView { rng: final(self)@.rng, ..old(self)@ }),
    {
        if data.len() < 36 {
            return;
        }
        proof {
            reveal_with_fuel(after_draws, 2);
        }
        let fields: usize = (data.len() - 4) / 32;
        let field: usize = reduce(self.next_rand(), fields);
        let start: usize = 4 + field * 32;
        fill(data, start, start + 32, 0);
    }

    fn apply_boundary_value(&mut self, data: &mut Vec<u8>, field_offset: usize)
        requires
            field_offset <= usize::MAX - 32,
        ensures
            (final(data)@, final(self)@.rng) == boundary_value(
                old(data)@,
                field_offset as int,
                old(self)@.rng,
            ),
            final(self)@ == (MutatorView { rng: final(self)@.rng, ..old(self)@ }),
    {
        proof {
            reveal_with_fuel(after_draws, 2);
        }
        let value: u64 = match reduce(self.next_rand(), 5) {
            0 => 0,
            1 | 2 => u64::MAX,
            3 => 0xffff_ffff,
            _ => 1,
        };
        let end: usize = if field_offset + 32 <= data.len() {
            field_offset + 32
        } else {
            data.len()
        };
        if end <= field_offset {
            return;
        }
        let bytes = to_be_bytes(value as u128, 8);
        proof {
            lemma_be_bytes_round_trip(value as nat, 8);
        }
        let write_start: usize = if end - field_offset >= 8 {
            end - 8
        } else {
            field_offset
        };
        let skipped: usize = 8 - (end - write_start);
        let mut i: usize = write_start;
        while i < end
            invariant
                write_start <= i <= end <= data@.len() == old(data)@.len(),
                bytes@.len() == 8,
                end - write_start + skipped == 8,
                data@ == overlaid(
                    old(data)@,
                    write_start as int,
                    bytes@.subrange(skipped as int, skipped + (i - write_start)),
                ),
            decreases end - i,
        {
            data.set(i, bytes[skipped + (i - write_start)]);
            i = i + 1;
            assert(data@ =~= overlaid(
                old(data)@,
                write_start as int,
                bytes@.subrange(skipped as int, skipped + (i - write_start)),
            ));
        }
        assert(bytes@.subrange(skipped as int, 8) =~= bytes@.skip(skipped as int));
        assert(bytes@.skip(0) =~= bytes@);
    }

    fn apply_boundary_max(data: &mut Vec<u8>, field_offset: usize)
        requires
            field_offset <= usize::MAX - 32,
        ensures
            final(data)@ == boundary_max(old(data)@, field_offset as int),
    {
        let end: usize = if field_offset + 32 <= data.len() {
            field_offset + 32
        } else {
            data.len()
        };
        if end <= field_offset {
            return;
        }
        fill(data, field_offset, end, 0xff);
    }
}

/// Sets the bytes from `start` to `end` to `b`.
fn fill(data: &mut Vec<u8>, start: usize, end: usize, b: u8)
    requires
        start <= end <= old(data)@.len(),
    ensures
        final(data)@ == overlaid(old(data)@, start as int, repeated(b, end - start)),
{
    let mut i: usize = start;
    assert(data@ =~= overlaid(old(data)@, start as int, repeated(b, 0)));
    while i < end
        invariant
            start <= i <= end <= data@.len() == old(data)@.len(),
            data@ == overlaid(old(data)@, start as int, repeated(b, i - start)),
        decreases end - i,
    {
        data.set(i, b);
        i = i + 1;
        assert(data@ =~= overlaid(old(data)@, start as int, repeated(b, i - start)));
    }
}

/// The byte in which only bit number `bit` is set.
fn bit_mask(bit: u64) -> (r: u8)
    requires
        bit < 8,
    ensures
        r == single_bit(bit as int),
{
    assert(1u8 << 0u64 == 0x01 && 1u8 << 1u64 == 0x02 && 1u8 << 2u64 == 0x04 && 1u8 << 3u64 == 0x08
        && 1u8 << 4u64 == 0x10 && 1u8 << 5u64 == 0x20 && 1u8 << 6u64 == 0x40 && 1u8 << 7u64
        == 0x80) by (bit_vector);
    1u8 << bit
}

/// The byte whose `bits` low bits are set.
fn low_mask(bits: u64) -> (r: u8)
    requires
        1 <= bits <= 8,
    ensures
        r == low_bits(bits as int),
{
    assert(1u16 << 1u64 == 2 && 1u16 << 2u64 == 4 && 1u16 << 3u64 == 8 && 1u16 << 4u64 == 16
        && 1u16 << 5u64 == 32 && 1u16 << 6u64 == 64 && 1u16 << 7u64 == 128 && 1u16 << 8u64 == 256)
        by (bit_vector);
    ((1u16 << bits) - 1) as u8
}

/// Draws add up.
pub proof fn lemma_after_draws_adds(rng: u64, a: nat, b: nat)
    ensures
        after_draws(after_draws(rng, a), b) == after_draws(rng, a + b),
    decreases b,
{
    if b > 0 {
        lemma_after_draws_adds(rng, a, (b - 1) as nat);
    }
}

// ----------------------------------------------------------------------- laws

/// What was looked at once stays in the pattern.
pub proof fn law_access_only_grows(a: AccessView, opcode: u8, top: Option<EVMU256>)
    ensures
        ({
            let b = a.decoded(opcode, top);
            &&& a.balance.is_prefix_of(b.balance)
            &&& a.caller ==> b.caller
            &&& a.call_value ==> b.call_value
            &&& a.gas_price ==> b.gas_price
            &&& a.number ==> b.number
            &&& a.coinbase ==> b.coinbase
            &&& a.timestamp ==> b.timestamp
            &&& a.prevrandao ==> b.prevrandao
            &&& a.gas_limit ==> b.gas_limit
            &&& a.chain_id ==> b.chain_id
            &&& a.basefee ==> b.basefee
        }),
{
}

/// No mutation changes the length of the calldata.
pub proof fn law_mutation_keeps_length(data: Seq<u8>, rng: u64)
    ensures
        deposit_mutated(data, rng).0.len() == data.len(),
        relay_mutated(data, rng).0.len() == data.len(),
{
}

/// A generator that is not in the state zero never gets there.
pub proof fn law_generator_stays_alive(
    data: Seq<u8>,
    rng: u64,
    last: Option<CrossChainMutationStrategy>,
    k: nat,
)
    requires
        rng != 0,
    ensures
        after_draws(rng, k) != 0,
        deposit_mutated(data, rng).1 != 0,
        relay_mutated(data, rng).2 != 0,
        strategy_picked(last, rng).1 != 0,
{
    let draw = xorshift(rng);
    lemma_xorshift_nonzero(rng);
    lemma_after_draws_nonzero(rng, k);
    lemma_after_draws_nonzero(rng, 1);
    lemma_after_draws_nonzero(rng, 2);
    lemma_after_draws_nonzero(draw, 1);
    lemma_after_draws_nonzero(draw, 2);
    lemma_after_draws_nonzero(draw, 3);
    lemma_after_draws_nonzero(draw, 34);
}

proof fn lemma_after_draws_nonzero(rng: u64, k: nat)
    requires
        rng != 0,
    ensures
        after_draws(rng, k) != 0,
    decreases k,
{
    if k > 0 {
        lemma_after_draws_nonzero(rng, (k - 1) as nat);
        lemma_xorshift_nonzero(after_draws(rng, (k - 1) as nat));
    }
}

/// Whether `after` differs from `before` between `start` and `end` at most.
pub open spec fn differs_within(before: Seq<u8>, after: Seq<u8>, start: int, end: int) -> bool {
    &&& after.len() == before.len()
    &&& forall|i: int|
        0 <= i < before.len() && !(start <= i < end) ==> #[trigger] after[i] == before[i]
}

/// A bit flip changes one byte, and does change it.
pub proof fn law_bit_flip_changes_one_byte(data: Seq<u8>, rng: u64)
    requires
        data.len() > 0,
    ensures
        exists|at: int|
            0 <= at < data.len() && #[trigger] differs_within(
                data,
                bit_flip(data, rng).0,
                at,
                at + 1,
            ) && bit_flip(data, rng).0[at] != data[at],
{
    let at = index_from(after_draws(rng, 1), data.len() as int);
    let mask = low_bits(after_draws(rng, 2) % 8 + 1);
    let b = data[at];
    assert(mask != 0 ==> b ^ mask != b) by (bit_vector);
    assert(differs_within(data, bit_flip(data, rng).0, at, at + 1));
}

/// A field mutation stays within one field: the selector, the other fields and
/// what follows the last whole field are as before.
pub proof fn law_field_mutation_is_local(data: Seq<u8>, rng: u64)
    ensures
        field_count(data) == 0 ==> abi_field_mutate(data, rng).0 == data && abi_field_zero(
            data,
            rng,
        ).0 == data,
        field_count(data) > 0 ==> exists|k: int|
            0 <= k < field_count(data) && #[trigger] differs_within(
                data,
                abi_field_mutate(data, rng).0,
                field_start(k),
                field_start(k + 1),
            ) && differs_within(
                data,
                abi_field_zero(data, rng).0,
                field_start(k),
                field_start(k + 1),
            ),
{
    if field_count(data) > 0 {
        let k = index_from(after_draws(rng, 1), field_count(data));
        assert(differs_within(
            data,
            abi_field_mutate(data, rng).0,
            field_start(k),
            field_start(k + 1),
        ));
    }
}

/// Raising the amount leaves the selector and what follows the amount as they
/// are, and so does a boundary value.
pub proof fn law_amount_mutation_keeps_selector(data: Seq<u8>, rng: u64)
    ensures
        differs_within(data, boundary_max(data, 4), 4, 36),
        differs_within(data, boundary_value(data, 4, rng).0, 4, 36),
{
    lemma_be_bytes_round_trip(boundary(after_draws(rng, 1)) as nat, 8);
}

} // verus!
