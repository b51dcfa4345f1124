//! The cross-chain campaign: each iteration mutates calldata, deposits, relays
//! and asks the oracles.
//!
//! The corpus entry of an iteration is selected by weights that the caller
//! keeps, and the caller holds the clock; all else is decided here.

use vstd::prelude::*;
use vstd::string::StringExecFns;

use crate::collections::SortedMap;
use crate::evm::cross_chain::executor::{
    first_nonce, initial_rng, seen_in, CrossChainMutationMeta, DualChainExecutor, ExecutorView,
};
use crate::evm::cross_chain::exploit_path::{ExploitPath, StepView};
use crate::evm::cross_chain::laws::{
    law_deposit_frame, law_deposit_keeps_same_but_path, law_relay_frame,
    law_replay_choice_shows_in_path_only, same_but_path,
};
use crate::evm::cross_chain::{
    CrossChainMessage, DualChainState, MessageStatus, MessageView, StateView,
};
use crate::evm::middlewares::cross_chain_interceptor::{zero_root, MockVerificationConfig};
use crate::evm::mutator::{
    deposit_mutated, relay_mutated, repeated, CrossChainMutator, MutatorView,
};
use crate::evm::oracles::access_control::{AccessControlOracle, ACCESS_CONTROL_BUG_IDX};
use crate::evm::oracles::cross_chain::{bugs_of, CrossChainOracle};
use crate::evm::oracles::integer_overflow::{
    some_wrapped, IntegerOverflowOracle, INTEGER_OVERFLOW_BUG_IDX,
};
use crate::evm::oracles::price_oracle_manip::{
    some_moved, PoolState, PriceOracleOracle, PRICE_ORACLE_BUG_IDX,
};
use crate::evm::oracles::report;
use crate::evm::types::{EVMAddress, EVMU256};
use crate::text::{decimal, to_decimal};

verus! {

/// How a campaign is run.
pub struct CrossChainFuzzerConfig {
    pub seed: Option<u64>,
    pub time_budget_secs: Option<u64>,
    pub max_iterations: Option<u64>,
    pub trace_log_path: Option<String>,
    /// Whether the clock is ignored.
    pub deterministic: bool,
    pub verify_config: MockVerificationConfig,
    pub token: EVMAddress,
}

impl Default for CrossChainFuzzerConfig {
    fn default() -> (r: CrossChainFuzzerConfig)
        ensures
            r.seed is None,
            r.time_budget_secs == Some(1800u64),
            r.max_iterations is None,
            r.trace_log_path is None,
            !r.deterministic,
            r.verify_config == (MockVerificationConfig {
                signature_threshold: 5,
                total_validators: 7,
                allow_insufficient_sigs: true,
                simulate_nomad_bypass: true,
            }),
            r.token.value() == 0,
    {
        CrossChainFuzzerConfig {
            seed: None,
            time_budget_secs: Some(1800),
            max_iterations: None,
            trace_log_path: None,
            deterministic: false,
            verify_config: MockVerificationConfig::default(),
            token: EVMAddress::default(),
        }
    }
}

/// What a campaign has found so far.
pub struct RunResult {
    pub iterations: u64,
    /// Each bug once, in the order of discovery.
    pub bugs_found: Vec<u64>,
    /// One path for each bug: the steps up to its discovery.
    pub exploit_paths: Vec<ExploitPath>,
}

/// What a [`RunResult`] holds.
#[verifier::ext_equal]
pub struct RunView {
    pub iterations: u64,
    pub bugs_found: Seq<u64>,
    pub exploit_paths: Seq<Seq<StepView>>,
}

impl View for RunResult {
    type V = RunView;

    open spec fn view(&self) -> RunView {
        RunView {
            iterations: self.iterations,
            bugs_found: self.bugs_found@,
            exploit_paths: self.exploit_paths@.map_values(|p: ExploitPath| p@),
        }
    }
}

impl RunView {
    /// Nothing was run.
    pub open spec fn empty() -> RunView {
        RunView { iterations: 0, bugs_found: Seq::empty(), exploit_paths: Seq::empty() }
    }

    /// The result after `bugs` were seen behind the steps of `path`: a bug that
    /// is not known is kept, with the path.
    pub open spec fn recorded(self, bugs: Seq<u64>, path: Seq<StepView>) -> RunView
        decreases bugs.len(),
    {
        if bugs.len() == 0 {
            self
        } else {
            let before = self.recorded(bugs.drop_last(), path);
            if before.bugs_found.contains(bugs.last()) {
                before
            } else {
                RunView {
                    bugs_found: before.bugs_found.push(bugs.last()),
                    exploit_paths: before.exploit_paths.push(path),
                    ..before
                }
            }
        }
    }

    /// No bug is listed twice, and each has its path.
    pub open spec fn wf(self) -> bool {
        &&& self.bugs_found.no_duplicates()
        &&& self.exploit_paths.len() == self.bugs_found.len()
    }
}

impl RunResult {
    /// The result before the first iteration.
    pub fn new() -> (r: RunResult)
        ensures
            r@ == RunView::empty(),
    {
        let r = RunResult { iterations: 0, bugs_found: Vec::new(), exploit_paths: Vec::new() };
        assert(r@ =~= RunView::empty());
        r
    }

    fn knows(&self, bug: u64) -> (r: bool)
        ensures
            r == self@.bugs_found.contains(bug),
    {
        let mut i: usize = 0;
        while i < self.bugs_found.len()
            invariant
                i <= self.bugs_found@.len(),
                forall|j: int| 0 <= j < i ==> self.bugs_found@[j] != bug,
            decreases self.bugs_found.len() - i,
        {
            if self.bugs_found[i] == bug {
                return true;
            }
            i = i + 1;
        }
        false
    }

    /// Keeps the bugs that are not known, each with a copy of the path.
    pub fn record(&mut self, bugs: &Vec<u64>, path: &ExploitPath)
        ensures
            final(self)@ == old(self)@.recorded(bugs@, path@),
    {
        let ghost start = self@;
        let mut i: usize = 0;
        assert(bugs@.take(0) =~= Seq::<u64>::empty());
        while i < bugs.len()
            invariant
                i <= bugs@.len(),
                self@ == start.recorded(bugs@.take(i as int), path@),
            decreases bugs.len() - i,
        {
            let ghost before = self@;
            assert(bugs@.take(i + 1).drop_last() =~= bugs@.take(i as int));
            assert(bugs@.take(i + 1).last() == bugs@[i as int]);
            if !self.knows(bugs[i]) {
                self.bugs_found.push(bugs[i]);
                self.exploit_paths.push(path.clone());
                assert(self@.exploit_paths =~= before.exploit_paths.push(path@));
            }
            i = i + 1;
        }
        assert(bugs@.take(bugs@.len() as int) =~= bugs@);
    }
}

/// What happens to the weight of a corpus entry.
#[derive(Clone, Copy, Debug, PartialEq, Eq, Structural)]
pub enum EnergyUpdate {
    Reward,
    Decay,
}

/// What happens to the weight of the entry that an iteration used: a new signal
/// is rewarded twice.
pub open spec fn energy_updates(new_signal: bool) -> Seq<EnergyUpdate> {
    if new_signal {
        seq![EnergyUpdate::Reward, EnergyUpdate::Reward]
    } else {
        seq![EnergyUpdate::Decay]
    }
}

/// A campaign.
pub struct CrossChainFuzzer {
    pub config: CrossChainFuzzerConfig,
    pub executor: DualChainExecutor,
    pub mutator: CrossChainMutator,
}

/// What a [`CrossChainFuzzer`] works on.
#[verifier::ext_equal]
pub struct FuzzerView {
    pub executor: ExecutorView,
    pub mutator: MutatorView,
}

impl View for CrossChainFuzzer {
    type V = FuzzerView;

    open spec fn view(&self) -> FuzzerView {
        FuzzerView { executor: self.executor@, mutator: self.mutator@ }
    }
}

/// The message that a deposit dispatches.
pub open spec fn synthesized(nonce: u64, meta: CrossChainMutationMeta) -> MessageView {
    MessageView {
        id: 0,
        nonce,
        sender: EVMAddress { hi: 0, lo: 0 },
        recipient: EVMAddress { hi: 0, lo: 0 },
        payload: repeated(0xab, 32),
        value: if meta.force_inflate_value {
            EVMU256::of(EVMU256::max_nat())
        } else {
            EVMU256::of(1000)
        },
        merkle_root: if meta.force_zero_merkle_root {
            zero_root()
        } else {
            repeated(1, 32)
        },
        status: MessageStatus::Pending,
        is_fake: false,
    }
}

/// The number of signatures in an iteration: too few in each seventh.
pub open spec fn sig_count_of(iteration: int) -> u32 {
    if iteration % 7 == 0 {
        1
    } else {
        5
    }
}

/// The corpus that a campaign starts with.
pub open spec fn initial_corpus() -> Seq<Seq<u8>> {
    seq![
        repeated(0, 64),
        repeated(0xff, 64),
        seq![0x12u8, 0x34, 0x56, 0x78] + repeated(0, 60),
    ]
}

impl FuzzerView {
    /// The calldata of a corpus entry; zeros where there is no such entry.
    pub open spec fn calldata(self, corpus_idx: int) -> Seq<u8> {
        if corpus_idx < self.mutator.corpus.len() {
            self.mutator.corpus[corpus_idx]
        } else {
            repeated(0, 64)
        }
    }

    /// The campaign after the deposit of an iteration: the entry is mutated in
    /// place, and a message is deposited.
    pub open spec fn deposited(self, token: EVMAddress, iteration: u64, corpus_idx: int) -> FuzzerView {
        let (data, rng) = deposit_mutated(self.calldata(corpus_idx), self.mutator.rng);
        let meta = CrossChainMutationMeta::none();
        FuzzerView {
            mutator: MutatorView {
                corpus: if corpus_idx < self.mutator.corpus.len() {
                    self.mutator.corpus.update(corpus_idx, data)
                } else {
                    self.mutator.corpus
                },
                rng,
                ..self.mutator
            },
            executor: self.executor.deposited(
                token,
                seq![synthesized(iteration, meta)],
                sig_count_of(iteration as int),
                meta,
            ),
        }
    }

    /// The campaign after the relay of an iteration: what is forced on the
    /// message is drawn, and the entry stays as it is.
    pub open spec fn relayed(
        self,
        token: EVMAddress,
        iteration: u64,
        corpus_idx: int,
        replay: Option<u64>,
    ) -> FuzzerView {
        let (data, meta, rng) = relay_mutated(self.calldata(corpus_idx), self.mutator.rng);
        FuzzerView {
            mutator: MutatorView { rng, ..self.mutator },
            executor: self.executor.relayed(token, sig_count_of(iteration + 1), meta, replay).0,
        }
    }

    /// The campaign after an iteration.
    pub open spec fn iterated(
        self,
        token: EVMAddress,
        iteration: u64,
        corpus_idx: int,
        replay: Option<u64>,
    ) -> FuzzerView {
        self.deposited(token, iteration, corpus_idx).relayed(token, iteration, corpus_idx, replay)
    }

    /// Whether no counter is used up by the next iteration.
    pub open spec fn has_room(self, result: RunView) -> bool {
        &&& result.iterations + 2 <= u64::MAX
        &&& self.executor.iteration + 2 <= u64::MAX
        &&& self.executor.state.queue.next_id < u64::MAX
    }

    /// The number of processed messages.
    pub open spec fn processed(self) -> nat {
        self.executor.state.queue.of_status(MessageStatus::Processed).len()
    }

    /// Whether an iteration that started in `self` and ended in `after` gave a
    /// new signal: a bug shows, or a message was processed.
    pub open spec fn signalled(self, after: FuzzerView) -> bool {
        bugs_of(after.executor.state).len() > 0 || after.processed() > self.processed()
    }

    /// What is known after the iteration that ended in `self`.
    pub open spec fn reported(self, result: RunView) -> RunView {
        RunView { iterations: (result.iterations + 1) as u64, ..result }.recorded(
            bugs_of(self.executor.state),
            self.executor.exploit_path,
        )
    }
}

impl CrossChainFuzzerConfig {
    /// The campaign before its first iteration.
    pub open spec fn started(self) -> FuzzerView {
        FuzzerView {
            executor: ExecutorView {
                state: StateView::empty(),
                rng_state: initial_rng(self.seed),
                fixed_seed: self.seed,
                trace_log_path: match self.trace_log_path {
                    Some(p) => Some(p@),
                    None => None,
                },
                verify_config: self.verify_config,
                iteration: 0,
                run_id: 0,
                exploit_path: Seq::empty(),
                trace: Seq::empty(),
            },
            mutator: MutatorView {
                corpus: initial_corpus(),
                rng: match self.seed {
                    Some(s) if s != 0 => s,
                    _ => 0xdeadbeef,
                },
                abi_available: false,
            },
        }
    }

    /// Whether a campaign goes on after `iteration` iterations: there are more to
    /// run, and the clock is ignored, not set or not past the deadline.
    pub open spec fn continues(self, iteration: u64, past_deadline: bool) -> bool {
        &&& iteration < match self.max_iterations {
            Some(n) => n,
            None => u64::MAX,
        }
        &&& self.deterministic || self.time_budget_secs is None || !past_deadline
    }

    /// Whether two configurations are equal but for the time budget.
    pub open spec fn equal_but_budget(self, other: CrossChainFuzzerConfig) -> bool {
        &&& self.seed == other.seed
        &&& self.max_iterations == other.max_iterations
        &&& self.trace_log_path is Some == other.trace_log_path is Some
        &&& self.trace_log_path is Some ==> self.trace_log_path->0@ == other.trace_log_path->0@
        &&& self.deterministic == other.deterministic
        &&& self.verify_config == other.verify_config
        &&& self.token == other.token
    }
}

impl CrossChainFuzzer {
    /// The campaign that `config` describes, before its first iteration.
    pub fn new(config: CrossChainFuzzerConfig) -> (r: CrossChainFuzzer)
        ensures
            r.config == config,
            r@ == config.started(),
    {
        let mut executor = DualChainExecutor::new(
            DualChainState::new(),
            config.seed,
            config.verify_config,
        );
        if let Some(path) = &config.trace_log_path {
            executor.set_trace_log(path.clone());
        }
        let seed: u64 = match config.seed {
            Some(s) => s,
            None => 0xdeadbeef,
        };
        let mut mutator = CrossChainMutator::new(seed);
        let zeros = vec![0u8; 64];
        assert(zeros@ =~= repeated(0, 64));
        mutator.add_seed(zeros);
        let ones = vec![0xffu8; 64];
        assert(ones@ =~= repeated(0xff, 64));
        mutator.add_seed(ones);
        let mut call = vec![0u8; 64];
        call.set(0, 0x12);
        call.set(1, 0x34);
        call.set(2, 0x56);
        call.set(3, 0x78);
        assert(call@ =~= seq![0x12u8, 0x34, 0x56, 0x78] + repeated(0, 60));
        mutator.add_seed(call);
        assert(mutator@.corpus =~= initial_corpus());
        CrossChainFuzzer { config, executor, mutator }
    }

    /// Whether the campaign goes on after `iteration` iterations;
    /// `past_deadline` says whether the time budget is used up.
    pub fn goes_on(&self, iteration: u64, past_deadline: bool) -> (r: bool)
        ensures
            r == self.config.continues(iteration, past_deadline),
    {
        let max_iter: u64 = match self.config.max_iterations {
            Some(n) => n,
            None => u64::MAX,
        };
        iteration < max_iter && (self.config.deterministic || self.config.time_budget_secs.is_none()
            || !past_deadline)
    }

    /// A copy of the calldata of a corpus entry.
    fn calldata(&self, corpus_idx: usize) -> (r: Vec<u8>)
        ensures
            r@ == self@.calldata(corpus_idx as int),
    {
        if corpus_idx < self.mutator.corpus.len() {
            let r = self.mutator.corpus[corpus_idx].clone();
            assert(r@ =~= self@.calldata(corpus_idx as int));
            r
        } else {
            let r = vec![0u8; 64];
            assert(r@ =~= repeated(0, 64));
            r
        }
    }

    fn synthesize_deposit_message(&self, nonce: u64, meta: &CrossChainMutationMeta) -> (r:
        CrossChainMessage)
        ensures
            r@ == synthesized(nonce, *meta),
    {
        let payload = vec![0xabu8; 32];
        assert(payload@ =~= repeated(0xab, 32));
        let merkle_root = if meta.force_zero_merkle_root {
            [0u8; 32]
        } else {
            [1u8; 32]
        };
        assert(meta.force_zero_merkle_root ==> merkle_root@ =~= zero_root());
        assert(!meta.force_zero_merkle_root ==> merkle_root@ =~= repeated(1, 32));
        let value = if meta.force_inflate_value {
            EVMU256::max_value()
        } else {
            EVMU256::from(1000u64)
        };
        CrossChainMessage::new(
            nonce,
            EVMAddress::default(),
            EVMAddress::default(),
            payload,
            value,
            merkle_root,
            false,
        )
    }

    fn fuzz_sig_count(&self, iteration: u64) -> (r: u32)
        ensures
            r == sig_count_of(iteration as int),
    {
        if iteration % 7 == 0 {
            1
        } else {
            5
        }
    }

    fn deposit_phase(&mut self, iteration: u64, corpus_idx: usize)
        requires
            old(self).executor.iteration < u64::MAX,
            old(self).executor.state.queue.next_id < u64::MAX,
        ensures
            final(self).config == old(self).config,
            final(self)@ == old(self)@.deposited(
                old(self).config.token,
                iteration,
                corpus_idx as int,
            ),
    {
        let mut data = self.calldata(corpus_idx);
        let meta = self.mutator.mutate_deposit(&mut data);
        if corpus_idx < self.mutator.corpus.len() {
            let ghost corpus = self.mutator@.corpus;
            let ghost stored = data@;
            self.mutator.corpus.set(corpus_idx, data);
            assert(self.mutator@.corpus =~= corpus.update(corpus_idx as int, stored));
        }
        let msg = self.synthesize_deposit_message(iteration, &meta);
        let sig_count: u32 = self.fuzz_sig_count(iteration);
        let captured = vec![msg];
        assert(captured@.map_values(|m: CrossChainMessage| m@) =~= seq![
            synthesized(iteration, meta),
        ]);
        self.executor.execute_deposit(self.config.token, captured, sig_count, Some(&meta));
    }

    fn relay_phase(&mut self, iteration: u64, corpus_idx: usize, replay: Option<u64>)
        requires
            old(self).executor.iteration < u64::MAX,
            iteration < u64::MAX,
        ensures
            final(self).config == old(self).config,
            final(self)@ == old(self)@.relayed(
                old(self).config.token,
                iteration,
                corpus_idx as int,
                replay,
            ),
    {
        let mut data = self.calldata(corpus_idx);
        let meta = self.mutator.mutate_relay(&mut data);
        let sig_count: u32 = self.fuzz_sig_count(iteration + 1);
        self.executor.execute_relay_with(self.config.token, sig_count, Some(&meta), replay);
    }

    /// Whether no counter is used up by the next iteration.
    pub fn can_step(&self, result: &RunResult) -> (r: bool)
        ensures
            r == self@.has_room(result@),
    {
        result.iterations <= u64::MAX - 2 && self.executor.iteration <= u64::MAX - 2
            && self.executor.state.queue.next_id < u64::MAX
    }

    /// One iteration on the corpus entry `corpus_idx`; says what happens to the
    /// weight of the entry.
    pub fn step(&mut self, result: &mut RunResult, corpus_idx: usize) -> (r: Vec<EnergyUpdate>)
        requires
            old(self)@.has_room(old(result)@),
        ensures
            final(self).config == old(self).config,
            final(result)@ == final(self)@.reported(old(result)@),
            r@ == energy_updates(old(self)@.signalled(final(self)@)),
            exists|replay: Option<u64>|
                #![trigger seen_in(replay, old(self)@.executor.state.queue.processed_nonces)]
                {
                    &&& seen_in(replay, old(self)@.executor.state.queue.processed_nonces)
                    &&& final(self)@ == old(self)@.iterated(
                        old(self).config.token,
                        (old(result).iterations + 1) as u64,
                        corpus_idx as int,
                        replay,
                    )
                },
    {
        let replay: Option<u64> = first_nonce(&self.executor.state.queue.processed_nonces);
        assert(seen_in(replay, old(self)@.executor.state.queue.processed_nonces));
        self.step_with(result, corpus_idx, replay)
    }

    /// As [`CrossChainFuzzer::step`], with the nonce to replay given.
    pub fn step_with(
        &mut self,
        result: &mut RunResult,
        corpus_idx: usize,
        replay: Option<u64>,
    ) -> (r: Vec<EnergyUpdate>)
        requires
            old(self)@.has_room(old(result)@),
        ensures
            final(self).config == old(self).config,
            final(self)@ == old(self)@.iterated(
                old(self).config.token,
                (old(result).iterations + 1) as u64,
                corpus_idx as int,
                replay,
            ),
            final(result)@ == final(self)@.reported(old(result)@),
            r@ == energy_updates(old(self)@.signalled(final(self)@)),
    {
        result.iterations = result.iterations + 1;
        let iteration: u64 = result.iterations;
        let prev_processed: usize = self.executor.state.queue.processed_count();
        self.deposit_phase(iteration, corpus_idx);
        proof {
            lemma_deposit_counts(old(self)@, self.config.token, iteration, corpus_idx as int);
        }
        self.relay_phase(iteration, corpus_idx, replay);
        let bugs = CrossChainOracle::inspect(&self.executor.state);
        let new_signal = bugs.len() > 0 || self.executor.state.queue.processed_count()
            > prev_processed;
        result.record(&bugs, &self.executor.exploit_path);
        let mut updates: Vec<EnergyUpdate> = Vec::new();
        if new_signal {
            updates.push(EnergyUpdate::Reward);
            updates.push(EnergyUpdate::Reward);
        } else {
            updates.push(EnergyUpdate::Decay);
        }
        assert(updates@ =~= energy_updates(new_signal));
        updates
    }
}

/// A deposit takes one step of the executor's counter and at most one identifier.
proof fn lemma_deposit_counts(f: FuzzerView, token: EVMAddress, iteration: u64, corpus_idx: int)
    ensures
        f.deposited(token, iteration, corpus_idx).executor.iteration == (f.executor.iteration
            + 1) as u64,
        f.executor.state.queue.next_id < u64::MAX ==> f.deposited(
            token,
            iteration,
            corpus_idx,
        ).executor.state.queue.next_id <= f.executor.state.queue.next_id + 1,
{
    let meta = CrossChainMutationMeta::none();
    let captured = seq![synthesized(iteration, meta)];
    reveal_with_fuel(ExecutorView::deposited_all, 2);
    assert(captured.drop_last() =~= Seq::<MessageView>::empty());
}

/// The file that a bug's path is written to, next to the trace log.
pub fn replay_path(log_path: &str, bug_idx: u64) -> (r: String)
    ensures
        r@ == log_path@ + ".exploit_"@ + decimal(bug_idx as nat) + ".json"@,
{
    let mut r = log_path.to_owned();
    r.append(".exploit_");
    r.append(to_decimal(bug_idx).as_str());
    r.append(".json");
    r
}

/// The storage before the `(slot, pre, post)` changes; of a slot that changed
/// more than once the last change counts.
pub open spec fn storage_before(changes: Seq<(EVMU256, EVMU256, EVMU256)>) -> Map<EVMU256, EVMU256>
    decreases changes.len(),
{
    if changes.len() == 0 {
        Map::empty()
    } else {
        storage_before(changes.drop_last()).insert(changes.last().0, changes.last().1)
    }
}

/// The storage after the `(slot, pre, post)` changes; of a slot that changed
/// more than once the last change counts.
pub open spec fn storage_after(changes: Seq<(EVMU256, EVMU256, EVMU256)>) -> Map<EVMU256, EVMU256>
    decreases changes.len(),
{
    if changes.len() == 0 {
        Map::empty()
    } else {
        storage_after(changes.drop_last()).insert(changes.last().0, changes.last().2)
    }
}

/// Asks the oracles for access control, integer overflow and price
/// manipulation; `moved` says of each pool of `post_pools` whether its price
/// left the tolerated range. Prices are compared with the oracle's own snapshot.
pub fn run_gap_oracles(
    caller: EVMAddress,
    slot_changes: &[(EVMU256, EVMU256, EVMU256)],
    _pre_pools: &[PoolState],
    post_pools: &[PoolState],
    moved: &[bool],
    ac_oracle: &AccessControlOracle,
    price_oracle: &PriceOracleOracle,
) -> (r: Vec<u64>)
    requires
        moved@.len() == post_pools@.len(),
    ensures
        r@ == report(
            ac_oracle.breached(
                caller,
                storage_before(slot_changes@),
                storage_after(slot_changes@),
            ),
            ACCESS_CONTROL_BUG_IDX,
        ) + report(some_wrapped(slot_changes@), INTEGER_OVERFLOW_BUG_IDX) + report(
            some_moved(price_oracle.pre_pools@, post_pools@, moved@),
            PRICE_ORACLE_BUG_IDX,
        ),
{
    let mut slot_before: SortedMap<EVMU256, EVMU256> = SortedMap::new();
    let mut slot_after: SortedMap<EVMU256, EVMU256> = SortedMap::new();
    let mut i: usize = 0;
    while i < slot_changes.len()
        invariant
            i <= slot_changes@.len(),
            slot_before@ == storage_before(slot_changes@.take(i as int)),
            slot_after@ == storage_after(slot_changes@.take(i as int)),
        decreases slot_changes.len() - i,
    {
        let (slot, pre, post) = slot_changes[i];
        assert(slot_changes@.take(i + 1).drop_last() =~= slot_changes@.take(i as int));
        slot_before.insert(slot, pre);
        slot_after.insert(slot, post);
        i = i + 1;
    }
    assert(slot_changes@.take(i as int) =~= slot_changes@);
    let mut bugs = ac_oracle.inspect(caller, &slot_before, &slot_after);
    let mut overflow = IntegerOverflowOracle::inspect(slot_changes);
    bugs.append(&mut overflow);
    let mut price = price_oracle.inspect(post_pools, moved);
    bugs.append(&mut price);
    bugs
}

// ----------------------------------------------------------------------- laws

/// Recording keeps what was known, lists no bug twice, gives each its path, and
/// afterwards every bug that was seen is known and none besides.
pub proof fn law_record(r: RunView, bugs: Seq<u64>, path: Seq<StepView>)
    requires
        r.wf(),
    ensures
        ({
            let after = r.recorded(bugs, path);
            &&& after.wf()
            &&& after.iterations == r.iterations
            &&& r.bugs_found.is_prefix_of(after.bugs_found)
            &&& r.exploit_paths.is_prefix_of(after.exploit_paths)
            &&& forall|b: u64| #[trigger]
                after.bugs_found.contains(b) == (r.bugs_found.contains(b) || bugs.contains(b))
            &&& forall|i: int|
                r.exploit_paths.len() <= i < after.exploit_paths.len() ==> #[trigger]
                after.exploit_paths[i] == path
        }),
    decreases bugs.len(),
{
    if bugs.len() > 0 {
        let init = bugs.drop_last();
        let last = bugs.last();
        law_record(r, init, path);
        let before = r.recorded(init, path);
        let after = r.recorded(bugs, path);
        assert forall|b: u64| bugs.contains(b) == (init.contains(b) || b == last) by {
            if bugs.contains(b) {
                let i = choose|i: int| 0 <= i < bugs.len() && bugs[i] == b;
                if i < init.len() {
                    assert(init[i] == b);
                }
            }
            if init.contains(b) {
                let i = choose|i: int| 0 <= i < init.len() && init[i] == b;
                assert(bugs[i] == b);
            }
            assert(bugs[bugs.len() - 1] == last);
        }
        assert forall|b: u64| #[trigger]
            after.bugs_found.contains(b) == (r.bugs_found.contains(b) || bugs.contains(b)) by {
            if after != before {
                if before.bugs_found.contains(b) {
                    let i = choose|i: int|
                        0 <= i < before.bugs_found.len() && before.bugs_found[i] == b;
                    assert(after.bugs_found[i] == b);
                }
                if b == last {
                    assert(after.bugs_found[before.bugs_found.len() as int] == b);
                }
            }
        }
    }
}

/// After an iteration every bug that the state shows is known.
pub proof fn law_no_bug_is_missed(f: FuzzerView, result: RunView)
    requires
        result.wf(),
    ensures
        f.reported(result).wf(),
        forall|b: u64| #[trigger]
            bugs_of(f.executor.state).contains(b) ==> f.reported(result).bugs_found.contains(b),
{
    law_record(
        RunView { iterations: (result.iterations + 1) as u64, ..result },
        bugs_of(f.executor.state),
        f.executor.exploit_path,
    );
}

/// How the counters of a campaign that was run from its start stand: two steps
/// of the executor for each iteration, and at most one message.
pub open spec fn in_step(f: FuzzerView, result: RunView) -> bool {
    &&& f.executor.iteration == 2 * result.iterations
    &&& f.executor.state.queue.next_id <= result.iterations
}

/// A campaign that was run from its start has room for as many iterations as
/// half the range of its counters.
pub proof fn law_room_lasts(
    f: FuzzerView,
    result: RunView,
    token: EVMAddress,
    corpus_idx: int,
    replay: Option<u64>,
)
    requires
        in_step(f, result),
        2 * result.iterations + 2 <= u64::MAX,
    ensures
        f.has_room(result),
        ({
            let after = f.iterated(token, (result.iterations + 1) as u64, corpus_idx, replay);
            in_step(after, after.reported(result))
        }),
{
    let iteration = (result.iterations + 1) as u64;
    lemma_deposit_counts(f, token, iteration, corpus_idx);
    let f1 = f.deposited(token, iteration, corpus_idx);
    let relay = relay_mutated(f1.calldata(corpus_idx), f1.mutator.rng);
    let sig_count = sig_count_of(iteration + 1);
    law_relay_frame(f1.executor, token, sig_count, relay.1, replay);
    lemma_relay_counts(f1.executor, token, sig_count, relay.1, replay);
    let after = f.iterated(token, iteration, corpus_idx, replay);
    lemma_reported_iterations(after, result);
}

/// A relay takes one step of the executor's counter.
proof fn lemma_relay_counts(
    e: ExecutorView,
    token: EVMAddress,
    sig_count: u32,
    meta: CrossChainMutationMeta,
    replay: Option<u64>,
)
    ensures
        e.relayed(token, sig_count, meta, replay).0.iteration == (e.iteration + 1) as u64,
{
}

/// What a campaign and its result have in common with another: all but the
/// steps in the recorded paths.
pub open spec fn agree(f: FuzzerView, g: FuzzerView) -> bool {
    f.mutator == g.mutator && same_but_path(f.executor, g.executor)
}

/// Two campaigns that agree still agree after an iteration on the same entry,
/// whatever nonces were replayed; they give the same signal and find the same
/// bugs.
pub proof fn law_iterations_agree(
    f: FuzzerView,
    g: FuzzerView,
    token: EVMAddress,
    iteration: u64,
    corpus_idx: int,
    replay: Option<u64>,
    other: Option<u64>,
    r: RunView,
    q: RunView,
)
    requires
        agree(f, g),
        seen_in(replay, f.executor.state.queue.processed_nonces),
        seen_in(other, g.executor.state.queue.processed_nonces),
        r.bugs_found == q.bugs_found,
    ensures
        ({
            let after_f = f.iterated(token, iteration, corpus_idx, replay);
            let after_g = g.iterated(token, iteration, corpus_idx, other);
            &&& agree(after_f, after_g)
            &&& f.signalled(after_f) == g.signalled(after_g)
            &&& after_f.reported(r).bugs_found == after_g.reported(q).bugs_found
        }),
{
    let meta = CrossChainMutationMeta::none();
    let captured = seq![synthesized(iteration, meta)];
    let sig_count = sig_count_of(iteration as int);
    law_deposit_keeps_same_but_path(f.executor, g.executor, token, captured, sig_count, meta);
    law_deposit_frame(f.executor, token, captured, sig_count, meta);
    law_deposit_frame(g.executor, token, captured, sig_count, meta);
    let f1 = f.deposited(token, iteration, corpus_idx);
    let g1 = g.deposited(token, iteration, corpus_idx);
    assert(f1.executor.state.queue.processed_nonces == f.executor.state.queue.processed_nonces);
    let relay = relay_mutated(f1.calldata(corpus_idx), f1.mutator.rng);
    law_replay_choice_shows_in_path_only(
        f1.executor,
        g1.executor,
        token,
        sig_count_of(iteration + 1),
        relay.1,
        replay,
        other,
    );
    let after_f = f.iterated(token, iteration, corpus_idx, replay);
    let after_g = g.iterated(token, iteration, corpus_idx, other);
    assert(after_f.executor.state == after_g.executor.state);
    lemma_recorded_bugs(
        RunView { iterations: (r.iterations + 1) as u64, ..r },
        RunView { iterations: (q.iterations + 1) as u64, ..q },
        bugs_of(after_f.executor.state),
        after_f.executor.exploit_path,
        after_g.executor.exploit_path,
    );
}

/// Which bugs are known does not depend on the paths.
proof fn lemma_recorded_bugs(
    r: RunView,
    q: RunView,
    bugs: Seq<u64>,
    path: Seq<StepView>,
    other: Seq<StepView>,
)
    requires
        r.bugs_found == q.bugs_found,
    ensures
        r.recorded(bugs, path).bugs_found == q.recorded(bugs, other).bugs_found,
    decreases bugs.len(),
{
    if bugs.len() > 0 {
        lemma_recorded_bugs(r, q, bugs.drop_last(), path, other);
    }
}

/// How the entry of an iteration is selected: by any function of the draws up to
/// then and of what happened to the weights before.
pub type Selection = spec_fn(Seq<Option<u64>>, Seq<Seq<EnergyUpdate>>) -> int;

/// A campaign that is under way, with what its selections go by.
#[verifier::ext_equal]
pub struct CampaignView {
    pub fuzzer: FuzzerView,
    pub result: RunView,
    /// The draw of each iteration.
    pub draws: Seq<Option<u64>>,
    /// What each iteration did to the weight of its entry.
    pub updates: Seq<Seq<EnergyUpdate>>,
}

impl CampaignView {
    /// A campaign before its first iteration.
    pub open spec fn start(fuzzer: FuzzerView) -> CampaignView {
        CampaignView {
            fuzzer,
            result: RunView::empty(),
            draws: Seq::empty(),
            updates: Seq::empty(),
        }
    }

    /// After one more iteration: an entry is drawn and selected, the iteration is
    /// run on it, and its bugs are recorded.
    pub open spec fn advanced(
        self,
        token: EVMAddress,
        select: Selection,
        replay: Option<u64>,
    ) -> CampaignView {
        let (mutator, draw) = self.fuzzer.mutator.selection_drawn();
        let f = FuzzerView { mutator, ..self.fuzzer };
        let draws = self.draws.push(draw);
        let corpus_idx = select(draws, self.updates);
        let after = f.iterated(token, (self.result.iterations + 1) as u64, corpus_idx, replay);
        CampaignView {
            fuzzer: after,
            result: after.reported(self.result),
            draws,
            updates: self.updates.push(energy_updates(f.signalled(after))),
        }
    }

    /// After `n` iterations, with the nonces `replays` at hand for replay.
    pub open spec fn ran(
        self,
        token: EVMAddress,
        select: Selection,
        replays: Seq<Option<u64>>,
        n: nat,
    ) -> CampaignView
        decreases n,
    {
        if n == 0 {
            self
        } else {
            self.ran(token, select, replays, (n - 1) as nat).advanced(
                token,
                select,
                replays[n - 1],
            )
        }
    }

    /// Whether each nonce at hand for the first `n` iterations is one that was
    /// processed by then.
    pub open spec fn can_replay(
        self,
        token: EVMAddress,
        select: Selection,
        replays: Seq<Option<u64>>,
        n: nat,
    ) -> bool {
        forall|k: nat|
            k < n ==> seen_in(
                replays[k as int],
                (#[trigger] self.ran(
                    token,
                    select,
                    replays,
                    k,
                )).fuzzer.executor.state.queue.processed_nonces,
            )
    }
}

/// Whether `n` iterations are a whole run of a campaign: it goes on before each
/// of them, and not after the last. `late` says after how many iterations the
/// clock is past the deadline.
pub open spec fn whole_run(
    config: CrossChainFuzzerConfig,
    select: Selection,
    replays: Seq<Option<u64>>,
    late: spec_fn(nat) -> bool,
    n: nat,
) -> bool {
    let start = CampaignView::start(config.started());
    &&& start.can_replay(config.token, select, replays, n)
    &&& forall|k: nat|
        k < n ==> config.continues(
            (#[trigger] start.ran(config.token, select, replays, k)).result.iterations,
            late(k),
        )
    &&& !config.continues(start.ran(config.token, select, replays, n).result.iterations, late(n))
}

/// The result counts the iterations.
pub proof fn law_iterations_are_counted(
    f: FuzzerView,
    token: EVMAddress,
    select: Selection,
    replays: Seq<Option<u64>>,
    n: nat,
)
    requires
        n <= u64::MAX,
    ensures
        CampaignView::start(f).ran(token, select, replays, n).result.iterations == n,
    decreases n,
{
    if n > 0 {
        let k = (n - 1) as nat;
        law_iterations_are_counted(f, token, select, replays, k);
        let before = CampaignView::start(f).ran(token, select, replays, k);
        let after = before.advanced(token, select, replays[n - 1]);
        lemma_reported_iterations(after.fuzzer, before.result);
    }
}

/// A deterministic campaign with a limit ends after exactly that many iterations,
/// whatever the clock says: so many are a whole run, and no other number is.
pub proof fn law_deterministic_run_meets_its_limit(
    config: CrossChainFuzzerConfig,
    select: Selection,
    replays: Seq<Option<u64>>,
    late: spec_fn(nat) -> bool,
    n: nat,
    limit: u64,
)
    requires
        config.deterministic,
        config.max_iterations == Some(limit),
        CampaignView::start(config.started()).can_replay(config.token, select, replays, n),
    ensures
        whole_run(config, select, replays, late, n) <==> n == limit,
        n == limit ==> CampaignView::start(config.started()).ran(
            config.token,
            select,
            replays,
            n,
        ).result.iterations == limit,
{
    let start = CampaignView::start(config.started());
    let bound = limit as nat;
    assert forall|k: nat| k <= bound implies (#[trigger] start.ran(
        config.token,
        select,
        replays,
        k,
    )).result.iterations == k by {
        law_iterations_are_counted(config.started(), config.token, select, replays, k);
    }
    let there = start.ran(config.token, select, replays, bound);
    assert(!config.continues(there.result.iterations, late(bound)));
}

/// Whether two campaigns that are under way have all in common but the steps in
/// the recorded paths.
pub open spec fn campaigns_agree(a: CampaignView, b: CampaignView) -> bool {
    &&& agree(a.fuzzer, b.fuzzer)
    &&& a.draws == b.draws
    &&& a.updates == b.updates
    &&& a.result.iterations == b.result.iterations
    &&& a.result.bugs_found == b.result.bugs_found
}

/// Two campaigns that agree still do so after one more iteration.
proof fn lemma_advanced_agree(
    a: CampaignView,
    b: CampaignView,
    token: EVMAddress,
    select: Selection,
    replay: Option<u64>,
    other: Option<u64>,
)
    requires
        campaigns_agree(a, b),
        seen_in(replay, a.fuzzer.executor.state.queue.processed_nonces),
        seen_in(other, b.fuzzer.executor.state.queue.processed_nonces),
    ensures
        campaigns_agree(a.advanced(token, select, replay), b.advanced(token, select, other)),
{
    let (mutator, draw) = a.fuzzer.mutator.selection_drawn();
    let fa = FuzzerView { mutator, ..a.fuzzer };
    let fb = FuzzerView { mutator, ..b.fuzzer };
    let corpus_idx = select(a.draws.push(draw), a.updates);
    let iteration = (a.result.iterations + 1) as u64;
    law_iterations_agree(
        fa,
        fb,
        token,
        iteration,
        corpus_idx,
        replay,
        other,
        a.result,
        b.result,
    );
    let after_a = fa.iterated(token, iteration, corpus_idx, replay);
    let after_b = fb.iterated(token, iteration, corpus_idx, other);
    lemma_reported_iterations(after_a, a.result);
    lemma_reported_iterations(after_b, b.result);
    assert(a.advanced(token, select, replay).fuzzer == after_a);
    assert(b.advanced(token, select, other).fuzzer == after_b);
}

proof fn lemma_reported_iterations(f: FuzzerView, result: RunView)
    ensures
        f.reported(result).iterations == (result.iterations + 1) as u64,
{
    lemma_recorded_iterations(
        RunView { iterations: (result.iterations + 1) as u64, ..result },
        bugs_of(f.executor.state),
        f.executor.exploit_path,
    );
}

/// Iterations are reproducible: two campaigns with one start whose entries are
/// selected in the same way from draws and weights draw the same, select the
/// same and find the same bugs in the same order, though each may have replayed
/// other nonces.
pub proof fn law_runs_are_reproducible(
    f: FuzzerView,
    token: EVMAddress,
    select: Selection,
    replays: Seq<Option<u64>>,
    others: Seq<Option<u64>>,
    n: nat,
)
    requires
        CampaignView::start(f).can_replay(token, select, replays, n),
        CampaignView::start(f).can_replay(token, select, others, n),
    ensures
        campaigns_agree(
            CampaignView::start(f).ran(token, select, replays, n),
            CampaignView::start(f).ran(token, select, others, n),
        ),
    decreases n,
{
    if n > 0 {
        let k = (n - 1) as nat;
        law_runs_are_reproducible(f, token, select, replays, others, k);
        lemma_advanced_agree(
            CampaignView::start(f).ran(token, select, replays, k),
            CampaignView::start(f).ran(token, select, others, k),
            token,
            select,
            replays[n - 1],
            others[n - 1],
        );
    }
}

/// Equal configurations give equal results: two whole runs of deterministic
/// campaigns with one seed and one limit end after that many iterations and find
/// the same bugs in the same order, whatever their time budgets and clocks, and
/// whatever nonces they replayed.
pub proof fn law_deterministic_runs_are_equal(
    config: CrossChainFuzzerConfig,
    other: CrossChainFuzzerConfig,
    select: Selection,
    replays: Seq<Option<u64>>,
    other_replays: Seq<Option<u64>>,
    late: spec_fn(nat) -> bool,
    other_late: spec_fn(nat) -> bool,
    n: nat,
    m: nat,
    limit: u64,
)
    requires
        config.equal_but_budget(other),
        config.deterministic,
        config.max_iterations == Some(limit),
        whole_run(config, select, replays, late, n),
        whole_run(other, select, other_replays, other_late, m),
    ensures
        ({
            let a = CampaignView::start(config.started()).ran(config.token, select, replays, n);
            let b = CampaignView::start(other.started()).ran(other.token, select, other_replays, m);
            &&& a.result.iterations == limit
            &&& b.result.iterations == limit
            &&& a.result.bugs_found == b.result.bugs_found
        }),
{
    assert(config.started() =~= other.started());
    law_deterministic_run_meets_its_limit(config, select, replays, late, n, limit);
    law_deterministic_run_meets_its_limit(other, select, other_replays, other_late, m, limit);
    law_runs_are_reproducible(
        config.started(),
        config.token,
        select,
        replays,
        other_replays,
        n,
    );
}

proof fn lemma_recorded_iterations(r: RunView, bugs: Seq<u64>, path: Seq<StepView>)
    ensures
        r.recorded(bugs, path).iterations == r.iterations,
    decreases bugs.len(),
{
    if bugs.len() > 0 {
        lemma_recorded_iterations(r, bugs.drop_last(), path);
    }
}

} // verus!
