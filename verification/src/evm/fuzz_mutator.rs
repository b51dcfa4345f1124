//! The decisions behind the mutation of an EVM input.
//!
//! A mutation alternates decisions with work on the input and on the fuzzer
//! state: drawing random numbers, staging VM states, mutating calldata. The
//! decisions are a machine here: each step takes the reply to the last action
//! and what can be seen of the input now, and gives the next action.

use vstd::prelude::*;

use crate::evm::cross_chain::executor::{index_from, reduce};
use crate::evm::types::{EVMAddress, EVMU256};

verus! {

/// Whether a mutation changed the input.
#[derive(Clone, Copy, Debug, PartialEq, Eq, Structural)]
pub enum MutationResult {
    Mutated,
    Skipped,
}

/// The odds of the choices and the bounds of the loops. A choice is made where
/// a draw below `sample_max` falls below the named number (or, for the ranges
/// of a single attempt, does not exceed it).
#[derive(Clone, Copy, Debug, PartialEq, Eq, Structural)]
pub struct MutatorConfig {
    pub sample_max: u64,
    pub exploit_preset_choice: u64,
    pub havoc_choice: u64,
    pub havoc_max_iters: u64,
    pub mutate_caller_choice: u64,
    pub turn_to_step_choice: u64,
    pub liquidate_choice: u64,
    pub liq_percent_choice: u64,
    pub liq_percent: u8,
    pub randomness_choice: u64,
    pub randomness_choice_2: u64,
    pub abi_mutate_choice: u64,
    pub mutation_retries: u64,
}

/// What can be seen of the input and of the fuzzer state at some moment.
#[derive(Clone, Copy, Debug, PartialEq, Eq, Structural)]
pub struct InputFacts {
    /// The input has a VM state to run on.
    pub initialized: bool,
    /// The input resumes an execution after a control leak.
    pub is_step: bool,
    /// The input borrows a token.
    pub is_borrow: bool,
    /// The index of the VM state that the input runs on.
    pub state_idx: usize,
    /// The caller of the input is a known one.
    pub has_caller: bool,
    /// The VM state of the input has an execution to resume.
    pub has_post_execution: bool,
    /// The percentage of tokens that the input liquidates.
    pub liquidation_percent: u8,
    /// The fuzzer knows exploit templates.
    pub has_preset: bool,
    /// There is a way to liquidate tokens.
    pub can_liquidate: bool,
}

/// What is to be done next.
#[derive(Clone, Copy, Debug, PartialEq, Eq, Structural)]
pub enum MutationAction {
    /// Give the input a VM state from the infant corpus.
    StageState,
    /// Draw a number below the bound.
    Draw(u64),
    /// Take the next call of the exploit template; where there is one, set it
    /// as the target of the input.
    TakePreset,
    /// Mutate the calldata of the input.
    MutateInput,
    /// Pick a VM state from the infant corpus.
    PickState,
    /// Give the input a random caller.
    SetRandomCaller,
    /// Make the input meet the constraints of the picked VM state.
    ApplyConstraints,
    /// Give the input the picked VM state.
    AdoptState,
    /// Make the input resume the execution of its VM state.
    TurnToStep,
    /// Set the percentage of tokens that the input liquidates.
    SetLiquidation(u8),
    /// Set the randomness of the input to one byte.
    SetRandomness(u8),
    /// Set the transaction value of the input to zero.
    ClearValue,
    /// The mutation is over.
    Finish(MutationResult),
}

/// What came of an action.
#[derive(Clone, Copy, Debug, PartialEq, Eq, Structural)]
pub enum MutationReply {
    /// It was done.
    Done,
    /// The number drawn.
    Drawn(u64),
    /// Whether the template had a call, or the constraints can be met.
    Found(bool),
    /// The index of the VM state picked.
    Picked(usize),
    /// Whether the calldata changed.
    Changed(bool),
}

/// Where in the retry loop an attempt stands.
#[derive(Clone, Copy, Debug, PartialEq, Eq, Structural)]
pub struct Round {
    /// Attempts per round.
    pub havoc: u64,
    /// Rounds that are over.
    pub tries: u64,
    /// Attempts of this round that are not over.
    pub left: u64,
    /// An attempt of this round changed the input.
    pub mutated: bool,
}

/// What the machine is waiting for.
#[derive(Clone, Copy, Debug, PartialEq, Eq, Structural)]
pub enum MutationPhase {
    Start,
    Staging,
    PresetDraw,
    PresetTaken,
    PresetMutating,
    HavocDraw,
    HavocTimes,
    CallerDraw { havoc: u64 },
    StatePick { havoc: u64 },
    CallerSet { havoc: u64 },
    Constraining { havoc: u64 },
    Adopting { havoc: u64 },
    StepDraw { havoc: u64, mutated: bool },
    Stepping { left: u64 },
    StepChoice { round: Round },
    BorrowByte { round: Round },
    BorrowChoice { round: Round, byte: u8 },
    Choice { round: Round },
    RandomByte { round: Round },
    RandomnessSet { round: Round },
    Liquidate { round: Round, step: bool },
    LiquidationSet { round: Round, step: bool, before: u8 },
    Mutating { round: Round, step: bool },
    Clearing { round: Round, changed: bool },
    Finished,
}

impl MutatorConfig {
    /// There is something to draw from.
    pub open spec fn wf(self) -> bool {
        &&& self.sample_max > 0
        &&& self.havoc_max_iters > 0
    }

    /// Ends the mutation.
    pub open spec fn finish(self, mutated: bool) -> (MutationPhase, MutationAction) {
        (
            MutationPhase::Finished,
            MutationAction::Finish(
                if mutated {
                    MutationResult::Mutated
                } else {
                    MutationResult::Skipped
                },
            ),
        )
    }

    /// Starts an attempt: on the calldata of a step, on the randomness of a
    /// borrow, or on an ordinary input.
    pub open spec fn attempt(self, round: Round, facts: InputFacts) -> (
        MutationPhase,
        MutationAction,
    ) {
        if facts.is_step {
            (MutationPhase::StepChoice { round }, MutationAction::Draw(self.sample_max))
        } else if facts.is_borrow {
            (MutationPhase::BorrowByte { round }, MutationAction::Draw(256))
        } else {
            (MutationPhase::Choice { round }, MutationAction::Draw(self.sample_max))
        }
    }

    /// Starts a round of attempts, unless the input is mutated or there were
    /// enough rounds.
    pub open spec fn round(self, havoc: u64, tries: u64, mutated: bool, facts: InputFacts) -> (
        MutationPhase,
        MutationAction,
    ) {
        if mutated || tries >= self.mutation_retries {
            self.finish(mutated)
        } else {
            self.attempt(Round { havoc, tries, left: havoc, mutated: false }, facts)
        }
    }

    /// Goes on after an attempt.
    pub open spec fn attempted(self, round: Round, changed: bool, facts: InputFacts) -> (
        MutationPhase,
        MutationAction,
    ) {
        let mutated = round.mutated || changed;
        if round.left <= 1 {
            self.round(round.havoc, (round.tries + 1) as u64, mutated, facts)
        } else {
            self.attempt(Round { left: (round.left - 1) as u64, mutated, ..round }, facts)
        }
    }

    /// Goes on after an attempt whose calldata or liquidation was handled; on
    /// a step the transaction value is cleared first.
    pub open spec fn settled(self, round: Round, step: bool, changed: bool, facts: InputFacts) -> (
        MutationPhase,
        MutationAction,
    ) {
        if step {
            (MutationPhase::Clearing { round, changed }, MutationAction::ClearValue)
        } else {
            self.attempted(round, changed, facts)
        }
    }

    /// Goes on once the input has a VM state.
    pub open spec fn staged(self, facts: InputFacts) -> (MutationPhase, MutationAction) {
        if facts.has_preset {
            (MutationPhase::PresetDraw, MutationAction::Draw(self.sample_max))
        } else {
            self.havoc()
        }
    }

    /// Decides whether to mutate many times.
    pub open spec fn havoc(self) -> (MutationPhase, MutationAction) {
        (MutationPhase::HavocDraw, MutationAction::Draw(self.sample_max))
    }

    /// Goes on once the number of attempts is known: a step keeps its VM state.
    pub open spec fn counted(self, havoc: u64, facts: InputFacts) -> (
        MutationPhase,
        MutationAction,
    ) {
        if facts.is_step {
            self.placed(havoc, false, facts)
        } else {
            (MutationPhase::CallerDraw { havoc }, MutationAction::Draw(self.sample_max))
        }
    }

    /// Goes on once the VM state of the input stands.
    pub open spec fn placed(self, havoc: u64, mutated: bool, facts: InputFacts) -> (
        MutationPhase,
        MutationAction,
    ) {
        if facts.has_post_execution && !facts.is_step {
            (MutationPhase::StepDraw { havoc, mutated }, MutationAction::Draw(self.sample_max))
        } else {
            self.round(havoc, 0, mutated, facts)
        }
    }

    /// Goes on while an input is turned into a step.
    pub open spec fn stepping(self, left: u64) -> (MutationPhase, MutationAction) {
        if left == 0 {
            self.finish(true)
        } else {
            (MutationPhase::Stepping { left: (left - 1) as u64 }, MutationAction::MutateInput)
        }
    }

    /// The next phase and the next action.
    pub open spec fn next(
        self,
        phase: MutationPhase,
        reply: MutationReply,
        facts: InputFacts,
    ) -> (MutationPhase, MutationAction) {
        match phase {
            MutationPhase::Start => if facts.initialized {
                self.staged(facts)
            } else {
                (MutationPhase::Staging, MutationAction::StageState)
            },
            MutationPhase::Staging => self.staged(facts),
            MutationPhase::PresetDraw => if reply->Drawn_0 < self.exploit_preset_choice
                && !facts.is_borrow {
                (MutationPhase::PresetTaken, MutationAction::TakePreset)
            } else {
                self.havoc()
            },
            MutationPhase::PresetTaken => if reply->Found_0 {
                (MutationPhase::PresetMutating, MutationAction::MutateInput)
            } else {
                self.havoc()
            },
            MutationPhase::PresetMutating => self.finish(true),
            MutationPhase::HavocDraw => if reply->Drawn_0 < self.havoc_choice {
                (MutationPhase::HavocTimes, MutationAction::Draw(self.havoc_max_iters))
            } else {
                self.counted(1, facts)
            },
            MutationPhase::HavocTimes => self.counted((reply->Drawn_0 + 1) as u64, facts),
            MutationPhase::CallerDraw { havoc } => if reply->Drawn_0 < self.mutate_caller_choice {
                (MutationPhase::StatePick { havoc }, MutationAction::PickState)
            } else {
                self.placed(havoc, false, facts)
            },
            MutationPhase::StatePick { havoc } => if reply->Picked_0 == facts.state_idx {
                self.placed(havoc, false, facts)
            } else if facts.has_caller {
                (MutationPhase::Constraining { havoc }, MutationAction::ApplyConstraints)
            } else {
                (MutationPhase::CallerSet { havoc }, MutationAction::SetRandomCaller)
            },
            MutationPhase::CallerSet { havoc } => (
                MutationPhase::Constraining { havoc },
                MutationAction::ApplyConstraints,
            ),
            MutationPhase::Constraining { havoc } => if reply->Found_0 {
                (MutationPhase::Adopting { havoc }, MutationAction::AdoptState)
            } else {
                self.placed(havoc, false, facts)
            },
            MutationPhase::Adopting { havoc } => self.placed(havoc, true, facts),
            MutationPhase::StepDraw { havoc, mutated } => if reply->Drawn_0
                < self.turn_to_step_choice {
                if facts.is_borrow {
                    self.finish(true)
                } else {
                    (
                        MutationPhase::Stepping { left: (havoc - 1) as u64 },
                        MutationAction::TurnToStep,
                    )
                }
            } else {
                self.round(havoc, 0, mutated, facts)
            },
            MutationPhase::Stepping { left } => self.stepping(left),
            MutationPhase::StepChoice { round } => if reply->Drawn_0 > self.liquidate_choice {
                (MutationPhase::Mutating { round, step: true }, MutationAction::MutateInput)
            } else if facts.can_liquidate {
                (
                    MutationPhase::Liquidate { round, step: true },
                    MutationAction::Draw(self.sample_max),
                )
            } else {
                self.settled(round, true, false, facts)
            },
            MutationPhase::BorrowByte { round } => (
                MutationPhase::BorrowChoice { round, byte: reply->Drawn_0 as u8 },
                MutationAction::Draw(self.sample_max),
            ),
            MutationPhase::BorrowChoice { round, byte } => if reply->Drawn_0
                <= self.randomness_choice {
                (MutationPhase::RandomnessSet { round }, MutationAction::SetRandomness(byte))
            } else {
                (MutationPhase::Mutating { round, step: false }, MutationAction::MutateInput)
            },
            MutationPhase::Choice { round } => if reply->Drawn_0 <= self.liquidate_choice {
                (
                    MutationPhase::Liquidate { round, step: false },
                    MutationAction::Draw(self.sample_max),
                )
            } else if reply->Drawn_0 <= self.randomness_choice_2 {
                (MutationPhase::RandomByte { round }, MutationAction::Draw(256))
            } else {
                (MutationPhase::Mutating { round, step: false }, MutationAction::MutateInput)
            },
            MutationPhase::RandomByte { round } => (
                MutationPhase::RandomnessSet { round },
                MutationAction::SetRandomness(reply->Drawn_0 as u8),
            ),
            MutationPhase::RandomnessSet { round } => self.attempted(round, true, facts),
            MutationPhase::Liquidate { round, step } => (
                MutationPhase::LiquidationSet { round, step, before: facts.liquidation_percent },
                MutationAction::SetLiquidation(
                    if reply->Drawn_0 < self.liq_percent_choice {
                        self.liq_percent
                    } else {
                        0
                    },
                ),
            ),
            MutationPhase::LiquidationSet { round, step, before } => self.settled(
                round,
                step,
                before != facts.liquidation_percent,
                facts,
            ),
            MutationPhase::Mutating { round, step } => self.settled(
                round,
                step,
                reply->Changed_0,
                facts,
            ),
            MutationPhase::Clearing { round, changed } => self.attempted(round, changed, facts),
            MutationPhase::Finished => self.finish(true),
        }
    }

    /// The replies that a phase waits for; a number drawn is below its bound.
    pub open spec fn awaits(self, phase: MutationPhase, reply: MutationReply) -> bool {
        match phase {
            MutationPhase::Start
            | MutationPhase::Staging
            | MutationPhase::CallerSet { .. }
            | MutationPhase::Adopting { .. }
            | MutationPhase::RandomnessSet { .. }
            | MutationPhase::LiquidationSet { .. }
            | MutationPhase::Clearing { .. } => reply is Done,
            MutationPhase::PresetDraw
            | MutationPhase::HavocDraw
            | MutationPhase::CallerDraw { .. }
            | MutationPhase::StepDraw { .. }
            | MutationPhase::StepChoice { .. }
            | MutationPhase::BorrowChoice { .. }
            | MutationPhase::Choice { .. }
            | MutationPhase::Liquidate { .. } => reply matches MutationReply::Drawn(v) && v
                < self.sample_max,
            MutationPhase::HavocTimes => reply matches MutationReply::Drawn(v) && v
                < self.havoc_max_iters,
            MutationPhase::BorrowByte { .. }
            | MutationPhase::RandomByte { .. } => reply matches MutationReply::Drawn(v) && v < 256,
            MutationPhase::PresetTaken
            | MutationPhase::Constraining { .. } => reply is Found,
            MutationPhase::StatePick { .. } => reply is Picked,
            MutationPhase::PresetMutating
            | MutationPhase::Mutating { .. } => reply is Changed,
            MutationPhase::Stepping { .. } => reply is Done || reply is Changed,
            MutationPhase::Finished => false,
        }
    }
}

impl MutatorConfig {
    /// The counters of a round are within its bounds.
    pub open spec fn round_wf(self, round: Round) -> bool {
        &&& 1 <= round.left <= round.havoc <= self.havoc_max_iters
        &&& round.tries < self.mutation_retries
    }

    /// The counters of a phase are within their bounds.
    pub open spec fn phase_wf(self, phase: MutationPhase) -> bool {
        match phase {
            MutationPhase::CallerDraw { havoc }
            | MutationPhase::StatePick { havoc }
            | MutationPhase::CallerSet { havoc }
            | MutationPhase::Constraining { havoc }
            | MutationPhase::Adopting { havoc }
            | MutationPhase::StepDraw { havoc, .. } => 1 <= havoc <= self.havoc_max_iters,
            MutationPhase::Stepping { left } => left < self.havoc_max_iters,
            MutationPhase::StepChoice { round }
            | MutationPhase::BorrowByte { round }
            | MutationPhase::BorrowChoice { round, .. }
            | MutationPhase::Choice { round }
            | MutationPhase::RandomByte { round }
            | MutationPhase::RandomnessSet { round }
            | MutationPhase::Liquidate { round, .. }
            | MutationPhase::LiquidationSet { round, .. }
            | MutationPhase::Mutating { round, .. }
            | MutationPhase::Clearing { round, .. } => self.round_wf(round),
            _ => true,
        }
    }
}

/// A mutation that is under way.
#[derive(Clone, Copy, Debug, PartialEq, Eq, Structural)]
pub struct FuzzMutator {
    pub config: MutatorConfig,
    pub phase: MutationPhase,
}

impl FuzzMutator {
    /// The odds make sense and the counters are within their bounds.
    pub open spec fn wf(self) -> bool {
        self.config.wf() && self.config.phase_wf(self.phase)
    }

    /// A mutation that has not begun.
    pub fn new(config: MutatorConfig) -> (r: FuzzMutator)
        requires
            config.wf(),
        ensures
            r == (FuzzMutator { config, phase: MutationPhase::Start }),
            r.wf(),
    {
        FuzzMutator { config, phase: MutationPhase::Start }
    }

    /// Takes the reply to the last action (`Done` to begin with), and gives the
    /// next action.
    pub fn step(&mut self, reply: MutationReply, facts: InputFacts) -> (action: MutationAction)
        requires
            old(self).wf(),
            old(self).config.awaits(old(self).phase, reply),
        ensures
            (final(self).phase, action) == old(self).config.next(old(self).phase, reply, facts),
            final(self).config == old(self).config,
            final(self).wf(),
    {
        let (phase, action) = self.decide(reply, facts);
        self.phase = phase;
        action
    }

    fn decide(&self, reply: MutationReply, facts: InputFacts) -> (r: (
        MutationPhase,
        MutationAction,
    ))
        requires
            self.wf(),
            self.config.awaits(self.phase, reply),
        ensures
            r == self.config.next(self.phase, reply, facts),
            self.config.phase_wf(r.0),
    {
        let c = &self.config;
        let drawn: u64 = match reply {
            MutationReply::Drawn(v) => v,
            _ => 0,
        };
        let found = match reply {
            MutationReply::Found(b) => b,
            MutationReply::Changed(b) => b,
            _ => false,
        };
        match self.phase {
            MutationPhase::Start => if facts.initialized {
                self.staged(facts)
            } else {
                (MutationPhase::Staging, MutationAction::StageState)
            },
            MutationPhase::Staging => self.staged(facts),
            MutationPhase::PresetDraw => if drawn < c.exploit_preset_choice && !facts.is_borrow {
                (MutationPhase::PresetTaken, MutationAction::TakePreset)
            } else {
                self.havoc()
            },
            MutationPhase::PresetTaken => if found {
                (MutationPhase::PresetMutating, MutationAction::MutateInput)
            } else {
                self.havoc()
            },
            MutationPhase::PresetMutating => self.finish(true),
            MutationPhase::HavocDraw => if drawn < c.havoc_choice {
                (MutationPhase::HavocTimes, MutationAction::Draw(c.havoc_max_iters))
            } else {
                self.counted(1, facts)
            },
            MutationPhase::HavocTimes => self.counted(drawn + 1, facts),
            MutationPhase::CallerDraw { havoc } => if drawn < c.mutate_caller_choice {
                (MutationPhase::StatePick { havoc }, MutationAction::PickState)
            } else {
                self.placed(havoc, false, facts)
            },
            MutationPhase::StatePick { havoc } => {
                let picked: usize = match reply {
                    MutationReply::Picked(i) => i,
                    _ => 0,
                };
                if picked == facts.state_idx {
                    self.placed(havoc, false, facts)
                } else if facts.has_caller {
                    (MutationPhase::Constraining { havoc }, MutationAction::ApplyConstraints)
                } else {
                    (MutationPhase::CallerSet { havoc }, MutationAction::SetRandomCaller)
                }
            },
            MutationPhase::CallerSet { havoc } => (
                MutationPhase::Constraining { havoc },
                MutationAction::ApplyConstraints,
            ),
            MutationPhase::Constraining { havoc } => if found {
                (MutationPhase::Adopting { havoc }, MutationAction::AdoptState)
            } else {
                self.placed(havoc, false, facts)
            },
            MutationPhase::Adopting { havoc } => self.placed(havoc, true, facts),
            MutationPhase::StepDraw { havoc, mutated } => if drawn < c.turn_to_step_choice {
                if facts.is_borrow {
                    self.finish(true)
                } else {
                    (MutationPhase::Stepping { left: havoc - 1 }, MutationAction::TurnToStep)
                }
            } else {
                self.round(havoc, 0, mutated, facts)
            },
            MutationPhase::Stepping { left } => if left == 0 {
                self.finish(true)
            } else {
                (MutationPhase::Stepping { left: left - 1 }, MutationAction::MutateInput)
            },
            MutationPhase::StepChoice { round } => if drawn > c.liquidate_choice {
                (MutationPhase::Mutating { round, step: true }, MutationAction::MutateInput)
            } else if facts.can_liquidate {
                (
                    MutationPhase::Liquidate { round, step: true },
                    MutationAction::Draw(c.sample_max),
                )
            } else {
                self.settled(round, true, false, facts)
            },
            MutationPhase::BorrowByte { round } => (
                MutationPhase::BorrowChoice { round, byte: drawn as u8 },
                MutationAction::Draw(c.sample_max),
            ),
            MutationPhase::BorrowChoice { round, byte } => if drawn <= c.randomness_choice {
                (MutationPhase::RandomnessSet { round }, MutationAction::SetRandomness(byte))
            } else {
                (MutationPhase::Mutating { round, step: false }, MutationAction::MutateInput)
            },
            MutationPhase::Choice { round } => if drawn <= c.liquidate_choice {
                (
                    MutationPhase::Liquidate { round, step: false },
                    MutationAction::Draw(c.sample_max),
                )
            } else if drawn <= c.randomness_choice_2 {
                (MutationPhase::RandomByte { round }, MutationAction::Draw(256))
            } else {
                (MutationPhase::Mutating { round, step: false }, MutationAction::MutateInput)
            },
            MutationPhase::RandomByte { round } => (
                MutationPhase::RandomnessSet { round },
                MutationAction::SetRandomness(drawn as u8),
            ),
            MutationPhase::RandomnessSet { round } => self.attempted(round, true, facts),
            MutationPhase::Liquidate { round, step } => (
                MutationPhase::LiquidationSet { round, step, before: facts.liquidation_percent },
                MutationAction::SetLiquidation(
                    if drawn < c.liq_percent_choice {
                        c.liq_percent
                    } else {
                        0
                    },
                ),
            ),
            MutationPhase::LiquidationSet { round, step, before } => self.settled(
                round,
                step,
                before != facts.liquidation_percent,
                facts,
            ),
            MutationPhase::Mutating { round, step } => self.settled(round, step, found, facts),
            MutationPhase::Clearing { round, changed } => self.attempted(round, changed, facts),
            MutationPhase::Finished => self.finish(true),
        }
    }

    fn finish(&self, mutated: bool) -> (r: (MutationPhase, MutationAction))
        ensures
            r == self.config.finish(mutated),
    {
        let result = if mutated {
            MutationResult::Mutated
        } else {
            MutationResult::Skipped
        };
        (MutationPhase::Finished, MutationAction::Finish(result))
    }

    fn attempt(&self, round: Round, facts: InputFacts) -> (r: (MutationPhase, MutationAction))
        requires
            self.config.round_wf(round),
        ensures
            r == self.config.attempt(round, facts),
            self.config.phase_wf(r.0),
    {
        if facts.is_step {
            (MutationPhase::StepChoice { round }, MutationAction::Draw(self.config.sample_max))
        } else if facts.is_borrow {
            (MutationPhase::BorrowByte { round }, MutationAction::Draw(256))
        } else {
            (MutationPhase::Choice { round }, MutationAction::Draw(self.config.sample_max))
        }
    }

    fn round(&self, havoc: u64, tries: u64, mutated: bool, facts: InputFacts) -> (r: (
        MutationPhase,
        MutationAction,
    ))
        requires
            1 <= havoc <= self.config.havoc_max_iters,
        ensures
            r == self.config.round(havoc, tries, mutated, facts),
            self.config.phase_wf(r.0),
    {
        if mutated || tries >= self.config.mutation_retries {
            self.finish(mutated)
        } else {
            self.attempt(Round { havoc, tries, left: havoc, mutated: false }, facts)
        }
    }

    fn attempted(&self, round: Round, changed: bool, facts: InputFacts) -> (r: (
        MutationPhase,
        MutationAction,
    ))
        requires
            self.config.round_wf(round),
        ensures
            r == self.config.attempted(round, changed, facts),
            self.config.phase_wf(r.0),
    {
        let mutated = round.mutated || changed;
        if round.left <= 1 {
            self.round(round.havoc, round.tries + 1, mutated, facts)
        } else {
            self.attempt(
                Round { havoc: round.havoc, tries: round.tries, left: round.left - 1, mutated },
                facts,
            )
        }
    }

    fn settled(&self, round: Round, step: bool, changed: bool, facts: InputFacts) -> (r: (
        MutationPhase,
        MutationAction,
    ))
        requires
            self.config.round_wf(round),
        ensures
            r == self.config.settled(round, step, changed, facts),
            self.config.phase_wf(r.0),
    {
        if step {
            (MutationPhase::Clearing { round, changed }, MutationAction::ClearValue)
        } else {
            self.attempted(round, changed, facts)
        }
    }

    fn staged(&self, facts: InputFacts) -> (r: (MutationPhase, MutationAction))
        ensures
            r == self.config.staged(facts),
            self.config.phase_wf(r.0),
    {
        if facts.has_preset {
            (MutationPhase::PresetDraw, MutationAction::Draw(self.config.sample_max))
        } else {
            self.havoc()
        }
    }

    fn havoc(&self) -> (r: (MutationPhase, MutationAction))
        ensures
            r == self.config.havoc(),
            self.config.phase_wf(r.0),
    {
        (MutationPhase::HavocDraw, MutationAction::Draw(self.config.sample_max))
    }

    fn counted(&self, havoc: u64, facts: InputFacts) -> (r: (MutationPhase, MutationAction))
        requires
            1 <= havoc <= self.config.havoc_max_iters,
        ensures
            r == self.config.counted(havoc, facts),
            self.config.phase_wf(r.0),
    {
        if facts.is_step {
            self.placed(havoc, false, facts)
        } else {
            (MutationPhase::CallerDraw { havoc }, MutationAction::Draw(self.config.sample_max))
        }
    }

    fn placed(&self, havoc: u64, mutated: bool, facts: InputFacts) -> (r: (
        MutationPhase,
        MutationAction,
    ))
        requires
            1 <= havoc <= self.config.havoc_max_iters,
        ensures
            r == self.config.placed(havoc, mutated, facts),
            self.config.phase_wf(r.0),
    {
        if facts.has_post_execution && !facts.is_step {
            (
                MutationPhase::StepDraw { havoc, mutated },
                MutationAction::Draw(self.config.sample_max),
            )
        } else {
            self.round(havoc, 0, mutated, facts)
        }
    }
}

// ---------------------------------------------------------------- constraints

/// What a VM state asks of the input that runs on it.
#[derive(Clone, Copy, Debug, PartialEq, Eq, Structural)]
pub enum Constraint {
    Caller(EVMAddress),
    Value(EVMU256),
    Contract(EVMAddress),
    NoLiquidation,
    MustStepNow,
}

/// What is done to the input to meet a constraint.
#[derive(Clone, Copy, Debug, PartialEq, Eq, Structural)]
pub enum ConstraintAction {
    SetCaller(EVMAddress),
    SetValue(EVMU256),
    /// Set the target, and the ABI at the given position of its ABIs.
    SetContract { target: EVMAddress, abi: Option<usize> },
    SetLiquidation(u8),
    /// Make the input resume the execution of the VM state, then mutate it.
    StepNow,
}

/// What is to be done next about a list of constraints.
#[derive(Clone, Copy, Debug, PartialEq, Eq, Structural)]
pub enum ConstraintStep {
    /// Nothing: the list cannot be met, and the input stays as it is.
    Refuse,
    /// This, for the next constraint of the list.
    Act(ConstraintAction),
    /// Nothing: every constraint of the list is met.
    Over,
}

/// How an ABI of a target is drawn.
#[derive(Clone, Copy, Debug, PartialEq, Eq, Structural)]
pub struct AbiDraw {
    /// The number of ABIs known of the target.
    pub known: usize,
    /// Any number.
    pub number: u64,
    /// A number below `sample_max`.
    pub sample: u64,
}

/// Whether a constraint cannot be met by an input that borrows.
pub open spec fn refuses_borrow(c: Constraint) -> bool {
    c is MustStepNow || c is Contract
}

/// The position of the drawn ABI: none where the target has no ABI, or where
/// the sample is above the odds.
pub open spec fn abi_drawn(config: MutatorConfig, draw: AbiDraw) -> Option<usize> {
    if draw.known > 0 && draw.sample <= config.abi_mutate_choice {
        Some(index_from(draw.number, draw.known as int) as usize)
    } else {
        None
    }
}

/// Whether a list of constraints cannot be met: an input that borrows can neither
/// step nor change its target.
pub open spec fn refused(constraints: Seq<Constraint>, is_borrow: bool) -> bool {
    is_borrow && exists|i: int|
        0 <= i < constraints.len() && refuses_borrow(#[trigger] constraints[i])
}

/// What is done to the input to meet `c`.
pub open spec fn action_for(config: MutatorConfig, c: Constraint, draw: AbiDraw) -> ConstraintAction {
    match c {
        Constraint::Caller(caller) => ConstraintAction::SetCaller(caller),
        Constraint::Value(value) => ConstraintAction::SetValue(value),
        Constraint::Contract(target) => ConstraintAction::SetContract {
            target,
            abi: abi_drawn(config, draw),
        },
        Constraint::NoLiquidation => ConstraintAction::SetLiquidation(0),
        Constraint::MustStepNow => ConstraintAction::StepNow,
    }
}

impl MutatorConfig {
    /// What is to be done about a list of constraints of which the first `met` are
    /// met.
    pub open spec fn next_for(
        self,
        constraints: Seq<Constraint>,
        is_borrow: bool,
        met: int,
        draw: AbiDraw,
    ) -> ConstraintStep {
        if refused(constraints, is_borrow) {
            ConstraintStep::Refuse
        } else if met == constraints.len() {
            ConstraintStep::Over
        } else {
            ConstraintStep::Act(action_for(self, constraints[met], draw))
        }
    }

    /// What is done about a list of constraints, from its start to its end, given
    /// the draw for each; nothing where the list is refused.
    pub open spec fn done_for(
        self,
        constraints: Seq<Constraint>,
        is_borrow: bool,
        met: int,
        draws: Seq<AbiDraw>,
    ) -> Seq<ConstraintAction>
        decreases met,
    {
        if met <= 0 {
            Seq::empty()
        } else {
            let before = self.done_for(constraints, is_borrow, met - 1, draws);
            match self.next_for(constraints, is_borrow, met - 1, draws[met - 1]) {
                ConstraintStep::Act(action) => before.push(action),
                _ => before,
            }
        }
    }
}

impl FuzzMutator {
    /// Whether the constraints can be met at all: an input that borrows can neither
    /// step nor change its target.
    pub fn constraints_admissible(constraints: &Vec<Constraint>, is_borrow: bool) -> (r: bool)
        ensures
            r == !refused(constraints@, is_borrow),
    {
        let mut i: usize = 0;
        while i < constraints.len()
            invariant
                i <= constraints@.len(),
                is_borrow ==> forall|j: int|
                    0 <= j < i ==> !refuses_borrow(#[trigger] constraints@[j]),
            decreases constraints.len() - i,
        {
            match constraints[i] {
                Constraint::MustStepNow | Constraint::Contract(_) => {
                    if is_borrow {
                        assert(refuses_borrow(constraints@[i as int]));
                        return false;
                    }
                },
                _ => {},
            }
            i = i + 1;
        }
        true
    }

    /// What is to be done about a list of constraints of which the first `met` are
    /// met: a list that cannot be met is refused as a whole, any other is worked
    /// in order.
    pub fn constraint_step(
        &self,
        constraints: &Vec<Constraint>,
        is_borrow: bool,
        met: usize,
        draw: AbiDraw,
    ) -> (r: ConstraintStep)
        requires
            met <= constraints@.len(),
        ensures
            r == self.config.next_for(constraints@, is_borrow, met as int, draw),
            r matches ConstraintStep::Act(
                ConstraintAction::SetContract { abi: Some(i), .. },
            ) ==> i < draw.known,
    {
        if !Self::constraints_admissible(constraints, is_borrow) {
            ConstraintStep::Refuse
        } else if met == constraints.len() {
            ConstraintStep::Over
        } else {
            ConstraintStep::Act(self.ensures_constraint(&constraints[met], draw))
        }
    }

    /// What is done to the input to meet `c`; the draw matters for a target only.
    pub fn ensures_constraint(&self, c: &Constraint, draw: AbiDraw) -> (r:
        ConstraintAction)
        ensures
            r == action_for(self.config, *c, draw),
            r matches ConstraintAction::SetContract { abi: Some(i), .. } ==> i < draw.known,
    {
        match *c {
            Constraint::Caller(caller) => ConstraintAction::SetCaller(caller),
            Constraint::Value(value) => ConstraintAction::SetValue(value),
            Constraint::Contract(target) => {
                let abi = if draw.known > 0 && draw.sample <= self.config.abi_mutate_choice {
                    Some(reduce(draw.number, draw.known))
                } else {
                    None
                };
                ConstraintAction::SetContract { target, abi }
            },
            Constraint::NoLiquidation => ConstraintAction::SetLiquidation(0),
            Constraint::MustStepNow => ConstraintAction::StepNow,
        }
    }
}

// ----------------------------------------------------------------------- laws

/// A list of constraints is met as a whole or not at all: nothing is done where
/// it is refused, wherever the refused constraint stands; otherwise each
/// constraint is met once, in the order of the list.
pub proof fn law_constraints_all_or_nothing(
    c: MutatorConfig,
    constraints: Seq<Constraint>,
    is_borrow: bool,
    draws: Seq<AbiDraw>,
    met: int,
)
    requires
        0 <= met <= constraints.len(),
    ensures
        ({
            let done = c.done_for(constraints, is_borrow, met, draws);
            if refused(constraints, is_borrow) {
                done == Seq::<ConstraintAction>::empty()
            } else {
                done == Seq::new(met as nat, |i: int| action_for(c, constraints[i], draws[i]))
            }
        }),
        forall|draw: AbiDraw| #[trigger]
            c.next_for(constraints, is_borrow, constraints.len() as int, draw) == if refused(
                constraints,
                is_borrow,
            ) {
                ConstraintStep::Refuse
            } else {
                ConstraintStep::Over
            },
    decreases met,
{
    if met > 0 {
        law_constraints_all_or_nothing(c, constraints, is_borrow, draws, met - 1);
    }
    if !refused(constraints, is_borrow) {
        assert(c.done_for(constraints, is_borrow, met, draws) =~= Seq::new(
            met as nat,
            |i: int| action_for(c, constraints[i], draws[i]),
        ));
    }
}

impl MutatorConfig {
    /// The steps that an attempt and those behind it can take, where the attempt
    /// itself takes at most `here` more.
    pub open spec fn steps_left(self, round: Round, here: int) -> int {
        here + 6 * ((round.left - 1) + round.havoc * (self.mutation_retries - round.tries - 1))
    }

    /// More steps than a mutation can take once it is decided that a round has
    /// `havoc` attempts.
    pub open spec fn steps_of(self, havoc: int) -> int {
        6 * (havoc * self.mutation_retries) + havoc + 1
    }

    /// More steps than a mutation in `phase` can still take.
    pub open spec fn measure(self, phase: MutationPhase) -> int {
        match phase {
            MutationPhase::Start => self.steps_of(self.havoc_max_iters as int) + 13,
            MutationPhase::Staging => self.steps_of(self.havoc_max_iters as int) + 12,
            MutationPhase::PresetDraw => self.steps_of(self.havoc_max_iters as int) + 11,
            MutationPhase::PresetTaken => self.steps_of(self.havoc_max_iters as int) + 10,
            MutationPhase::PresetMutating => 1,
            MutationPhase::HavocDraw => self.steps_of(self.havoc_max_iters as int) + 9,
            MutationPhase::HavocTimes => self.steps_of(self.havoc_max_iters as int) + 8,
            MutationPhase::CallerDraw { havoc } => self.steps_of(havoc as int) + 6,
            MutationPhase::StatePick { havoc } => self.steps_of(havoc as int) + 5,
            MutationPhase::CallerSet { havoc } => self.steps_of(havoc as int) + 4,
            MutationPhase::Constraining { havoc } => self.steps_of(havoc as int) + 3,
            MutationPhase::Adopting { havoc } => self.steps_of(havoc as int) + 2,
            MutationPhase::StepDraw { havoc, .. } => self.steps_of(havoc as int) + 1,
            MutationPhase::Stepping { left } => left + 1,
            MutationPhase::StepChoice { round }
            | MutationPhase::BorrowByte { round }
            | MutationPhase::Choice { round } => self.steps_left(round, 5),
            MutationPhase::BorrowChoice { round, .. }
            | MutationPhase::RandomByte { round }
            | MutationPhase::Liquidate { round, .. } => self.steps_left(round, 4),
            MutationPhase::RandomnessSet { round }
            | MutationPhase::LiquidationSet { round, .. }
            | MutationPhase::Mutating { round, .. } => self.steps_left(round, 3),
            MutationPhase::Clearing { round, .. } => self.steps_left(round, 2),
            MutationPhase::Finished => 0,
        }
    }
}

/// A mutation ends: each step leaves strictly fewer steps to take, whatever the
/// replies are and whatever can be seen of the input.
pub proof fn law_mutation_ends(
    c: MutatorConfig,
    phase: MutationPhase,
    reply: MutationReply,
    facts: InputFacts,
)
    requires
        c.wf(),
        c.phase_wf(phase),
        c.awaits(phase, reply),
    ensures
        0 <= c.measure(c.next(phase, reply, facts).0) < c.measure(phase),
{
    match phase {
        MutationPhase::Start
        | MutationPhase::Staging
        | MutationPhase::PresetDraw
        | MutationPhase::PresetTaken => {
            lemma_steps_of_grows(c, 1, c.havoc_max_iters as int);
        },
        MutationPhase::HavocDraw => {
            lemma_steps_of_grows(c, 1, c.havoc_max_iters as int);
            lemma_first_round(c, 1);
        },
        MutationPhase::HavocTimes => {
            let h = reply->Drawn_0 + 1;
            lemma_steps_of_grows(c, h, c.havoc_max_iters as int);
            lemma_first_round(c, h);
        },
        MutationPhase::CallerDraw { havoc }
        | MutationPhase::StatePick { havoc }
        | MutationPhase::CallerSet { havoc }
        | MutationPhase::Constraining { havoc }
        | MutationPhase::Adopting { havoc }
        | MutationPhase::StepDraw { havoc, .. } => {
            lemma_steps_of_grows(c, havoc as int, havoc as int);
            lemma_first_round(c, havoc as int);
        },
        MutationPhase::StepChoice { round }
        | MutationPhase::BorrowByte { round }
        | MutationPhase::BorrowChoice { round, .. }
        | MutationPhase::Choice { round }
        | MutationPhase::RandomByte { round }
        | MutationPhase::RandomnessSet { round }
        | MutationPhase::Liquidate { round, .. }
        | MutationPhase::LiquidationSet { round, .. }
        | MutationPhase::Mutating { round, .. }
        | MutationPhase::Clearing { round, .. } => {
            lemma_next_round(c, round);
        },
        _ => {},
    }
}

proof fn lemma_steps_of_grows(c: MutatorConfig, a: int, b: int)
    requires
        1 <= a <= b,
    ensures
        0 < a + 1 <= c.steps_of(a) <= c.steps_of(b),
{
    let r = c.mutation_retries as int;
    assert(0 <= a * r <= b * r) by (nonlinear_arith)
        requires
            1 <= a <= b,
            0 <= r,
    ;
}

proof fn lemma_first_round(c: MutatorConfig, h: int)
    requires
        1 <= h <= c.havoc_max_iters,
    ensures
        c.mutation_retries > 0 ==> {
            let first = Round { havoc: h as u64, tries: 0, left: h as u64, mutated: false };
            0 <= c.steps_left(first, 5) < c.steps_of(h)
        },
{
    let r = c.mutation_retries as int;
    if r > 0 {
        assert((h - 1) + h * (r - 1) == h * r - 1 && h * r >= 1) by (nonlinear_arith)
            requires
                h >= 1,
                r >= 1,
        ;
    }
}

proof fn lemma_next_round(c: MutatorConfig, round: Round)
    requires
        c.round_wf(round),
    ensures
        c.steps_left(round, 0) >= 0,
        round.tries + 1 < c.mutation_retries ==> {
            let next = Round {
                tries: (round.tries + 1) as u64,
                left: round.havoc,
                mutated: false,
                ..round
            };
            0 <= c.steps_left(next, 5) < c.steps_left(Round { left: 1, ..round }, 0)
        },
{
    let h = round.havoc as int;
    let rest = c.mutation_retries - round.tries - 1;
    assert(h * rest >= 0) by (nonlinear_arith)
        requires
            h >= 1,
            rest >= 0,
    ;
    if rest >= 1 {
        assert((h - 1) + h * (rest - 1) == h * rest - 1 && h * rest >= 1) by (nonlinear_arith)
            requires
                h >= 1,
                rest >= 1,
        ;
    }
}

/// What an input is spared: only one without a VM state is given one from the
/// start, only one that is no step is given another or turned into a step, a
/// borrow is not turned into a step and takes no call of a template, a known
/// caller is kept, and liquidation is set to the configured percentage or to
/// nothing.
pub proof fn law_actions_fit_the_input(
    c: MutatorConfig,
    phase: MutationPhase,
    reply: MutationReply,
    facts: InputFacts,
)
    requires
        c.wf(),
        c.phase_wf(phase),
        c.awaits(phase, reply),
    ensures
        ({
            let (after, action) = c.next(phase, reply, facts);
            &&& action is StageState ==> !facts.initialized
            &&& after is CallerDraw ==> !facts.is_step
            &&& after is StepDraw ==> !facts.is_step && facts.has_post_execution
            &&& action is TurnToStep ==> !facts.is_borrow
            &&& after is PresetDraw ==> facts.has_preset
            &&& action is TakePreset ==> !facts.is_borrow
            &&& action is SetRandomCaller ==> !facts.has_caller
            &&& action matches MutationAction::SetLiquidation(p) ==> p == c.liq_percent || p == 0
            &&& action matches MutationAction::Draw(bound) ==> bound == c.sample_max || bound
                == c.havoc_max_iters || bound == 256
        }),
{
}

/// An attempt that changed the input is remembered: after the round the mutation
/// ends as mutated, and it ends as mutated only for such an attempt.
pub proof fn law_change_is_remembered(
    c: MutatorConfig,
    round: Round,
    changed: bool,
    facts: InputFacts,
)
    requires
        c.round_wf(round),
    ensures
        ({
            let action = c.attempted(round, changed, facts).1;
            let mutated = round.mutated || changed;
            &&& action matches MutationAction::Finish(r) ==> (r is Mutated <==> mutated)
            &&& round.left == 1 && mutated ==> action == MutationAction::Finish(
                MutationResult::Mutated,
            )
            &&& round.left == 1 && !mutated && round.tries + 1 == c.mutation_retries ==> action
                == MutationAction::Finish(MutationResult::Skipped)
            &&& round.left > 1 ==> action !is Finish
        }),
{
}

/// The round that a phase is in, where it is in one.
pub open spec fn round_of(phase: MutationPhase) -> Option<Round> {
    match phase {
        MutationPhase::StepChoice { round }
        | MutationPhase::BorrowByte { round }
        | MutationPhase::BorrowChoice { round, .. }
        | MutationPhase::Choice { round }
        | MutationPhase::RandomByte { round }
        | MutationPhase::RandomnessSet { round }
        | MutationPhase::Liquidate { round, .. }
        | MutationPhase::LiquidationSet { round, .. }
        | MutationPhase::Mutating { round, .. }
        | MutationPhase::Clearing { round, .. } => Some(round),
        _ => None,
    }
}

/// A mutation is given up only behind the last attempt of the last round, and
/// only where no attempt of that round changed the input; or, where no round is
/// allowed, before the first attempt.
pub proof fn law_given_up_after_all_retries(
    c: MutatorConfig,
    phase: MutationPhase,
    reply: MutationReply,
    facts: InputFacts,
)
    requires
        c.wf(),
        c.phase_wf(phase),
        c.awaits(phase, reply),
        c.next(phase, reply, facts).1 == MutationAction::Finish(MutationResult::Skipped),
    ensures
        match round_of(phase) {
            Some(round) => round.left == 1 && round.tries + 1 == c.mutation_retries
                && !round.mutated,
            None => c.mutation_retries == 0,
        },
{
}

/// On a step every attempt ends with the transaction value cleared.
pub proof fn law_steps_carry_no_value(
    c: MutatorConfig,
    round: Round,
    changed: bool,
    facts: InputFacts,
)
    ensures
        c.settled(round, true, changed, facts) == (
            MutationPhase::Clearing { round, changed },
            MutationAction::ClearValue,
        ),
{
}

} // verus!
