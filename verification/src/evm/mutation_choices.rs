//! Which draw leads to which action of a mutation, choice by choice.

use vstd::prelude::*;

use crate::evm::cross_chain::effects::law_index_is_the_remainder;
use crate::evm::fuzz_mutator::{
    abi_drawn, action_for, refused, round_of, AbiDraw, Constraint, ConstraintAction, InputFacts,
    MutationAction, MutationPhase, MutationReply, MutationResult, MutatorConfig, Round,
};

verus! {

/// Whether an attempt of the given round begins: on a step and on an ordinary
/// input a sample is drawn, on a borrow that is no step a byte.
pub open spec fn attempt_begins(
    c: MutatorConfig,
    facts: InputFacts,
    round: Round,
    after: MutationPhase,
    action: MutationAction,
) -> bool {
    &&& round_of(after) == Some(round)
    &&& after is StepChoice <==> facts.is_step
    &&& after is BorrowByte <==> facts.is_borrow && !facts.is_step
    &&& after is Choice <==> !facts.is_borrow && !facts.is_step
    &&& action == MutationAction::Draw(256) <==> (facts.is_borrow && !facts.is_step) || (
    c.sample_max == 256)
    &&& action == MutationAction::Draw(c.sample_max) <==> facts.is_step || !facts.is_borrow
        || c.sample_max == 256
}

/// Whether the mutation is over with the given result.
pub open spec fn over(after: MutationPhase, action: MutationAction, mutated: bool) -> bool {
    &&& after is Finished
    &&& action is Finish
    &&& action->Finish_0 is Mutated <==> mutated
}

/// Whether the first round begins: with all its attempts to go where nothing was
/// changed so far and a round is allowed; otherwise the mutation is over.
pub open spec fn rounds_begin(
    c: MutatorConfig,
    facts: InputFacts,
    havoc: u64,
    mutated: bool,
    after: MutationPhase,
    action: MutationAction,
) -> bool {
    if mutated || c.mutation_retries == 0 {
        over(after, action, mutated)
    } else {
        attempt_begins(
            c,
            facts,
            Round { havoc, tries: 0, left: havoc, mutated: false },
            after,
            action,
        )
    }
}

/// Whether the choice of a VM state is behind the mutation: an input that is no
/// step, on a state with an execution to resume, may be turned into a step, and
/// any other goes on to the rounds.
pub open spec fn state_stands(
    c: MutatorConfig,
    facts: InputFacts,
    havoc: u64,
    mutated: bool,
    after: MutationPhase,
    action: MutationAction,
) -> bool {
    if facts.has_post_execution && !facts.is_step {
        &&& after == MutationPhase::StepDraw { havoc, mutated }
        &&& action == MutationAction::Draw(c.sample_max)
    } else {
        rounds_begin(c, facts, havoc, mutated, after, action)
    }
}

/// Whether the mutation goes on behind an attempt of `round`: with the next
/// attempt of the round; behind the last one it is over where the round changed
/// the input, and otherwise a new round begins or, where there were enough, the
/// mutation is over without a change.
pub open spec fn attempt_ends(
    c: MutatorConfig,
    facts: InputFacts,
    round: Round,
    changed: bool,
    after: MutationPhase,
    action: MutationAction,
) -> bool {
    let mutated = round.mutated || changed;
    if round.left > 1 {
        attempt_begins(
            c,
            facts,
            Round { left: (round.left - 1) as u64, mutated, ..round },
            after,
            action,
        )
    } else if mutated || round.tries + 1 >= c.mutation_retries {
        over(after, action, mutated)
    } else {
        attempt_begins(
            c,
            facts,
            Round {
                havoc: round.havoc,
                tries: (round.tries + 1) as u64,
                left: round.havoc,
                mutated: false,
            },
            after,
            action,
        )
    }
}

/// The choice on an ordinary input: up to the liquidation odds the liquidation
/// is set, above them and up to the randomness odds a random byte is drawn, and
/// above both the calldata is mutated.
pub proof fn law_choice_by_draw(c: MutatorConfig, round: Round, v: u64, facts: InputFacts)
    ensures
        ({
            let (after, action) = c.next(
                MutationPhase::Choice { round },
                MutationReply::Drawn(v),
                facts,
            );
            &&& round_of(after) == Some(round)
            &&& action == MutationAction::MutateInput <==> v > c.liquidate_choice && v
                > c.randomness_choice_2
            &&& after == (MutationPhase::Mutating { round, step: false }) <==> v
                > c.liquidate_choice && v > c.randomness_choice_2
            &&& after is RandomByte <==> v > c.liquidate_choice && v <= c.randomness_choice_2
            &&& after is RandomByte ==> action == MutationAction::Draw(256)
            &&& after == (MutationPhase::Liquidate { round, step: false }) <==> v
                <= c.liquidate_choice
            &&& after is Liquidate ==> action == MutationAction::Draw(c.sample_max)
        }),
{
}

/// The choice on a step: above the liquidation odds the calldata is mutated; up
/// to them the liquidation is set where there is a way to liquidate, and
/// otherwise the attempt changes nothing but the transaction value.
pub proof fn law_step_choice_by_draw(c: MutatorConfig, round: Round, v: u64, facts: InputFacts)
    ensures
        ({
            let (after, action) = c.next(
                MutationPhase::StepChoice { round },
                MutationReply::Drawn(v),
                facts,
            );
            &&& action == MutationAction::MutateInput <==> v > c.liquidate_choice
            &&& after == (MutationPhase::Mutating { round, step: true }) <==> v
                > c.liquidate_choice
            &&& action == MutationAction::Draw(c.sample_max) <==> v <= c.liquidate_choice
                && facts.can_liquidate
            &&& after == (MutationPhase::Liquidate { round, step: true }) <==> v
                <= c.liquidate_choice && facts.can_liquidate
            &&& action == MutationAction::ClearValue <==> v <= c.liquidate_choice
                && !facts.can_liquidate
            &&& after == (MutationPhase::Clearing { round, changed: false }) <==> v
                <= c.liquidate_choice && !facts.can_liquidate
        }),
{
}

/// A borrow draws a byte and then a sample: up to the randomness odds the byte
/// becomes its randomness, and above them the calldata is mutated.
pub proof fn law_borrow_by_draw(
    c: MutatorConfig,
    round: Round,
    byte: u64,
    v: u64,
    seen: InputFacts,
    facts: InputFacts,
)
    requires
        byte < 256,
    ensures
        ({
            let (between, first) = c.next(
                MutationPhase::BorrowByte { round },
                MutationReply::Drawn(byte),
                seen,
            );
            let (after, action) = c.next(between, MutationReply::Drawn(v), facts);
            &&& first == MutationAction::Draw(c.sample_max)
            &&& round_of(after) == Some(round)
            &&& v <= c.randomness_choice ==> after is RandomnessSet && action
                is SetRandomness && action->SetRandomness_0 == byte
            &&& v > c.randomness_choice ==> after == (MutationPhase::Mutating {
                round,
                step: false,
            }) && action == MutationAction::MutateInput
        }),
{
}

/// The random byte of an ordinary input becomes its randomness, and setting the
/// randomness always counts as a change.
pub proof fn law_randomness_is_the_drawn_byte(
    c: MutatorConfig,
    round: Round,
    byte: u64,
    seen: InputFacts,
    facts: InputFacts,
)
    requires
        c.round_wf(round),
        byte < 256,
    ensures
        ({
            let (between, first) = c.next(
                MutationPhase::RandomByte { round },
                MutationReply::Drawn(byte),
                seen,
            );
            let (after, action) = c.next(between, MutationReply::Done, facts);
            &&& first is SetRandomness
            &&& first->SetRandomness_0 == byte
            &&& attempt_ends(c, facts, round, true, after, action)
        }),
{
}

/// The liquidation is set to the configured percentage where the draw falls
/// below its odds, and to nothing otherwise. It counts as a change where the
/// percentage is another one afterwards. On a step the transaction value is
/// cleared before the attempt ends.
pub proof fn law_liquidation_by_draw(
    c: MutatorConfig,
    round: Round,
    step: bool,
    v: u64,
    seen: InputFacts,
    facts: InputFacts,
)
    requires
        c.round_wf(round),
    ensures
        ({
            let (between, first) = c.next(
                MutationPhase::Liquidate { round, step },
                MutationReply::Drawn(v),
                seen,
            );
            let (after, action) = c.next(between, MutationReply::Done, facts);
            let changed = seen.liquidation_percent != facts.liquidation_percent;
            &&& first is SetLiquidation
            &&& v < c.liq_percent_choice ==> first->SetLiquidation_0 == c.liq_percent
            &&& v >= c.liq_percent_choice ==> first->SetLiquidation_0 == 0
            &&& !step ==> attempt_ends(c, facts, round, changed, after, action)
            &&& step ==> after == (MutationPhase::Clearing { round, changed }) && action
                == MutationAction::ClearValue
        }),
{
}

/// A mutation of the calldata counts as a change where the calldata changed. On
/// a step the transaction value is cleared before the attempt ends.
pub proof fn law_calldata_change_counts(
    c: MutatorConfig,
    round: Round,
    changed: bool,
    seen: InputFacts,
    facts: InputFacts,
)
    requires
        c.round_wf(round),
    ensures
        ({
            let plain = c.next(
                MutationPhase::Mutating { round, step: false },
                MutationReply::Changed(changed),
                facts,
            );
            let (between, first) = c.next(
                MutationPhase::Mutating { round, step: true },
                MutationReply::Changed(changed),
                seen,
            );
            let (after, action) = c.next(between, MutationReply::Done, facts);
            &&& attempt_ends(c, facts, round, changed, plain.0, plain.1)
            &&& first == MutationAction::ClearValue
            &&& attempt_ends(c, facts, round, changed, after, action)
        }),
{
}

/// How a mutation begins: an input without a VM state is given one first; then
/// a sample is drawn, for the exploit template where there is one, and for the
/// number of attempts otherwise.
pub proof fn law_start_by_facts(c: MutatorConfig, facts: InputFacts)
    ensures
        ({
            let (after, action) = c.next(MutationPhase::Start, MutationReply::Done, facts);
            let staged = c.next(MutationPhase::Staging, MutationReply::Done, facts);
            &&& action == MutationAction::StageState <==> !facts.initialized
            &&& after is Staging <==> !facts.initialized
            &&& facts.initialized ==> (after, action) == staged
            &&& staged.1 == MutationAction::Draw(c.sample_max)
            &&& staged.0 is PresetDraw <==> facts.has_preset
            &&& staged.0 is HavocDraw <==> !facts.has_preset
        }),
{
}

/// The exploit template is used where the draw falls below its odds and the
/// input does not borrow. Where it has a call the calldata is mutated once and
/// the mutation is over; otherwise it goes on as if there were no template.
pub proof fn law_template_by_draw(
    c: MutatorConfig,
    v: u64,
    found: bool,
    changed: bool,
    facts: InputFacts,
)
    ensures
        ({
            let drawn = c.next(MutationPhase::PresetDraw, MutationReply::Drawn(v), facts);
            let taken = c.next(MutationPhase::PresetTaken, MutationReply::Found(found), facts);
            let (after, action) = c.next(
                MutationPhase::PresetMutating,
                MutationReply::Changed(changed),
                facts,
            );
            let used = v < c.exploit_preset_choice && !facts.is_borrow;
            &&& drawn.1 == MutationAction::TakePreset <==> used
            &&& drawn.0 is PresetTaken <==> used
            &&& !used ==> drawn == (MutationPhase::HavocDraw, MutationAction::Draw(c.sample_max))
            &&& taken.1 == MutationAction::MutateInput <==> found
            &&& taken.0 is PresetMutating <==> found
            &&& !found ==> taken == (MutationPhase::HavocDraw, MutationAction::Draw(c.sample_max))
            &&& over(after, action, true)
        }),
{
}

/// How many attempts a round has: one, unless the draw falls below the havoc
/// odds; then one more than the number drawn next. An input that is no step then
/// draws for another VM state, and a step keeps its own.
pub proof fn law_attempts_by_draw(c: MutatorConfig, v: u64, times: u64, facts: InputFacts)
    requires
        times < c.havoc_max_iters,
    ensures
        ({
            let single = c.next(MutationPhase::HavocDraw, MutationReply::Drawn(v), facts);
            let many = c.next(MutationPhase::HavocTimes, MutationReply::Drawn(times), facts);
            &&& single == (MutationPhase::HavocTimes, MutationAction::Draw(c.havoc_max_iters))
                <==> v < c.havoc_choice
            &&& v >= c.havoc_choice && !facts.is_step ==> single == (
                MutationPhase::CallerDraw { havoc: 1 },
                MutationAction::Draw(c.sample_max),
            )
            &&& v >= c.havoc_choice && facts.is_step ==> rounds_begin(
                c,
                facts,
                1,
                false,
                single.0,
                single.1,
            )
            &&& !facts.is_step ==> many == (
                MutationPhase::CallerDraw { havoc: (times + 1) as u64 },
                MutationAction::Draw(c.sample_max),
            )
            &&& facts.is_step ==> rounds_begin(
                c,
                facts,
                (times + 1) as u64,
                false,
                many.0,
                many.1,
            )
        }),
{
}

/// Another VM state is picked where the draw falls below its odds. It is left
/// alone where it is the one that the input has; otherwise an unknown caller is
/// replaced first, and the constraints of the state come next.
pub proof fn law_state_by_draw(
    c: MutatorConfig,
    havoc: u64,
    v: u64,
    picked: usize,
    facts: InputFacts,
)
    ensures
        ({
            let drawn = c.next(
                MutationPhase::CallerDraw { havoc },
                MutationReply::Drawn(v),
                facts,
            );
            let chosen = c.next(
                MutationPhase::StatePick { havoc },
                MutationReply::Picked(picked),
                facts,
            );
            let called = c.next(MutationPhase::CallerSet { havoc }, MutationReply::Done, facts);
            let constrain = (
                MutationPhase::Constraining { havoc },
                MutationAction::ApplyConstraints,
            );
            &&& drawn == (MutationPhase::StatePick { havoc }, MutationAction::PickState) <==> v
                < c.mutate_caller_choice
            &&& v >= c.mutate_caller_choice ==> state_stands(
                c,
                facts,
                havoc,
                false,
                drawn.0,
                drawn.1,
            )
            &&& picked == facts.state_idx ==> state_stands(
                c,
                facts,
                havoc,
                false,
                chosen.0,
                chosen.1,
            )
            &&& chosen == constrain <==> picked != facts.state_idx && facts.has_caller
            &&& chosen == (MutationPhase::CallerSet { havoc }, MutationAction::SetRandomCaller)
                <==> picked != facts.state_idx && !facts.has_caller
            &&& called == constrain
        }),
{
}

/// The picked VM state is adopted exactly where its constraints can be met, and
/// to adopt it counts as a change.
pub proof fn law_state_is_adopted(c: MutatorConfig, havoc: u64, met: bool, facts: InputFacts)
    ensures
        ({
            let constrained = c.next(
                MutationPhase::Constraining { havoc },
                MutationReply::Found(met),
                facts,
            );
            let adopted = c.next(MutationPhase::Adopting { havoc }, MutationReply::Done, facts);
            &&& constrained == (MutationPhase::Adopting { havoc }, MutationAction::AdoptState)
                <==> met
            &&& !met ==> state_stands(c, facts, havoc, false, constrained.0, constrained.1)
            &&& state_stands(c, facts, havoc, true, adopted.0, adopted.1)
        }),
{
}

/// An input is turned into a step where the draw falls below its odds; a borrow
/// stays what it is, and either way the mutation counts as done. Otherwise the
/// rounds begin.
pub proof fn law_turn_to_step_by_draw(
    c: MutatorConfig,
    havoc: u64,
    mutated: bool,
    v: u64,
    facts: InputFacts,
)
    requires
        havoc >= 1,
    ensures
        ({
            let (after, action) = c.next(
                MutationPhase::StepDraw { havoc, mutated },
                MutationReply::Drawn(v),
                facts,
            );
            &&& action == MutationAction::TurnToStep <==> v < c.turn_to_step_choice
                && !facts.is_borrow
            &&& action == MutationAction::TurnToStep ==> after == (MutationPhase::Stepping {
                left: (havoc - 1) as u64,
            })
            &&& v < c.turn_to_step_choice && facts.is_borrow ==> over(after, action, true)
            &&& v >= c.turn_to_step_choice ==> rounds_begin(c, facts, havoc, mutated, after, action)
        }),
{
}

/// The actions of a mutation that is turning an input into a step, from the
/// phase on until it is over.
pub open spec fn stepping_actions(c: MutatorConfig, left: u64, facts: InputFacts) -> Seq<
    MutationAction,
>
    decreases left,
{
    let (after, action) = c.next(
        MutationPhase::Stepping { left },
        MutationReply::Done,
        facts,
    );
    match after {
        MutationPhase::Stepping { left: fewer } => if fewer < left {
            seq![action] + stepping_actions(c, fewer, facts)
        } else {
            Seq::empty()
        },
        _ => seq![action],
    }
}

/// An input that was turned into a step is mutated once for each attempt but the
/// first, and then the mutation is over as mutated.
pub proof fn law_stepping_mutates_the_rest(c: MutatorConfig, left: u64, facts: InputFacts)
    ensures
        stepping_actions(c, left, facts) == Seq::new(
            left as nat,
            |i: int| MutationAction::MutateInput,
        ).push(MutationAction::Finish(MutationResult::Mutated)),
    decreases left,
{
    if left > 0 {
        law_stepping_mutates_the_rest(c, (left - 1) as u64, facts);
    }
    assert(stepping_actions(c, left, facts) =~= Seq::new(
        left as nat,
        |i: int| MutationAction::MutateInput,
    ).push(MutationAction::Finish(MutationResult::Mutated)));
}

/// What each constraint asks of the input: its caller, its value or its target
/// is set to the one named, its liquidation to nothing, or it steps now.
pub proof fn law_constraint_is_met(c: MutatorConfig, constraint: Constraint, draw: AbiDraw)
    ensures
        ({
            let action = action_for(c, constraint, draw);
            &&& action is SetCaller <==> constraint is Caller
            &&& action is SetCaller ==> action->SetCaller_0 == constraint->Caller_0
            &&& action is SetValue <==> constraint is Value
            &&& action is SetValue ==> action->SetValue_0 == constraint->Value_0
            &&& action is SetContract <==> constraint is Contract
            &&& action is SetContract ==> action->target == constraint->Contract_0
            &&& action is SetContract ==> action->abi == abi_drawn(c, draw)
            &&& action == ConstraintAction::SetLiquidation(0) <==> constraint is NoLiquidation
            &&& action is StepNow <==> constraint is MustStepNow
        }),
{
}

/// An ABI of the target is drawn where one is known and the sample does not
/// exceed the odds: the one whose position is the number, modulo how many are
/// known.
pub proof fn law_abi_by_draw(c: MutatorConfig, draw: AbiDraw)
    requires
        draw.number <= usize::MAX,
    ensures
        abi_drawn(c, draw) is Some <==> draw.known > 0 && draw.sample <= c.abi_mutate_choice,
        abi_drawn(c, draw) matches Some(i) ==> i < draw.known && i == draw.number as int % (
        draw.known as int),
{
    if draw.known > 0 {
        law_index_is_the_remainder(draw.number, draw.known as int);
    }
}

/// A list of constraints is refused exactly where the input borrows and some
/// constraint of the list asks it to step or names a target.
pub proof fn law_refusal_by_list(constraints: Seq<Constraint>, is_borrow: bool)
    ensures
        refused(constraints, is_borrow) ==> is_borrow && exists|i: int|
            0 <= i < constraints.len() && (#[trigger] constraints[i] is MustStepNow
                || constraints[i] is Contract),
        forall|i: int|
            0 <= i < constraints.len() && is_borrow && (#[trigger] constraints[i] is MustStepNow
                || constraints[i] is Contract) ==> refused(constraints, is_borrow),
{
    assert forall|i: int|
        0 <= i < constraints.len() && is_borrow && (#[trigger] constraints[i] is MustStepNow
            || constraints[i] is Contract) implies refused(constraints, is_borrow) by {
        assert(crate::evm::fuzz_mutator::refuses_borrow(constraints[i]));
    }
}

} // verus!
