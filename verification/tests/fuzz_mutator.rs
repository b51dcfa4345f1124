use ityfuzz::evm::fuzz_mutator::{
    AbiDraw, Constraint, ConstraintAction, ConstraintStep, FuzzMutator, InputFacts, MutationAction, MutationPhase,
    MutationReply, MutationResult, MutatorConfig,
};
use ityfuzz::evm::types::{EVMAddress, EVMU256};

fn config() -> MutatorConfig {
    MutatorConfig {
        sample_max: 100,
        exploit_preset_choice: 20,
        havoc_choice: 10,
        havoc_max_iters: 3,
        mutate_caller_choice: 30,
        turn_to_step_choice: 40,
        liquidate_choice: 5,
        liq_percent_choice: 50,
        liq_percent: 10,
        randomness_choice: 33,
        randomness_choice_2: 6,
        abi_mutate_choice: 96,
        mutation_retries: 2,
    }
}

fn facts() -> InputFacts {
    InputFacts {
        initialized: true,
        is_step: false,
        is_borrow: false,
        state_idx: 4,
        has_caller: true,
        has_post_execution: false,
        liquidation_percent: 0,
        has_preset: false,
        can_liquidate: true,
    }
}

fn at(phase: MutationPhase) -> FuzzMutator {
    FuzzMutator { config: config(), phase }
}

#[test]
fn an_input_without_state_gets_one() {
    let mut m = FuzzMutator::new(config());
    let raw = InputFacts { initialized: false, ..facts() };
    assert_eq!(m.step(MutationReply::Done, raw), MutationAction::StageState);
    assert_eq!(m.step(MutationReply::Done, facts()), MutationAction::Draw(100));
    assert_eq!(m.phase, MutationPhase::HavocDraw);
}

#[test]
fn a_template_is_used_at_its_odds() {
    let known = InputFacts { has_preset: true, ..facts() };
    let mut m = FuzzMutator::new(config());
    assert_eq!(m.step(MutationReply::Done, known), MutationAction::Draw(100));
    assert_eq!(m.step(MutationReply::Drawn(19), known), MutationAction::TakePreset);
    assert_eq!(m.step(MutationReply::Found(true), known), MutationAction::MutateInput);
    assert_eq!(
        m.step(MutationReply::Changed(false), known),
        MutationAction::Finish(MutationResult::Mutated)
    );
    let mut m = at(MutationPhase::PresetDraw);
    m.step(MutationReply::Drawn(20), known);
    assert_eq!(m.phase, MutationPhase::HavocDraw);
    let mut m = at(MutationPhase::PresetDraw);
    m.step(MutationReply::Drawn(0), InputFacts { is_borrow: true, ..known });
    assert_eq!(m.phase, MutationPhase::HavocDraw);
    let mut m = at(MutationPhase::PresetTaken);
    m.step(MutationReply::Found(false), known);
    assert_eq!(m.phase, MutationPhase::HavocDraw);
}

#[test]
fn havoc_repeats_attempts() {
    let mut m = at(MutationPhase::HavocDraw);
    assert_eq!(m.step(MutationReply::Drawn(9), facts()), MutationAction::Draw(3));
    m.step(MutationReply::Drawn(2), facts());
    assert_eq!(m.phase, MutationPhase::CallerDraw { havoc: 3 });
    let mut m = at(MutationPhase::HavocDraw);
    m.step(MutationReply::Drawn(10), facts());
    assert_eq!(m.phase, MutationPhase::CallerDraw { havoc: 1 });
}

#[test]
fn a_new_state_is_adopted_where_its_constraints_can_be_met() {
    let mut m = at(MutationPhase::CallerDraw { havoc: 1 });
    let stranger = InputFacts { has_caller: false, ..facts() };
    assert_eq!(m.step(MutationReply::Drawn(29), stranger), MutationAction::PickState);
    assert_eq!(m.step(MutationReply::Picked(5), stranger), MutationAction::SetRandomCaller);
    assert_eq!(m.step(MutationReply::Done, facts()), MutationAction::ApplyConstraints);
    assert_eq!(m.step(MutationReply::Found(true), facts()), MutationAction::AdoptState);
    assert_eq!(
        m.step(MutationReply::Done, facts()),
        MutationAction::Finish(MutationResult::Mutated)
    );
}

#[test]
fn the_same_state_is_no_mutation() {
    let mut m = at(MutationPhase::StatePick { havoc: 1 });
    assert_eq!(m.step(MutationReply::Picked(4), facts()), MutationAction::Draw(100));
    assert!(matches!(m.phase, MutationPhase::Choice { .. }));
    let mut m = at(MutationPhase::Constraining { havoc: 1 });
    m.step(MutationReply::Found(false), facts());
    assert!(matches!(m.phase, MutationPhase::Choice { .. }));
}

#[test]
fn an_input_turns_into_a_step() {
    let leak = InputFacts { has_post_execution: true, ..facts() };
    let mut m = at(MutationPhase::CallerDraw { havoc: 3 });
    assert_eq!(m.step(MutationReply::Drawn(30), leak), MutationAction::Draw(100));
    assert_eq!(m.step(MutationReply::Drawn(39), leak), MutationAction::TurnToStep);
    let step = InputFacts { is_step: true, ..leak };
    assert_eq!(m.step(MutationReply::Done, step), MutationAction::MutateInput);
    assert_eq!(m.step(MutationReply::Changed(false), step), MutationAction::MutateInput);
    assert_eq!(
        m.step(MutationReply::Changed(false), step),
        MutationAction::Finish(MutationResult::Mutated)
    );
}

#[test]
fn a_borrow_does_not_turn_into_a_step() {
    let leak = InputFacts { has_post_execution: true, is_borrow: true, ..facts() };
    let mut m = at(MutationPhase::StepDraw { havoc: 3, mutated: false });
    assert_eq!(
        m.step(MutationReply::Drawn(0), leak),
        MutationAction::Finish(MutationResult::Mutated)
    );
}

#[test]
fn a_step_clears_the_value_after_each_attempt() {
    let step = InputFacts { is_step: true, ..facts() };
    let mut m = at(MutationPhase::HavocDraw);
    assert_eq!(m.step(MutationReply::Drawn(50), step), MutationAction::Draw(100));
    assert_eq!(m.step(MutationReply::Drawn(6), step), MutationAction::MutateInput);
    assert_eq!(m.step(MutationReply::Changed(true), step), MutationAction::ClearValue);
    assert_eq!(
        m.step(MutationReply::Done, step),
        MutationAction::Finish(MutationResult::Mutated)
    );
}

#[test]
fn a_step_that_cannot_liquidate_is_given_up_after_the_retries() {
    let step = InputFacts { is_step: true, can_liquidate: false, ..facts() };
    let mut m = at(MutationPhase::HavocDraw);
    assert_eq!(m.step(MutationReply::Drawn(50), step), MutationAction::Draw(100));
    assert_eq!(m.step(MutationReply::Drawn(5), step), MutationAction::ClearValue);
    assert_eq!(m.step(MutationReply::Done, step), MutationAction::Draw(100));
    assert_eq!(m.step(MutationReply::Drawn(5), step), MutationAction::ClearValue);
    assert_eq!(
        m.step(MutationReply::Done, step),
        MutationAction::Finish(MutationResult::Skipped)
    );
}

#[test]
fn a_borrow_mutates_its_randomness() {
    let borrow = InputFacts { is_borrow: true, ..facts() };
    let mut m = at(MutationPhase::CallerDraw { havoc: 1 });
    assert_eq!(m.step(MutationReply::Drawn(99), borrow), MutationAction::Draw(256));
    assert_eq!(m.step(MutationReply::Drawn(200), borrow), MutationAction::Draw(100));
    assert_eq!(m.step(MutationReply::Drawn(33), borrow), MutationAction::SetRandomness(200));
    assert_eq!(
        m.step(MutationReply::Done, borrow),
        MutationAction::Finish(MutationResult::Mutated)
    );
}

#[test]
fn liquidation_counts_where_it_changes() {
    let mut m = at(MutationPhase::CallerDraw { havoc: 1 });
    m.step(MutationReply::Drawn(99), facts());
    assert_eq!(m.step(MutationReply::Drawn(5), facts()), MutationAction::Draw(100));
    assert_eq!(m.step(MutationReply::Drawn(49), facts()), MutationAction::SetLiquidation(10));
    let changed = InputFacts { liquidation_percent: 10, ..facts() };
    assert_eq!(
        m.step(MutationReply::Done, changed),
        MutationAction::Finish(MutationResult::Mutated)
    );

    let mut m = at(MutationPhase::CallerDraw { havoc: 1 });
    m.step(MutationReply::Drawn(99), facts());
    m.step(MutationReply::Drawn(5), facts());
    assert_eq!(m.step(MutationReply::Drawn(50), facts()), MutationAction::SetLiquidation(0));
    // nothing changed: the next round begins
    assert_eq!(m.step(MutationReply::Done, facts()), MutationAction::Draw(100));
    assert_eq!(m.step(MutationReply::Drawn(6), facts()), MutationAction::Draw(256));
    assert_eq!(m.step(MutationReply::Drawn(7), facts()), MutationAction::SetRandomness(7));
    assert_eq!(
        m.step(MutationReply::Done, facts()),
        MutationAction::Finish(MutationResult::Mutated)
    );
}

#[test]
fn every_mutation_ends() {
    for seed in 1..300u64 {
        let mut x = seed;
        let mut m = FuzzMutator::new(config());
        let mut f = facts();
        f.is_step = seed % 3 == 0;
        f.is_borrow = seed % 5 == 0;
        f.has_preset = seed % 2 == 0;
        f.has_post_execution = seed % 7 == 0;
        let mut action = m.step(MutationReply::Done, f);
        let mut steps = 0;
        while !matches!(action, MutationAction::Finish(_)) {
            x ^= x << 13;
            x ^= x >> 7;
            x ^= x << 17;
            let reply = match action {
                MutationAction::Draw(bound) => MutationReply::Drawn(x % bound),
                MutationAction::TakePreset | MutationAction::ApplyConstraints => {
                    MutationReply::Found(x % 2 == 0)
                }
                MutationAction::PickState => MutationReply::Picked(x as usize % 5),
                MutationAction::MutateInput => MutationReply::Changed(x % 4 == 0),
                _ => MutationReply::Done,
            };
            action = m.step(reply, f);
            steps += 1;
            assert!(steps < 60);
        }
    }
}

#[test]
fn constraints_become_actions() {
    let m = FuzzMutator::new(config());
    let addr = EVMAddress::from([3u8; 20]);
    let word = EVMU256::from(8u64);
    let draw = AbiDraw { known: 3, number: 7, sample: 96 };
    assert_eq!(
        m.ensures_constraint(&Constraint::Caller(addr), draw),
        ConstraintAction::SetCaller(addr)
    );
    assert_eq!(
        m.ensures_constraint(&Constraint::Value(word), draw),
        ConstraintAction::SetValue(word)
    );
    assert_eq!(
        m.ensures_constraint(&Constraint::Contract(addr), draw),
        ConstraintAction::SetContract { target: addr, abi: Some(1) }
    );
    assert_eq!(
        m.ensures_constraint(&Constraint::Contract(addr), AbiDraw { sample: 97, ..draw }),
        ConstraintAction::SetContract { target: addr, abi: None }
    );
    assert_eq!(
        m.ensures_constraint(&Constraint::Contract(addr), AbiDraw { known: 0, ..draw }),
        ConstraintAction::SetContract { target: addr, abi: None }
    );
    assert_eq!(
        m.ensures_constraint(&Constraint::NoLiquidation, draw),
        ConstraintAction::SetLiquidation(0)
    );
    assert_eq!(m.ensures_constraint(&Constraint::MustStepNow, draw), ConstraintAction::StepNow);
}

#[test]
fn a_borrow_meets_no_step_and_no_target() {
    let addr = EVMAddress::default();
    let mild = vec![Constraint::NoLiquidation, Constraint::Caller(addr)];
    assert!(FuzzMutator::constraints_admissible(&mild, true));
    let target = vec![Constraint::NoLiquidation, Constraint::Contract(addr)];
    assert!(!FuzzMutator::constraints_admissible(&target, true));
    assert!(FuzzMutator::constraints_admissible(&target, false));
    assert!(!FuzzMutator::constraints_admissible(&vec![Constraint::MustStepNow], true));
    assert!(FuzzMutator::constraints_admissible(&vec![], true));
}

#[test]
fn a_list_of_constraints_is_met_in_order_or_refused_as_a_whole() {
    let m = FuzzMutator::new(config());
    let addr = EVMAddress::from([3u8; 20]);
    let draw = AbiDraw { known: 2, number: 5, sample: 0 };
    let list = vec![
        Constraint::Caller(addr),
        Constraint::Contract(addr),
        Constraint::NoLiquidation,
        Constraint::MustStepNow,
    ];
    let expected = [
        ConstraintStep::Act(ConstraintAction::SetCaller(addr)),
        ConstraintStep::Act(ConstraintAction::SetContract { target: addr, abi: Some(1) }),
        ConstraintStep::Act(ConstraintAction::SetLiquidation(0)),
        ConstraintStep::Act(ConstraintAction::StepNow),
        ConstraintStep::Over,
    ];
    for (met, step) in expected.iter().enumerate() {
        assert_eq!(m.constraint_step(&list, false, met, draw), *step);
        assert_eq!(m.constraint_step(&list, true, met, draw), ConstraintStep::Refuse);
    }
    let mild = vec![Constraint::NoLiquidation];
    assert_eq!(
        m.constraint_step(&mild, true, 0, draw),
        ConstraintStep::Act(ConstraintAction::SetLiquidation(0))
    );
    assert_eq!(m.constraint_step(&vec![], true, 0, draw), ConstraintStep::Over);
}
