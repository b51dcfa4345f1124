use ityfuzz::evm::cross_chain::DualChainState;
use ityfuzz::evm::types::{EVMAddress, EVMU256};
use ityfuzz::rl_scheduler::{
    arms_to_drop, build_cross_chain_signal, Draw, RLMetadata, RLScheduler, SchedulerError,
    SchedulerLimits, SchedulerMetadata, VoteData,
};

const LIMITS: SchedulerLimits = SchedulerLimits {
    drop_threshold: 4,
    prune_amt: 3,
    init_q: 50,
    prune_q_threshold: 20,
};

fn scheduler() -> RLScheduler<()> {
    RLScheduler::new()
}

#[test]
fn a_fresh_bandit_knows_no_arm() {
    let m = RLMetadata::default();
    assert_eq!(m.total_visits, 1);
    assert_eq!(m.get_mean(50, 7), 50);
    assert_eq!(m.ucb_terms(50, 7), (50, 1, 1));
    assert_eq!(m.update_terms(50, 7), Some((50, 1)));
    assert!(m.arms().is_empty());
}

#[test]
fn a_reward_counts_and_sets_the_mean() {
    let mut m = RLMetadata::new();
    m.update(7, 60);
    m.update(7, 70);
    m.update(8, 10);
    assert_eq!(m.ucb_terms(50, 7), (70, 2, 4));
    assert_eq!(m.ucb_terms(50, 8), (10, 1, 4));
    assert_eq!(m.update_terms(50, 7), Some((70, 3)));
}

#[test]
fn a_used_up_counter_takes_no_reward() {
    let mut m = RLMetadata::new();
    m.total_visits = u64::MAX;
    assert_eq!(m.update_terms(50, 7), None);
}

#[test]
fn an_arm_that_comes_in_starts_optimistic() {
    let mut state = SchedulerMetadata::new();
    let dropped = scheduler().on_add(&mut state, &LIMITS, 5, 1);
    assert!(dropped.is_empty());
    let m = state.rl.unwrap();
    assert_eq!(m.ucb_terms(0, 5), (50, 1, 1));
    let votes = state.votes.unwrap();
    assert_eq!((votes.visits_total, votes.votes_total), (1, 1));
}

#[test]
fn a_known_arm_keeps_its_mean_when_it_comes_in_again() {
    let mut state = SchedulerMetadata::new();
    scheduler().vote(&mut state, 5, 33);
    scheduler().on_add(&mut state, &LIMITS, 5, 1);
    assert_eq!(state.rl.unwrap().ucb_terms(0, 5), (33, 1, 2));
}

#[test]
fn the_lowest_means_are_dropped_first() {
    let listing = vec![(9, 5), (4, 30), (6, 5), (8, 1), (1, 0), (7, 20)];
    // by mean: 1, 8, 9, 6, 7, 4; the first three are looked at, arm 1 is spared
    assert_eq!(arms_to_drop(&LIMITS, 4, &listing), vec![8, 9]);
    // the arm that comes in is spared
    assert_eq!(arms_to_drop(&LIMITS, 8, &listing), vec![9]);
}

#[test]
fn means_above_the_threshold_are_spared() {
    let listing = vec![(9, 21), (8, 20), (7, 22)];
    assert_eq!(arms_to_drop(&LIMITS, 3, &listing), vec![8]);
}

#[test]
fn too_large_a_corpus_loses_arms() {
    let mut s = scheduler();
    let mut state = SchedulerMetadata::new();
    for idx in 0..5 {
        s.on_add(&mut state, &LIMITS, idx, 1);
    }
    s.vote(&mut state, 3, 2);
    s.vote(&mut state, 4, 90);
    let rl = state.rl.as_mut().unwrap();
    rl.last_selected = Some(3);
    let votes = state.votes.as_mut().unwrap();
    votes.sorted_votes = vec![3, 4, 3];
    votes.votes_and_visits.insert(3, (1, 1));
    let dropped = s.on_add(&mut state, &LIMITS, 5, 6);
    assert_eq!(dropped, vec![3]);
    let rl = state.rl.as_ref().unwrap();
    assert_eq!(rl.to_remove, vec![3]);
    assert_eq!(rl.last_selected, None);
    let mut arms = rl.arms();
    arms.sort();
    assert_eq!(arms, vec![0, 1, 2, 4, 5]);
    let votes = state.votes.as_ref().unwrap();
    assert_eq!(votes.sorted_votes, vec![4]);
    assert!(votes.votes_and_visits.is_empty());
}

#[test]
fn a_removed_arm_is_forgotten() {
    let mut s = scheduler();
    let mut state = SchedulerMetadata::new();
    s.report_corpus(&mut state, 4, 9);
    s.sponsor_state(&mut state, 5, 8);
    s.on_remove(&mut state, 4);
    assert_eq!(s.arms(&state), vec![5]);
    assert!(state.votes.is_none());
}

#[test]
fn removing_from_nothing_makes_nothing() {
    let mut s = scheduler();
    let mut state = SchedulerMetadata::new();
    s.on_remove(&mut state, 4);
    assert!(state.rl.is_none());
}

#[test]
fn an_empty_corpus_is_an_error() {
    let mut s = scheduler();
    let mut state = SchedulerMetadata::new();
    let arms = s.arms(&state);
    assert_eq!(
        s.next(&mut state, None, &arms, &Draw::Explore(0)),
        Err(SchedulerError::EmptyCorpus)
    );
    assert!(state.rl.is_some());
    assert_eq!(s.awaiting_reward(&state), None);
}

#[test]
fn exploration_takes_the_arm_at_its_place() {
    let mut s = scheduler();
    let mut state = SchedulerMetadata::new();
    assert_eq!(s.next(&mut state, None, &[4, 6, 8], &Draw::Explore(1)), Ok(6));
    assert_eq!(s.next(&mut state, None, &[4, 6, 8], &Draw::Explore(99)), Ok(8));
    let rl = state.rl.as_ref().unwrap();
    assert_eq!((rl.explore_count, rl.exploit_count), (2, 0));
    assert_eq!(s.awaiting_reward(&state), Some(8));
}

#[test]
fn exploitation_takes_the_last_of_the_best() {
    let mut s = scheduler();
    let mut state = SchedulerMetadata::new();
    let draw = Draw::Exploit(vec![5, 9, 1, 9, 3]);
    assert_eq!(s.next(&mut state, None, &[10, 20, 30, 40, 50], &draw), Ok(40));
    let rl = state.rl.as_ref().unwrap();
    assert_eq!((rl.explore_count, rl.exploit_count), (0, 1));
}

#[test]
fn fresh_votes_count_from_one() {
    let v = VoteData::new();
    assert_eq!((v.visits_total, v.votes_total), (1, 1));
    assert!(v.sorted_votes.is_empty());
}

#[test]
fn the_signal_shows_queue_and_amounts() {
    let mut s = DualChainState::new();
    let (a, b, c) = (
        EVMAddress::from([1u8; 20]),
        EVMAddress::from([2u8; 20]),
        EVMAddress::from([3u8; 20]),
    );
    s.lock_a(b, EVMU256::from(10u64));
    s.lock_a(a, EVMU256::from(7u64));
    s.lock_a(c, EVMU256::zero());
    s.mint_b(a, EVMU256::max_value());
    let signal = build_cross_chain_signal(1, 1, 1, 2, &s);
    assert!(signal.message_dispatched);
    assert!(signal.message_relayed);
    assert_eq!(signal.imbalances, vec![(7, u128::MAX), (10, 0)]);
    let quiet = build_cross_chain_signal(2, 1, 1, 1, &s);
    assert!(!quiet.message_dispatched);
    assert!(!quiet.message_relayed);
}

#[test]
fn a_selection_does_not_remember_its_arm() {
    let mut m = RLMetadata::new();
    m.last_selected = Some(3);
    assert_eq!(m.select(&[4, 6], &Draw::Explore(1)), 6);
    assert_eq!(m.last_selected, Some(3));
    assert_eq!(m.explore_count, 1);
    assert_eq!(m.select(&[4, 6], &Draw::Exploit(vec![9, 2])), 4);
    assert_eq!(m.last_selected, Some(3));
    assert_eq!(m.exploit_count, 1);
}

#[test]
fn a_waiting_reward_goes_to_the_last_arm() {
    let mut s = scheduler();
    let mut state = SchedulerMetadata::new();
    assert!(!s.reward_last(&mut state, 9));
    assert!(state.rl.is_none());
    s.on_add(&mut state, &LIMITS, 4, 1);
    s.on_add(&mut state, &LIMITS, 6, 1);
    assert_eq!(s.next(&mut state, None, &[4, 6], &Draw::Explore(1)), Ok(6));
    assert!(s.reward_last(&mut state, 9));
    let rl = state.rl.as_ref().unwrap();
    assert_eq!(rl.ucb_terms(0, 6), (9, 2, 2));
    assert_eq!(rl.ucb_terms(0, 4), (50, 1, 2));
    assert_eq!(rl.last_selected, Some(6));
    s.on_remove(&mut state, 6);
    assert!(!s.reward_last(&mut state, 1));
    assert_eq!(state.rl.as_ref().unwrap().ucb_terms(0, 4), (50, 1, 2));
}

#[test]
fn one_full_counter_does_not_hinder_the_other() {
    let mut m = RLMetadata::new();
    m.explore_count = usize::MAX;
    assert_eq!(m.select(&[4, 6], &Draw::Exploit(vec![1, 2])), 6);
    assert_eq!((m.explore_count, m.exploit_count), (usize::MAX, 1));
}

#[test]
fn the_next_selection_first_rewards_the_last_one() {
    let mut s = scheduler();
    let mut state = SchedulerMetadata::new();
    s.on_add(&mut state, &LIMITS, 4, 1);
    s.on_add(&mut state, &LIMITS, 6, 1);
    // no arm waits for a reward yet
    assert_eq!(s.next(&mut state, Some(1), &[4, 6], &Draw::Explore(0)), Ok(4));
    assert_eq!(state.rl.as_ref().unwrap().total_visits, 1);
    assert_eq!(s.next(&mut state, Some(30), &[4, 6], &Draw::Explore(1)), Ok(6));
    let rl = state.rl.as_ref().unwrap();
    assert_eq!(rl.ucb_terms(0, 4), (30, 2, 2));
    assert_eq!(rl.ucb_terms(0, 6), (50, 1, 2));
    assert_eq!(rl.last_selected, Some(6));
}
