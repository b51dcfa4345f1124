use ityfuzz::evm::oracles::access_control::{AccessControlOracle, AccessControlState};
use ityfuzz::evm::oracles::price_oracle_manip::{PoolState, PriceOracleOracle};
use ityfuzz::evm::types::{EVMAddress, EVMU256};
use ityfuzz::fuzzers::cross_chain_fuzzer::{
    replay_path, run_gap_oracles, CrossChainFuzzer, CrossChainFuzzerConfig, EnergyUpdate, RunResult,
};

fn make_fuzzer(seed: u64, max_iter: u64) -> CrossChainFuzzer {
    CrossChainFuzzer::new(CrossChainFuzzerConfig {
        seed: Some(seed),
        time_budget_secs: None,
        max_iterations: Some(max_iter),
        deterministic: true,
        ..Default::default()
    })
}

/// Selects an entry in proportion to its weight.
fn select(energies: &[f64], draw: u64) -> usize {
    let total: f64 = energies.iter().sum();
    let mut pick = (draw as f64 / u64::MAX as f64) * total;
    for (i, e) in energies.iter().enumerate() {
        pick -= e;
        if pick <= 0.0 {
            return i;
        }
    }
    energies.len() - 1
}

fn run(fuzzer: &mut CrossChainFuzzer) -> RunResult {
    let mut result = RunResult::new();
    let mut energies = vec![1.0f64; fuzzer.mutator.corpus.len()];
    while fuzzer.goes_on(result.iterations, false) {
        let idx = match fuzzer.mutator.draw_selection() {
            Some(draw) => select(&energies, draw),
            None => 0,
        };
        assert!(fuzzer.can_step(&result));
        for update in fuzzer.step(&mut result, idx) {
            energies[idx] = match update {
                EnergyUpdate::Reward => (energies[idx] * 1.5).min(10.0),
                EnergyUpdate::Decay => (energies[idx] * 0.9).max(0.1),
            };
        }
    }
    result
}

#[test]
fn test_fuzzer_runs_without_panic() {
    let mut f = make_fuzzer(42, 100);
    let result = run(&mut f);
    assert_eq!(result.iterations, 100);
}

#[test]
fn test_deterministic_same_seed_same_result() {
    let r1 = run(&mut make_fuzzer(99, 50));
    let r2 = run(&mut make_fuzzer(99, 50));
    assert_eq!(r1.iterations, r2.iterations);
    assert_eq!(r1.bugs_found.len(), r2.bugs_found.len());
}

#[test]
fn same_seed_finds_the_same_bugs_in_order() {
    let r1 = run(&mut make_fuzzer(7, 300));
    let r2 = run(&mut make_fuzzer(7, 300));
    assert_eq!(r1.bugs_found, r2.bugs_found);
}

#[test]
fn each_bug_is_listed_once_with_its_path() {
    let r = run(&mut make_fuzzer(1, 200));
    assert_eq!(r.bugs_found.len(), r.exploit_paths.len());
    for (i, b) in r.bugs_found.iter().enumerate() {
        assert!(!r.bugs_found[..i].contains(b));
        assert!(!r.exploit_paths[i].steps.is_empty());
    }
}

#[test]
fn the_corpus_starts_with_three_entries() {
    let f = make_fuzzer(5, 1);
    assert_eq!(f.mutator.corpus.len(), 3);
    assert_eq!(f.mutator.corpus[0], vec![0u8; 64]);
    assert_eq!(f.mutator.corpus[1], vec![0xffu8; 64]);
    assert_eq!(f.mutator.corpus[2][0..4], [0x12, 0x34, 0x56, 0x78]);
    assert_eq!(f.mutator.corpus[2][4..], [0u8; 60]);
    assert_eq!(f.mutator.rng, 5);
}

#[test]
fn without_a_seed_the_generators_start_in_fixed_states() {
    let f = CrossChainFuzzer::new(CrossChainFuzzerConfig::default());
    assert_eq!(f.mutator.rng, 0xdeadbeef);
    assert_eq!(f.executor.rng_state, 0xdeadbeef_cafebabe);
    assert_eq!(f.config.time_budget_secs, Some(1800));
}

#[test]
fn the_clock_stops_a_campaign_unless_it_is_ignored() {
    let mut f = CrossChainFuzzer::new(CrossChainFuzzerConfig::default());
    assert!(f.goes_on(10, false));
    assert!(!f.goes_on(10, true));
    f.config.deterministic = true;
    assert!(f.goes_on(10, true));
    f.config.max_iterations = Some(10);
    assert!(!f.goes_on(10, false));
    assert!(f.goes_on(9, false));
    f.config.deterministic = false;
    f.config.time_budget_secs = None;
    assert!(f.goes_on(9, true));
}

#[test]
fn an_iteration_deposits_and_relays() {
    let mut f = make_fuzzer(3, 10);
    let mut r = RunResult::new();
    let updates = f.step_with(&mut r, 0, None);
    assert_eq!(r.iterations, 1);
    assert_eq!(f.executor.iteration, 2);
    assert_eq!(f.executor.state.queue.total_count(), 1);
    assert_eq!(f.executor.state.queue.processed_count(), 1);
    assert_eq!(f.executor.state.queue.messages[0].payload, vec![0xab; 32]);
    assert_eq!(f.executor.state.queue.messages[0].nonce, 1);
    assert_eq!(updates, vec![EnergyUpdate::Reward, EnergyUpdate::Reward]);
}

#[test]
fn a_missing_corpus_entry_is_left_alone() {
    let mut f = make_fuzzer(3, 10);
    let mut r = RunResult::new();
    let before = f.mutator.corpus.clone();
    f.step(&mut r, 17);
    assert_eq!(f.mutator.corpus, before);
}

#[test]
fn a_rejected_deposit_gives_no_signal() {
    let mut f = make_fuzzer(3, 10);
    f.executor.verify_config.allow_insufficient_sigs = false;
    f.executor.verify_config.signature_threshold = 6;
    f.executor.verify_config.simulate_nomad_bypass = false;
    let mut r = RunResult::new();
    assert_eq!(f.step(&mut r, 0), vec![EnergyUpdate::Decay]);
    assert!(r.bugs_found.is_empty());
    assert_eq!(f.executor.state.queue.total_count(), 0);
}

#[test]
fn known_bugs_are_not_recorded_again() {
    let f = make_fuzzer(3, 10);
    let mut r = RunResult::new();
    r.record(&vec![14, 12, 14], &f.executor.exploit_path);
    r.record(&vec![12, 16], &f.executor.exploit_path);
    assert_eq!(r.bugs_found, vec![14, 12, 16]);
    assert_eq!(r.exploit_paths.len(), 3);
}

#[test]
fn used_up_counters_are_seen() {
    let mut f = make_fuzzer(3, 10);
    let mut r = RunResult::new();
    assert!(f.can_step(&r));
    r.iterations = u64::MAX - 1;
    assert!(!f.can_step(&r));
    r.iterations = 0;
    f.executor.state.queue.next_id = u64::MAX;
    assert!(!f.can_step(&r));
}

#[test]
fn a_trace_is_kept_where_a_log_is_wanted() {
    let mut f = CrossChainFuzzer::new(CrossChainFuzzerConfig {
        seed: Some(1),
        trace_log_path: Some("trace.log".to_string()),
        ..Default::default()
    });
    let mut r = RunResult::new();
    f.step(&mut r, 0);
    let trace = f.executor.take_trace();
    assert_eq!(trace.len(), 2);
    assert_eq!(trace[0].input_type, "Deposit");
    assert_eq!(trace[0].verification_result, "1 enqueued");
    assert_eq!(trace[1].input_type, "Relay");
    assert!(f.executor.take_trace().is_empty());
}

#[test]
fn replay_files_lie_next_to_the_log() {
    assert_eq!(replay_path("run/trace.log", 12), "run/trace.log.exploit_12.json");
    assert_eq!(replay_path("t", 0), "t.exploit_0.json");
    assert_eq!(replay_path("t", u64::MAX), "t.exploit_18446744073709551615.json");
}

fn guarded_oracle() -> AccessControlOracle {
    let mut ac = AccessControlState::new();
    ac.add_privileged(EVMAddress::from([1u8; 20]));
    ac.add_sensitive_slot(EVMU256::from(3u64));
    AccessControlOracle::new(ac)
}

#[test]
fn gap_oracles_report_in_order() {
    let slot = EVMU256::from(3u64);
    let wrapped = EVMU256::max_value();
    let addr = EVMAddress::from([9u8; 20]);
    let pre = PoolState::new(addr, EVMU256::from(1u64), EVMU256::from(1u64));
    let post = PoolState::new(addr, EVMU256::from(5u64), EVMU256::from(1u64));
    let mut price = PriceOracleOracle::default();
    price.snapshot(vec![pre]);
    let bugs = run_gap_oracles(
        EVMAddress::from([2u8; 20]),
        &[(slot, EVMU256::from(1u64), wrapped)],
        &[pre],
        &[post],
        &[true],
        &guarded_oracle(),
        &price,
    );
    assert_eq!(bugs, vec![19, 11, 20]);
}

#[test]
fn gap_oracles_take_the_last_change_of_a_slot() {
    let slot = EVMU256::from(3u64);
    let (one, two) = (EVMU256::from(1u64), EVMU256::from(2u64));
    let price = PriceOracleOracle::default();
    let stranger = EVMAddress::from([2u8; 20]);
    let quiet = run_gap_oracles(
        stranger,
        &[(slot, one, two), (slot, two, two)],
        &[],
        &[],
        &[],
        &guarded_oracle(),
        &price,
    );
    assert!(quiet.is_empty());
    let loud = run_gap_oracles(
        stranger,
        &[(slot, two, two), (slot, one, two)],
        &[],
        &[],
        &[],
        &guarded_oracle(),
        &price,
    );
    assert_eq!(loud, vec![19]);
    let owner = run_gap_oracles(
        EVMAddress::from([1u8; 20]),
        &[(slot, one, two)],
        &[],
        &[],
        &[],
        &guarded_oracle(),
        &price,
    );
    assert!(owner.is_empty());
}

#[test]
fn a_deterministic_run_ends_at_its_limit_whatever_the_clock_says() {
    for limit in [0, 1, 7] {
        let mut f = make_fuzzer(11, limit);
        f.config.time_budget_secs = Some(0);
        let mut r = RunResult::new();
        while f.goes_on(r.iterations, true) {
            let idx = f.mutator.draw_selection().unwrap_or(0) as usize % 3;
            f.step(&mut r, idx);
        }
        assert_eq!(r.iterations, limit);
    }
}
