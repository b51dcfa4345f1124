use ityfuzz::evm::oracles::price_oracle_manip::{
    PoolState, PriceOracleOracle, PRICE_ORACLE_BUG_IDX,
};
use ityfuzz::evm::types::{EVMAddress, EVMU256};

const THRESHOLD: f64 = 0.5;

fn pool(a: u64, b: u64) -> PoolState {
    PoolState::new(EVMAddress::default(), EVMU256::from(a), EVMU256::from(b))
}

fn price(pool: &PoolState) -> f64 {
    let (a, b) = pool.price_terms();
    if b == 0 {
        f64::MAX
    } else {
        a as f64 / b as f64
    }
}

fn moved(oracle: &PriceOracleOracle, post: &[PoolState]) -> Vec<bool> {
    post.iter()
        .map(|p| match oracle.snapshot_of(p.pool_addr) {
            Some(pre) => ((price(p) - price(&pre)) / price(&pre)).abs() > THRESHOLD,
            None => false,
        })
        .collect()
}

fn inspect(oracle: &PriceOracleOracle, post: &[PoolState]) -> Vec<u64> {
    oracle.inspect(post, &moved(oracle, post))
}

fn twap_bypass(swap_size_ratio: f64) -> Vec<u64> {
    PriceOracleOracle::inspect_twap_bypass(swap_size_ratio > 0.3)
}

#[test]
fn test_large_price_deviation_fires() {
    let mut oracle = PriceOracleOracle::default();
    oracle.snapshot(vec![pool(1_000_000, 1_000_000)]); // price 1.0
    let post = vec![pool(4_000_000, 1_000_000)]; // price 4.0
    let bugs = inspect(&oracle, &post);
    assert!(bugs.contains(&PRICE_ORACLE_BUG_IDX));
}

#[test]
fn test_small_deviation_no_bug() {
    let mut oracle = PriceOracleOracle::default();
    oracle.snapshot(vec![pool(1_000_000, 1_000_000)]);
    // a move by 5 percent is normal trading
    let post = vec![pool(1_050_000, 1_000_000)];
    assert!(inspect(&oracle, &post).is_empty());
}

#[test]
fn test_twap_bypass_large_swap() {
    // 40 percent of the pool swapped in one block
    let bugs = twap_bypass(0.4);
    assert!(bugs.contains(&PRICE_ORACLE_BUG_IDX));
}

#[test]
fn test_twap_bypass_small_swap_no_bug() {
    let bugs = twap_bypass(0.05);
    assert!(bugs.is_empty());
}

#[test]
fn test_empty_pool_list_no_crash() {
    let oracle = PriceOracleOracle::default();
    assert!(inspect(&oracle, &[]).is_empty());
}

#[test]
fn a_pool_without_snapshot_is_not_reported() {
    let mut oracle = PriceOracleOracle::new();
    oracle.snapshot(vec![pool(1, 1)]);
    let other = PoolState::new(
        EVMAddress::from([7u8; 20]),
        EVMU256::from(900u64),
        EVMU256::from(1u64),
    );
    assert!(oracle.snapshot_of(other.pool_addr).is_none());
    assert!(oracle.inspect(&[other], &[true]).is_empty());
}

#[test]
fn a_snapshot_without_price_is_not_compared() {
    let mut oracle = PriceOracleOracle::new();
    oracle.snapshot(vec![pool(0, 5)]);
    assert!(!pool(0, 5).has_price());
    assert!(oracle.inspect(&[pool(9, 5)], &[true]).is_empty());
    oracle.snapshot(vec![pool(5, 0)]);
    assert!(!pool(5, 0).has_price());
    assert!(oracle.inspect(&[pool(9, 5)], &[true]).is_empty());
}

#[test]
fn the_first_snapshot_of_a_pool_counts() {
    let mut oracle = PriceOracleOracle::new();
    oracle.snapshot(vec![pool(2, 1), pool(9, 1)]);
    assert_eq!(oracle.snapshot_of(EVMAddress::default()), Some(pool(2, 1)));
}

#[test]
fn large_reserves_are_cut() {
    let p = PoolState::new(
        EVMAddress::default(),
        EVMU256::max_value(),
        EVMU256::from(3u64),
    );
    assert_eq!(p.price_terms(), (u128::MAX, 3));
}

#[test]
fn one_bug_is_reported_for_many_pools() {
    let mut oracle = PriceOracleOracle::new();
    oracle.snapshot(vec![pool(1, 1)]);
    let bugs = oracle.inspect(&[pool(1, 1), pool(2, 1), pool(3, 1)], &[false, true, true]);
    assert_eq!(bugs, vec![20]);
}
