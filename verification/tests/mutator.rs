use ityfuzz::evm::mutator::{AccessPattern, CrossChainMutationStrategy, CrossChainMutator};
use ityfuzz::evm::types::{EVMAddress, EVMU256};
use revm_interpreter::Stack;
use revm_primitives::U256;

fn xorshift(mut x: u64) -> u64 {
    x ^= x << 13;
    x ^= x >> 7;
    x ^= x << 17;
    x
}

/// A seed whose first draw leaves the given remainder.
fn seed_with(modulus: u64, remainder: u64) -> u64 {
    (1..).find(|s| xorshift(*s) % modulus == remainder).unwrap()
}

#[test]
fn the_seed_zero_is_replaced() {
    assert_eq!(CrossChainMutator::new(0).rng, 0xdeadbeef);
    assert_eq!(CrossChainMutator::new(9).rng, 9);
}

#[test]
fn a_selection_draws_once_where_there_is_a_corpus() {
    let mut m = CrossChainMutator::new(9);
    assert_eq!(m.draw_selection(), None);
    assert_eq!(m.rng, 9);
    m.add_seed(vec![1, 2, 3]);
    assert_eq!(m.draw_selection(), Some(xorshift(9)));
    assert_eq!(m.rng, xorshift(9));
}

#[test]
fn deposit_mutations_keep_the_length() {
    for seed in 1..200 {
        for len in [0, 1, 3, 5, 9, 35, 36, 64, 100] {
            let mut m = CrossChainMutator::new(seed);
            let mut data = vec![0x5au8; len];
            let meta = m.mutate_deposit(&mut data);
            assert_eq!(data.len(), len);
            assert!(!meta.force_zero_merkle_root && !meta.force_replay_nonce);
            let meta = m.mutate_relay(&mut data);
            assert_eq!(data.len(), len);
            assert_ne!(m.rng, 0);
            let _ = meta;
        }
    }
}

#[test]
fn a_boundary_value_ends_the_amount() {
    let seed = seed_with(4, 0);
    let mut m = CrossChainMutator::new(seed);
    let mut data = vec![0x5au8; 68];
    m.mutate_deposit(&mut data);
    let draw = xorshift(xorshift(seed));
    let expected: u64 = [0, u64::MAX, u64::MAX, 0xffff_ffff, 1][draw as usize % 5];
    assert_eq!(data[28..36], expected.to_be_bytes());
    assert_eq!(data[..28], vec![0x5au8; 28]);
    assert_eq!(data[36..], vec![0x5au8; 32]);
}

#[test]
fn short_calldata_takes_the_low_bytes_of_a_boundary_value() {
    let seed = seed_with(4, 1);
    let mut m = CrossChainMutator::new(seed);
    let mut data = vec![0x5au8; 6];
    m.mutate_deposit(&mut data);
    let draw = xorshift(xorshift(seed));
    let expected: u64 = [0, u64::MAX, u64::MAX, 0xffff_ffff, 1][draw as usize % 5];
    assert_eq!(data[..4], [0x5au8; 4]);
    assert_eq!(data[4..], expected.to_be_bytes()[6..]);
}

#[test]
fn a_boundary_value_never_reaches_the_selector() {
    for seed in (1..200).filter(|s| xorshift(*s) % 4 < 2) {
        for len in 0..40 {
            let mut m = CrossChainMutator::new(seed);
            let mut data = vec![0x5au8; len];
            m.mutate_deposit(&mut data);
            assert!(data.iter().take(4).all(|b| *b == 0x5a));
        }
    }
}

#[test]
fn a_bit_flip_changes_one_byte() {
    let seed = seed_with(4, 2);
    let mut m = CrossChainMutator::new(seed);
    let mut data = vec![0u8; 50];
    m.mutate_deposit(&mut data);
    let first = xorshift(xorshift(seed));
    let second = xorshift(first);
    let mask = ((1u16 << (second % 8 + 1)) - 1) as u8;
    let mut expected = vec![0u8; 50];
    expected[first as usize % 50] = mask;
    assert_eq!(data, expected);
}

#[test]
fn a_field_mutation_stays_in_its_field() {
    for seed in (1..400).filter(|s| xorshift(*s) % 4 == 3) {
        let mut m = CrossChainMutator::new(seed);
        let mut data = vec![0x5au8; 4 + 64 + 7];
        m.mutate_deposit(&mut data);
        let field = xorshift(xorshift(seed)) as usize % 2;
        let start = 4 + field * 32;
        for (i, b) in data.iter().enumerate() {
            if i < start || i >= start + 32 {
                assert_eq!(*b, 0x5a);
            }
        }
        assert_ne!(data, vec![0x5au8; 4 + 64 + 7]);
    }
}

#[test]
fn a_relay_draws_what_is_forced() {
    let seed = seed_with(5, 0);
    let mut m = CrossChainMutator::new(seed);
    let mut data = vec![1u8; 40];
    let meta = m.mutate_relay(&mut data);
    let a = xorshift(xorshift(seed));
    let b = xorshift(a);
    let c = xorshift(b);
    assert_eq!(meta.force_zero_merkle_root, a % 2 == 0);
    assert_eq!(meta.force_replay_nonce, b % 2 == 0);
    assert_eq!(meta.force_inflate_value, c % 2 == 0);
    assert_eq!(data, vec![1u8; 40]);
}

#[test]
fn a_relay_zeroes_a_field() {
    let seed = seed_with(5, 2);
    let mut m = CrossChainMutator::new(seed);
    let mut data = vec![1u8; 36];
    m.mutate_relay(&mut data);
    assert_eq!(data[..4], [1u8; 4]);
    assert_eq!(data[4..], [0u8; 32]);
}

#[test]
fn a_relay_flips_one_bit_near_the_start() {
    let seed = seed_with(5, 3);
    let mut m = CrossChainMutator::new(seed);
    let mut data = vec![0u8; 200];
    m.mutate_relay(&mut data);
    assert_eq!(data.iter().map(|b| b.count_ones()).sum::<u32>(), 1);
    assert_eq!(data[64..], vec![0u8; 136]);
}

#[test]
fn a_relay_raises_the_amount() {
    let seed = seed_with(5, 4);
    let mut m = CrossChainMutator::new(seed);
    let mut data = vec![1u8; 70];
    let meta = m.mutate_relay(&mut data);
    assert!(meta.force_inflate_value);
    assert_eq!(data[..4], [1u8; 4]);
    assert_eq!(data[4..36], [0xffu8; 32]);
    assert_eq!(data[36..], [1u8; 34]);
}

#[test]
fn most_strategies_are_drawn_anew() {
    let last = CrossChainMutationStrategy::BoundaryValue;
    for seed in 1..300 {
        let mut m = CrossChainMutator::new(seed);
        let picked = m.pick_strategy(Some(&last));
        let first = xorshift(seed);
        if first % 100 >= 70 {
            assert_eq!(picked, last);
            assert_eq!(m.rng, first);
        } else {
            let second = xorshift(first);
            let expected = match second % 4 {
                0 => CrossChainMutationStrategy::BitFlip,
                1 => CrossChainMutationStrategy::AbiFieldMutate,
                2 => CrossChainMutationStrategy::StateAwareMutate,
                _ => CrossChainMutationStrategy::BoundaryValue,
            };
            assert_eq!(picked, expected);
            assert_eq!(m.rng, second);
        }
    }
    let mut m = CrossChainMutator::new(3);
    m.pick_strategy(None);
    assert_eq!(m.rng, xorshift(xorshift(3)));
}

#[test]
fn opcodes_show_what_is_looked_at() {
    let mut a = AccessPattern::new();
    a.decode_opcode(0x01, None);
    a.decode_opcode(0x33, None);
    let mut origin = AccessPattern::new();
    origin.decode_opcode(0x32, None);
    assert!(origin.caller && !origin.timestamp);
    a.decode_opcode(0x42, None);
    a.decode_opcode(0x31, Some(EVMU256 { hi: 7, lo: 9 }));
    assert!(a.caller && a.timestamp);
    assert!(!a.gas_price && !a.number && !a.coinbase && !a.prevrandao);
    assert!(!a.gas_limit && !a.chain_id && !a.basefee && !a.call_value);
    assert_eq!(a.balance, vec![EVMAddress { hi: 7, lo: 9 }]);
    for opcode in [0x3a, 0x43, 0x41, 0x44, 0x45, 0x46, 0x48, 0x34] {
        a.decode_opcode(opcode, None);
    }
    assert!(a.gas_price && a.number && a.coinbase && a.prevrandao);
    assert!(a.gas_limit && a.chain_id && a.basefee && a.call_value);
    assert_eq!(a.clone().balance.len(), 1);
    assert!(AccessPattern::default().balance.is_empty());
}

#[test]
fn a_balance_query_reads_the_top_of_the_stack() {
    let mut stack = Stack::new();
    let mut a = AccessPattern::new();
    assert!(!a.try_decode_instruction(0x31, &stack));
    assert!(a.try_decode_instruction(0x33, &stack));
    assert!(a.caller && a.balance.is_empty());
    stack.push(U256::from(1u64)).unwrap();
    stack.push(U256::from_limbs([2, 3, 0x0000_0005_0000_0004, 6])).unwrap();
    a.decode_instruction(0x31, &stack);
    assert!(a.try_decode_instruction(0x31, &stack));
    let account = EVMAddress { hi: 4, lo: (3 << 64) | 2 };
    assert_eq!(a.balance, vec![account, account]);
    a.decode_instruction(0x46, &stack);
    assert!(a.chain_id);
}
