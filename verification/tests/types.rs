use ityfuzz::collections::{SortedMap, SortedSet};
use ityfuzz::evm::types::{convert_u256_to_h160, EVMAddress, EVMU256};
use ityfuzz::text::to_decimal;

#[test]
fn words_add_up_to_the_largest_word_at_most() {
    let one = EVMU256::from(1u64);
    let low = EVMU256 { hi: 0, lo: u128::MAX };
    assert_eq!(low.saturating_add(one), EVMU256 { hi: 1, lo: 0 });
    assert_eq!(EVMU256::max_value().saturating_add(one), EVMU256::max_value());
    assert_eq!(one.saturating_add(one), EVMU256::from(2u64));
}

#[test]
fn subtraction_wraps() {
    let (zero, one, two) = (EVMU256::zero(), EVMU256::from(1u64), EVMU256::from(2u64));
    assert_eq!(two - one, one);
    assert_eq!(zero - one, EVMU256::max_value());
    assert_eq!(EVMU256 { hi: 1, lo: 0 } - one, EVMU256 { hi: 0, lo: u128::MAX });
    assert_eq!(one - two, EVMU256::max_value());
}

#[test]
fn words_compare_by_value() {
    let high = EVMU256 { hi: 1, lo: 0 };
    let low = EVMU256 { hi: 0, lo: u128::MAX };
    assert!(high.exceeds(&low));
    assert!(!low.exceeds(&high));
    assert!(!high.exceeds(&high));
}

#[test]
fn words_are_cut_to_half_their_width() {
    assert_eq!(EVMU256 { hi: 1, lo: 7 }.saturating_to_u128(), u128::MAX);
    assert_eq!(EVMU256 { hi: 0, lo: 7 }.saturating_to_u128(), 7);
}

#[test]
fn words_and_addresses_have_big_endian_bytes() {
    let mut expected = vec![0u8; 32];
    expected[15] = 1;
    expected[30] = 1;
    expected[31] = 2;
    assert_eq!(EVMU256 { hi: 1, lo: 0x0102 }.to_bytes(), expected);
    let mut raw = [0u8; 20];
    for (i, b) in raw.iter_mut().enumerate() {
        *b = i as u8 + 1;
    }
    assert_eq!(EVMAddress::from(raw).to_bytes(), raw.to_vec());
}

#[test]
fn a_word_is_read_back_from_its_bytes() {
    let word = EVMU256 { hi: 0x0102_0304_0506_0708, lo: u128::MAX - 5 };
    let mut bytes = [0u8; 32];
    bytes.copy_from_slice(&word.to_bytes());
    assert_eq!(EVMU256::from(bytes), word);
}

#[test]
fn an_address_is_the_low_end_of_a_word() {
    let word = EVMU256 { hi: 0xaaaa_bbbb_0102_0304, lo: 5 };
    assert_eq!(convert_u256_to_h160(word), EVMAddress { hi: 0x0102_0304, lo: 5 });
}

#[test]
fn maps_keep_one_value_for_each_key_in_order() {
    let mut m = SortedMap::new();
    assert_eq!(m.insert(EVMU256::from(5u64), 'a'), None);
    assert_eq!(m.insert(EVMU256::from(3u64), 'b'), None);
    assert_eq!(m.insert(EVMU256::from(5u64), 'c'), Some('a'));
    assert_eq!(m.len(), 2);
    assert_eq!(m.entry_at(0), (EVMU256::from(3u64), &'b'));
    assert_eq!(m.entry_at(1), (EVMU256::from(5u64), &'c'));
    assert_eq!(m.get(&EVMU256::from(4u64)), None);
}

#[test]
fn sets_keep_one_of_each() {
    let mut s = SortedSet::new();
    assert!(s.insert(EVMAddress::from([2u8; 20])));
    assert!(s.insert(EVMAddress::from([1u8; 20])));
    assert!(!s.insert(EVMAddress::from([2u8; 20])));
    assert_eq!(s.len(), 2);
    assert_eq!(s.element_at(0), EVMAddress::from([1u8; 20]));
    assert!(s.contains(&EVMAddress::from([2u8; 20])));
    assert!(!s.contains(&EVMAddress::default()));
}

#[test]
fn numbers_are_written_in_decimal() {
    assert_eq!(to_decimal(0), "0");
    assert_eq!(to_decimal(10), "10");
    assert_eq!(to_decimal(9_870_654_321), "9870654321");
    assert_eq!(to_decimal(u64::MAX), u64::MAX.to_string());
}
