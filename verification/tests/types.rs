use amm::types::{Address, U256};

#[test]
fn address_keeps_its_number() {
    assert_eq!(Address::new(7).id, 7);
    assert_eq!(Address::new(7), Address::new(7));
    assert_ne!(Address::new(7), Address::new(8));
}

#[test]
fn words_go_in_and_out() {
    let x = U256::from_words(1, 2, 3, 4);
    assert_eq!(x.to_words(), (1, 2, 3, 4));
    assert_eq!(U256::zero().to_words(), (0, 0, 0, 0));
}

#[test]
fn from_u128_fills_the_two_low_words() {
    assert_eq!(U256::from_u128(0), U256::zero());
    assert_eq!(U256::from_u128(1000).to_words(), (1000, 0, 0, 0));
    assert_eq!(U256::from_u128(1u128 << 64).to_words(), (0, 1, 0, 0));
    assert_eq!(
        U256::from_u128(u128::MAX).to_words(),
        (u64::MAX, u64::MAX, 0, 0)
    );
    assert_eq!(
        U256::from_u128((5u128 << 64) + 9).to_words(),
        (9, 5, 0, 0)
    );
}

#[test]
fn is_zero_looks_at_every_word() {
    assert!(U256::zero().is_zero());
    assert!(!U256::from_words(1, 0, 0, 0).is_zero());
    assert!(!U256::from_words(0, 1, 0, 0).is_zero());
    assert!(!U256::from_words(0, 0, 1, 0).is_zero());
    assert!(!U256::from_words(0, 0, 0, 1).is_zero());
}

#[test]
fn same_compares_numbers() {
    assert!(U256::from_u128(12).same(&U256::from_words(12, 0, 0, 0)));
    assert!(!U256::from_u128(12).same(&U256::from_words(12, 0, 0, 1)));
    assert!(!U256::from_words(0, 1, 0, 0).same(&U256::from_words(1, 0, 0, 0)));
}

#[test]
fn max_value_has_every_bit_set() {
    assert_eq!(
        U256::max_value().to_words(),
        (u64::MAX, u64::MAX, u64::MAX, u64::MAX)
    );
}

#[test]
fn sum_fits_up_to_the_largest_value() {
    let max = U256::max_value();
    assert!(max.sum_fits(&U256::zero()));
    assert!(!max.sum_fits(&U256::from_u128(1)));
    assert!(U256::from_words(u64::MAX, u64::MAX, u64::MAX, u64::MAX - 1)
        .sum_fits(&U256::from_words(0, 0, 0, 1)));
    assert!(!U256::from_words(1, 0, 0, u64::MAX).sum_fits(&U256::from_words(u64::MAX, u64::MAX, u64::MAX, 0)));
    assert!(U256::from_u128(5).sum_fits(&U256::from_u128(7)));
}

#[test]
fn product_fits_up_to_the_largest_value() {
    let max = U256::max_value();
    assert!(U256::zero().product_fits(&max));
    assert!(max.product_fits(&U256::zero()));
    assert!(max.product_fits(&U256::from_u128(1)));
    assert!(!max.product_fits(&U256::from_u128(2)));
    // 2^128 times 2^128 is 2^256
    assert!(!U256::from_words(0, 0, 1, 0).product_fits(&U256::from_words(0, 0, 1, 0)));
    // 2^128 times 2^128 - 1 is below 2^256
    assert!(U256::from_words(0, 0, 1, 0).product_fits(&U256::from_u128(u128::MAX)));
    assert!(U256::from_u128(u128::MAX).product_fits(&U256::from_u128(u128::MAX)));
}
