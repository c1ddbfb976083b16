use amm::math::{_min, _sqrt};
use amm::types::U256;

fn n(x: u128) -> U256 {
    U256::from_u128(x)
}

#[test]
fn sqrt_of_zero_is_zero() {
    assert_eq!(_sqrt(n(0)), n(0));
}

#[test]
fn sqrt_of_small_numbers() {
    let expected: [u128; 17] = [0, 1, 1, 1, 2, 2, 2, 2, 2, 3, 3, 3, 3, 3, 3, 3, 4];
    for (y, r) in expected.iter().enumerate() {
        assert_eq!(_sqrt(n(y as u128)), n(*r), "square root of {}", y);
    }
}

#[test]
fn sqrt_of_squares_and_their_neighbours() {
    assert_eq!(_sqrt(n(1_000_000)), n(1000));
    assert_eq!(_sqrt(n(999_999)), n(999));
    assert_eq!(_sqrt(n(1_002_000)), n(1000));
    assert_eq!(_sqrt(n(1_002_001)), n(1001));
    assert_eq!(_sqrt(n(25_000_000)), n(5000));
}

#[test]
fn sqrt_of_wide_numbers() {
    // 2^128 - 1 squared is below 2^256 - 1, and 2^128 squared is above.
    let max = U256::from_words(u64::MAX, u64::MAX, u64::MAX, u64::MAX);
    assert_eq!(_sqrt(max), n(u128::MAX));
    // The square root of 2^128 is 2^64.
    assert_eq!(_sqrt(U256::from_words(0, 0, 1, 0)), U256::from_words(0, 1, 0, 0));
    // One less than 2^128 has the root 2^64 - 1.
    assert_eq!(_sqrt(n(u128::MAX)), n(u64::MAX as u128));
    // The square root of 2^254 is 2^127.
    assert_eq!(
        _sqrt(U256::from_words(0, 0, 0, 1 << 62)),
        U256::from_words(0, 1 << 63, 0, 0)
    );
}

#[test]
fn min_is_the_smaller() {
    assert_eq!(_min(n(3), n(5)), n(3));
    assert_eq!(_min(n(5), n(3)), n(3));
    assert_eq!(_min(n(4), n(4)), n(4));
    assert_eq!(_min(U256::from_words(0, 0, 0, 1), n(u128::MAX)), n(u128::MAX));
    assert_eq!(
        _min(U256::from_words(5, 0, 0, 1), U256::from_words(4, 0, 0, 1)),
        U256::from_words(4, 0, 0, 1)
    );
}
