use evm_interpreter::word::U256;

#[test]
fn div_and_mod_by_zero_are_zero() {
    let ten = U256::from_u64(10);
    let zero = U256::zero();
    assert_eq!(ten.div(&zero), U256::zero());
    assert_eq!(ten.rem(&zero), U256::zero());
}

#[test]
fn add_and_sub_wrap() {
    assert_eq!(U256::max_value().wrapping_add(&U256::one()), U256::zero());
    assert_eq!(U256::zero().wrapping_sub(&U256::one()), U256::max_value());
}

#[test]
fn division_exact_values() {
    let a = U256::from_u128(1_000_000_007u128 * 998_244_353u128 + 12345);
    let b = U256::from_u64(998_244_353);
    assert_eq!(a.div(&b), U256::from_u64(1_000_000_007));
    assert_eq!(a.rem(&b), U256::from_u64(12345));
    let big = U256 { hi: 5, lo: 7 };
    let two = U256::from_u64(2);
    assert_eq!(big.div(&two), U256 { hi: 2, lo: (1u128 << 127) + 3 });
    assert_eq!(big.rem(&two), U256::one());
    assert_eq!(big.div(&big), U256::one());
    assert_eq!(two.div(&big), U256::zero());
    assert_eq!(U256::max_value().div(&U256::max_value()), U256::one());
}

#[test]
fn carries_between_halves() {
    let a = U256 { hi: 0, lo: u128::MAX };
    assert_eq!(a.wrapping_add(&U256::one()), U256 { hi: 1, lo: 0 });
    assert_eq!(U256 { hi: 1, lo: 0 }.wrapping_sub(&U256::one()), a);
}

#[test]
fn big_endian_round_trip() {
    let mut bytes = vec![0u8; 32];
    bytes[0] = 0x80;
    bytes[15] = 0x01;
    bytes[16] = 0x02;
    bytes[31] = 0xff;
    let w = U256::from_be_slice(&bytes);
    assert_eq!(w.hi, (0x80u128 << 120) | 1);
    assert_eq!(w.lo, (0x02u128 << 120) | 0xff);
    assert_eq!(w.to_be_bytes(), bytes);
    assert!(w.top_bit());
}

#[test]
fn comparisons() {
    let a = U256 { hi: 1, lo: 0 };
    let b = U256 { hi: 0, lo: u128::MAX };
    assert!(b.lt(&a));
    assert!(a.gt(&b));
    assert!(!a.eq_word(&b));
    assert!(U256::zero().is_zero());
    assert_eq!(U256::from_u64(7).to_u32_usize(), Some(7));
    assert_eq!(U256::from_u64(1 << 32).to_u32_usize(), None);
}
