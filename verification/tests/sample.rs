use sampara::Sample;

#[test]
fn equilibrium_is_the_middle_of_the_range() {
    assert_eq!(i8::equilibrium(), 0);
    assert_eq!(i16::equilibrium(), 0);
    assert_eq!(i32::equilibrium(), 0);
    assert_eq!(i64::equilibrium(), 0);
    assert_eq!(i128::equilibrium(), 0);
    assert_eq!(u8::equilibrium(), 1u8.reverse_bits());
    assert_eq!(u16::equilibrium(), 1u16.reverse_bits());
    assert_eq!(u32::equilibrium(), 1u32.reverse_bits());
    assert_eq!(u64::equilibrium(), 1u64.reverse_bits());
    assert_eq!(u128::equilibrium(), 1u128.reverse_bits());
}

#[test]
fn precedes_is_the_strict_order() {
    assert!((-1i8).precedes(0));
    assert!(!0i8.precedes(0));
    assert!(!1i8.precedes(0));
    assert!(0u64.precedes(u64::MAX));
    assert!(!u64::MAX.precedes(0));
    assert!(i128::MIN.precedes(i128::MAX));
}
