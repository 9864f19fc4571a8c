use asim::Nibble;

#[test]
fn test_nibble_addition() {
    let a = Nibble::from(5);
    let b = Nibble::from(2);

    let result = a + b;

    assert!(result.as_signed() == 7, "{:?}", result);
    assert!(result.as_unsigned() == 7, "{:?}", result);

    assert!(result.has_carry() == false, "{:?}", result);
    assert!(result.has_negative() == false, "{:?}", result);
    assert!(result.is_zero() == false, "{:?}", result);
}

#[test]
fn test_nibble_addition_with_overflow() {
    let a = Nibble::from(7);
    let b = Nibble::from(1);

    let result = a + b;

    assert!(result.as_unsigned() == 8, "{:?}", result);
    assert!(result.as_signed() == -8, "{:?}", result);

    assert!(result.has_carry() == false, "{:?}", result);
    assert!(result.has_negative() == true, "{:?}", result);
    assert!(result.is_zero() == false, "{:?}", result);
}

#[test]
fn test_nibble_subtraction() {
    let a = Nibble::from(5);
    let b = Nibble::from(2);

    let result = a - b;

    assert!(result.as_unsigned() == 3, "{:?}", result);
    assert!(result.as_signed() == 3, "{:?}", result);

    assert!(result.has_carry() == true, "{:?}", result);
    assert!(result.has_negative() == false, "{:?}", result);
    assert!(result.is_zero() == false, "{:?}", result);
}

#[test]
fn test_nibble_subtraction_with_overflow() {
    let a = Nibble::from(2);
    let b = Nibble::from(4);

    let result = a - b;

    assert!(result.as_unsigned() == 14, "{:?}", result);
    assert!(result.as_signed() == -2, "{:?}", result);

    assert!(result.has_carry() == false, "{:?}", result);
    assert!(result.has_negative() == true, "{:?}", result);
    assert!(result.is_zero() == false, "{:?}", result);
}

#[test]
fn nibble_laws_hold_on_every_pair_of_values() {
    for a in 0u8..16 {
        for b in 0u8..16 {
            let x = Nibble::from(a);
            let y = Nibble::from(b);
            let sum = x + y;
            let difference = x - y;
            assert_eq!(sum.get_value(), (a + b) % 16);
            assert_eq!(difference.has_carry(), a >= b);
            assert_eq!(x.is_zero(), x.get_value() == 0);
            assert_eq!(sum.has_negative(), sum.get_value() >= 8);
            assert_eq!(difference.has_negative(), difference.get_value() >= 8);
        }
    }
}

#[test]
fn sum_of_large_values_sets_carry() {
    let result = Nibble::from(15) + Nibble::from(15u8);
    assert_eq!(result.get_value(), 14);
    assert!(result.has_carry());
    assert!(result.has_negative());
    assert_eq!(result.as_signed(), -2);
}

#[test]
fn zero_flag_after_wrapping_sum() {
    let result = Nibble::from(8) + Nibble::from(8u8);
    assert_eq!(result.get_value(), 0);
    assert!(result.is_zero());
    assert!(result.has_carry());
    assert!(!result.has_negative());
}

#[test]
fn equal_operands_subtract_to_zero_with_carry() {
    let result = Nibble::from(9) - Nibble::from(9u8);
    assert_eq!(result.get_value(), 0);
    assert!(result.is_zero());
    assert!(result.has_carry());
}

#[test]
fn conversion_keeps_the_low_byte() {
    let n = Nibble::from(0x1_37usize);
    assert_eq!(n.get_value(), 7);
    assert!(n.has_carry());
    assert!(!n.has_negative());
    assert!(n == 7);
    assert!(n == Nibble::from(23));
}

#[test]
fn negative_numbers_convert_through_their_low_byte() {
    let n = Nibble::from(-1);
    assert_eq!(n.get_value(), 15);
    assert!(n.has_carry());
    assert!(n.has_negative());
    let m = Nibble::from(-250);
    assert_eq!(m.get_value(), 6);
    assert!(!m.has_carry());
}

#[test]
fn nibbles_convert_to_their_value_and_default_to_zero() {
    let n = Nibble::from(0x1a);
    let a: u8 = n.into();
    let b: usize = n.into();
    let c: i32 = n.into();
    assert_eq!((a, b, c), (10, 10, 10));
    let d = Nibble::default();
    assert!(d.is_zero());
    assert!(!d.has_carry());
}
