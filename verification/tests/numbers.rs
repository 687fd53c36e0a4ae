use snowflake_sim::number::{
    clamp_non_negative, is_above_zero, is_at_least_one, is_below_one, is_not_a_number,
    is_same_number, INFINITY, ONE, SIGN, SIX, TWO, ZERO,
};

fn samples() -> Vec<f64> {
    vec![
        0.0,
        -0.0,
        1.0,
        -1.0,
        0.4,
        0.9999999999999999,
        1.0000000000000002,
        2.0,
        6.0,
        0.0001,
        -0.0001,
        1e-320,
        -1e-320,
        f64::MIN_POSITIVE,
        f64::MAX,
        f64::MIN,
        f64::INFINITY,
        f64::NEG_INFINITY,
        f64::NAN,
        -f64::NAN,
        f64::from_bits(0x7FF0_0000_0000_0001),
        f64::from_bits(0xFFFF_FFFF_FFFF_FFFF),
        f64::from_bits(0x7FFF_FFFF_FFFF_FFFF),
    ]
}

#[test]
fn constants_are_the_patterns_of_their_numbers() {
    assert_eq!(ZERO, 0.0f64.to_bits());
    assert_eq!(ONE, 1.0f64.to_bits());
    assert_eq!(TWO, 2.0f64.to_bits());
    assert_eq!(SIX, 6.0f64.to_bits());
    assert_eq!(INFINITY, f64::INFINITY.to_bits());
    assert_eq!(SIGN, (-0.0f64).to_bits());
}

#[test]
fn frozen_test_agrees_with_the_numbers() {
    for v in samples() {
        assert_eq!(is_at_least_one(v.to_bits()), v >= 1.0, "{:?}", v);
    }
    assert!(is_at_least_one(ONE));
    assert!(!is_at_least_one(ONE - 1));
    assert!(is_at_least_one(INFINITY));
    assert!(!is_at_least_one(INFINITY + 1));
}

#[test]
fn below_one_agrees_with_the_numbers() {
    for v in samples() {
        assert_eq!(is_below_one(v.to_bits()), v < 1.0, "{:?}", v);
    }
    assert!(is_below_one(SIGN));
    assert!(is_below_one(SIGN + INFINITY));
    assert!(!is_below_one(SIGN + INFINITY + 1));
}

#[test]
fn above_zero_agrees_with_the_numbers() {
    for v in samples() {
        assert_eq!(is_above_zero(v.to_bits()), v > 0.0, "{:?}", v);
    }
    assert!(!is_above_zero(ZERO));
    assert!(is_above_zero(1));
    assert!(!is_above_zero(SIGN));
}

#[test]
fn not_a_number_agrees_with_the_numbers() {
    for v in samples() {
        assert_eq!(is_not_a_number(v.to_bits()), v.is_nan(), "{:?}", v);
    }
}

#[test]
fn same_number_agrees_with_the_numbers() {
    for a in samples() {
        for b in samples() {
            assert_eq!(is_same_number(a.to_bits(), b.to_bits()), a == b, "{:?} {:?}", a, b);
        }
    }
    assert!(is_same_number(ZERO, SIGN));
    assert!(!is_same_number(f64::NAN.to_bits(), f64::NAN.to_bits()));
}

#[test]
fn clamp_agrees_with_the_larger_of_zero_and_the_number() {
    for v in samples() {
        let clamped = f64::from_bits(clamp_non_negative(v.to_bits()));
        let expected = (0.0f64).max(v);
        assert!(clamped == expected, "{:?}", v);
        assert!(clamped.is_sign_positive());
    }
    assert_eq!(clamp_non_negative(0.25f64.to_bits()), 0.25f64.to_bits());
    assert_eq!(clamp_non_negative((-0.25f64).to_bits()), 0);
    assert_eq!(clamp_non_negative(f64::NAN.to_bits()), 0);
    assert_eq!(clamp_non_negative(SIGN), 0);
}
