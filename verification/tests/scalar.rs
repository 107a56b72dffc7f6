use ibsp::scalar::{
    Scalar, EPSILON_BITS, INFINITY_BITS, MINUS_ONE_BITS, ONE_BITS, SIGN_BIT, TWO_BITS, ZERO_BITS,
};

fn s(x: f32) -> Scalar {
    Scalar::from_bits(x.to_bits())
}

fn samples() -> Vec<f32> {
    vec![
        0.0,
        -0.0,
        1.0,
        -1.0,
        0.03125,
        -0.03125,
        0.5,
        2.0,
        255.0,
        -255.5,
        1.0e-40,
        -1.0e-40,
        f32::MIN_POSITIVE,
        f32::MAX,
        f32::MIN,
        f32::INFINITY,
        f32::NEG_INFINITY,
        f32::NAN,
        -f32::NAN,
        0.32291666,
        1.0000001,
        0.99999994,
    ]
}

#[test]
fn constants_are_the_patterns_of_their_numbers() {
    assert_eq!(ZERO_BITS, 0.0f32.to_bits());
    assert_eq!(ONE_BITS, 1.0f32.to_bits());
    assert_eq!(MINUS_ONE_BITS, (-1.0f32).to_bits());
    assert_eq!(TWO_BITS, 2.0f32.to_bits());
    assert_eq!(EPSILON_BITS, 0.03125f32.to_bits());
    assert_eq!(INFINITY_BITS, f32::INFINITY.to_bits());
    assert_eq!(SIGN_BIT, (-0.0f32).to_bits());
    assert_eq!(Scalar::zero().bits, ZERO_BITS);
    assert_eq!(Scalar::one().bits, ONE_BITS);
    assert_eq!(Scalar::minus_one().bits, MINUS_ONE_BITS);
    assert_eq!(Scalar::two().bits, TWO_BITS);
    assert_eq!(Scalar::epsilon().bits, EPSILON_BITS);
}

#[test]
fn comparisons_agree_with_the_hardware() {
    for a in samples() {
        for b in samples() {
            assert_eq!(s(a).lt(s(b)), a < b, "{} < {}", a, b);
            assert_eq!(s(a).le(s(b)), a <= b, "{} <= {}", a, b);
            assert_eq!(s(a).gt(s(b)), a > b, "{} > {}", a, b);
            assert_eq!(s(a).ge(s(b)), a >= b, "{} >= {}", a, b);
            assert_eq!(s(a).same(s(b)), a == b, "{} == {}", a, b);
        }
    }
}

#[test]
fn nan_is_recognised() {
    for a in samples() {
        assert_eq!(s(a).nan(), a.is_nan());
    }
    assert!(!Scalar::from_bits(INFINITY_BITS).nan());
    assert!(Scalar::from_bits(INFINITY_BITS + 1).nan());
    assert!(Scalar::from_bits(0xFFFF_FFFF).nan());
}

#[test]
fn negation_and_absolute_value_agree_with_the_hardware() {
    for a in samples() {
        assert_eq!(s(a).neg().bits, (-a).to_bits());
        assert_eq!(s(a).abs().bits, a.abs().to_bits());
    }
}

#[test]
fn ordering_key_orders_numbers() {
    assert_eq!(s(0.0).ordering_key(), 0);
    assert_eq!(s(-0.0).ordering_key(), 0);
    assert_eq!(s(1.0).ordering_key(), 0x3F80_0000);
    assert_eq!(s(-1.0).ordering_key(), -0x3F80_0000);
    assert!(s(-2.0).ordering_key() < s(-1.0).ordering_key());
    assert!(s(1.0e-40).ordering_key() < s(f32::MIN_POSITIVE).ordering_key());
}

#[test]
fn max_takes_the_larger_number() {
    assert_eq!(s(1.0).max(s(2.0)).bits, 2.0f32.to_bits());
    assert_eq!(s(2.0).max(s(1.0)).bits, 2.0f32.to_bits());
    assert_eq!(s(-3.0).max(s(-4.0)).bits, (-3.0f32).to_bits());
    assert_eq!(s(0.5).max(s(f32::NAN)).bits, 0.5f32.to_bits());
    assert_eq!(s(-0.25).max(s(0.0)).bits, 0.0f32.to_bits());
}

#[test]
fn clamp_unit_keeps_the_unit_range() {
    assert_eq!(s(-0.5).clamp_unit().bits, ZERO_BITS);
    assert_eq!(s(1.5).clamp_unit().bits, ONE_BITS);
    assert_eq!(s(0.65625).clamp_unit().bits, 0.65625f32.to_bits());
    assert_eq!(s(0.0).clamp_unit().bits, ZERO_BITS);
    assert_eq!(s(1.0).clamp_unit().bits, ONE_BITS);
    assert_eq!(s(f32::INFINITY).clamp_unit().bits, ONE_BITS);
    assert_eq!(s(f32::NEG_INFINITY).clamp_unit().bits, ZERO_BITS);
    assert!(s(f32::NAN).clamp_unit().nan());
}
