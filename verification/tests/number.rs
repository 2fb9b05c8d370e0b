use rs_eval::Number;

fn of(x: f64) -> Number {
    Number::from_bits(x.to_bits())
}

#[test]
fn bits_go_in_and_come_out() {
    assert_eq!(Number::from_bits(0x4000_0000_0000_0000).to_bits(), 0x4000_0000_0000_0000);
    assert_eq!(of(2.0).to_bits(), 0x4000_0000_0000_0000);
}

#[test]
fn both_zeros_are_zero() {
    assert!(of(0.0).is_zero());
    assert!(of(-0.0).is_zero());
}

#[test]
fn nothing_else_is_zero() {
    assert!(!of(1.0).is_zero());
    assert!(!of(-1.0).is_zero());
    assert!(!of(f64::MIN_POSITIVE).is_zero());
    assert!(!of(5e-324).is_zero());
    assert!(!of(f64::NAN).is_zero());
    assert!(!of(f64::INFINITY).is_zero());
    assert!(!Number::from_bits(1).is_zero());
    assert!(!Number::from_bits(0x8000_0000_0000_0001).is_zero());
}

#[test]
fn negation_flips_the_sign() {
    for x in [0.0, -0.0, 1.0, -1.5, 1e300, -5e-324, f64::INFINITY, f64::NEG_INFINITY] {
        assert_eq!(of(x).negated().to_bits(), (-x).to_bits());
    }
    assert_eq!(of(2.0).negated(), of(-2.0));
    assert_eq!(Number::from_bits(0).negated().to_bits(), 0x8000_0000_0000_0000);
    assert_eq!(Number::from_bits(0x8000_0000_0000_0000).negated().to_bits(), 0);
    assert_eq!(
        Number::from_bits(0x7FF8_0000_0000_0001).negated().to_bits(),
        0xFFF8_0000_0000_0001
    );
}

#[test]
fn negating_twice_gives_the_value_back() {
    for bits in [0, 1, 0x7FFF_FFFF_FFFF_FFFF, 0x8000_0000_0000_0000, u64::MAX] {
        assert_eq!(Number::from_bits(bits).negated().negated().to_bits(), bits);
    }
}
