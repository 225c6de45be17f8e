use seq::number::{Number, INFINITY, MINUS_ONE, ONE, SIGN, ZERO};

fn number(value: f64) -> Number {
    Number::from_bits(value.to_bits())
}

fn samples() -> Vec<f64> {
    vec![
        0.0,
        -0.0,
        1.0,
        -1.0,
        0.5,
        -0.5,
        2.0,
        -2.0,
        10.25,
        -10.25,
        1e300,
        -1e300,
        5e-324,
        -5e-324,
        f64::MIN_POSITIVE,
        -f64::MIN_POSITIVE,
        f64::MAX,
        f64::MIN,
        f64::EPSILON,
        f64::INFINITY,
        f64::NEG_INFINITY,
        f64::NAN,
        -f64::NAN,
        f64::from_bits(0x7ff0_0000_0000_0001),
        f64::from_bits(0xffff_ffff_ffff_ffff),
        0.1 + 0.2,
        0.3,
    ]
}

#[test]
fn the_constants_are_the_patterns_of_their_numbers() {
    assert_eq!(ZERO, 0.0f64.to_bits());
    assert_eq!(ONE, 1.0f64.to_bits());
    assert_eq!(MINUS_ONE, (-1.0f64).to_bits());
    assert_eq!(INFINITY, f64::INFINITY.to_bits());
    assert_eq!(SIGN, (-0.0f64).to_bits());
    assert_eq!(Number::zero(), number(0.0));
    assert_eq!(Number::one(), number(1.0));
    assert_eq!(Number::minus_one(), number(-1.0));
}

#[test]
fn bits_go_in_and_come_out() {
    for value in samples() {
        assert_eq!(number(value).to_bits(), value.to_bits());
        assert_eq!(number(value).bits, value.to_bits());
    }
}

#[test]
fn is_nan_is_as_doubles_have_it() {
    for value in samples() {
        assert_eq!(number(value).is_nan(), value.is_nan(), "{:?}", value);
    }
}

#[test]
fn is_zero_is_as_doubles_have_it() {
    for value in samples() {
        assert_eq!(number(value).is_zero(), value == 0.0, "{:?}", value);
    }
}

#[test]
fn lt_is_as_doubles_compare() {
    for a in samples() {
        for b in samples() {
            assert_eq!(number(a).lt(number(b)), a < b, "{:?} < {:?}", a, b);
        }
    }
}

#[test]
fn le_is_as_doubles_compare() {
    for a in samples() {
        for b in samples() {
            assert_eq!(number(a).le(number(b)), a <= b, "{:?} <= {:?}", a, b);
        }
    }
}

#[test]
fn the_order_holds_along_a_sweep_of_patterns() {
    let mut bits: u64 = 0;
    let step: u64 = 0x0003_1415_9265_3589;
    let mut previous: f64 = f64::from_bits(bits);
    for _ in 0..20000 {
        bits = bits.wrapping_add(step);
        let current = f64::from_bits(bits);
        assert_eq!(number(previous).lt(number(current)), previous < current);
        assert_eq!(number(previous).le(number(current)), previous <= current);
        assert_eq!(number(current).lt(number(previous)), current < previous);
        assert_eq!(number(current).le(number(previous)), current <= previous);
        assert_eq!(number(current).is_nan(), current.is_nan());
        previous = current;
    }
}

#[test]
fn the_two_zeros_compare_equal_and_differ_as_patterns() {
    assert!(number(0.0).le(number(-0.0)));
    assert!(number(-0.0).le(number(0.0)));
    assert!(!number(0.0).lt(number(-0.0)));
    assert!(!number(-0.0).lt(number(0.0)));
    assert_ne!(number(0.0), number(-0.0));
}
