use vdbe::binary64::Real;

fn real_of(value: f64) -> Real {
    Real::from_bits(value.to_bits())
}

/// Numbers from every corner: zeros, subnormals, binade limits, halves, the extremes.
fn samples() -> Vec<f64> {
    let mut out = vec![
        0.0,
        1.0,
        2.0,
        3.0,
        0.1,
        0.2,
        0.3,
        1.5,
        10.0,
        1e23,
        1e-7,
        123456789.125,
        9007199254740991.0,
        9007199254740992.0,
        9007199254740994.0,
        9223372036854774784.0,
        9223372036854775808.0,
        18446744073709551616.0,
        562949953421312.25,
        f64::MAX,
        f64::MIN_POSITIVE,
        f64::EPSILON,
        5e-324,
        1e-323,
        2.2250738585072009e-308,
        1.7976931348623155e308,
        4503599627370495.5,
        4503599627370496.5,
        f64::INFINITY,
        f64::NAN,
    ];
    // A fixed sequence of bit patterns.
    let mut state: u64 = 0x9e37_79b9_7f4a_7c15;
    let mut i = 0;
    while i < 120 {
        state = state
            .wrapping_mul(6364136223846793005)
            .wrapping_add(1442695040888963407);
        out.push(f64::from_bits(state));
        // Patterns with exponents close to one another.
        out.push(f64::from_bits((state >> 12) | 0x3ff0_0000_0000_0000));
        i += 1;
    }
    let negated: Vec<f64> = out.iter().map(|x| -x).collect();
    out.extend(negated);
    out
}

fn same(ours: Real, hardware: f64) -> bool {
    if hardware.is_nan() {
        ours.is_nan()
    } else {
        ours.to_bits() == hardware.to_bits()
    }
}

#[test]
fn sums_agree_with_the_machine() {
    for a in samples() {
        for b in samples() {
            let ours = real_of(a).sum(&real_of(b));
            assert!(same(ours, a + b), "{:?} + {:?} gave {:?}", a, b, ours);
        }
    }
}

#[test]
fn differences_agree_with_the_machine() {
    for a in samples() {
        for b in samples() {
            let ours = real_of(a).difference(&real_of(b));
            assert!(same(ours, a - b), "{:?} - {:?} gave {:?}", a, b, ours);
        }
    }
}

#[test]
fn products_agree_with_the_machine() {
    for a in samples() {
        for b in samples() {
            let ours = real_of(a).product(&real_of(b));
            assert!(same(ours, a * b), "{:?} * {:?} gave {:?}", a, b, ours);
        }
    }
}

#[test]
fn quotients_agree_with_the_machine() {
    for a in samples() {
        for b in samples() {
            let ours = real_of(a).quotient(&real_of(b));
            assert!(same(ours, a / b), "{:?} / {:?} gave {:?}", a, b, ours);
        }
    }
}

#[test]
fn integer_parts_agree_with_the_machine() {
    for a in samples() {
        assert_eq!(real_of(a).to_integer(), a as i64, "{:?}", a);
    }
    assert_eq!(real_of(-0.9).to_integer(), 0);
    assert_eq!(real_of(f64::NAN).to_integer(), 0);
    assert_eq!(real_of(1e300).to_integer(), i64::MAX);
    assert_eq!(real_of(-1e300).to_integer(), i64::MIN);
}

#[test]
fn integers_become_the_nearest_reals() {
    let integers = [
        0,
        1,
        -1,
        3,
        i64::MAX,
        i64::MIN,
        9007199254740991,
        9007199254740992,
        9007199254740993,
        9007199254740995,
        -9007199254740993,
        9223372036854775295,
        9223372036854775296,
        123456789012345678,
    ];
    for i in integers {
        assert_eq!(Real::from_integer(i).to_bits(), (i as f64).to_bits(), "{}", i);
    }
}

#[test]
fn small_integers_survive_the_conversion() {
    for i in [0, 1, -1, 42, -9007199254740992, 9007199254740992, 4503599627370497] {
        assert_eq!(Real::from_integer(i).to_integer(), i);
    }
}

#[test]
fn equality_is_numeric() {
    assert!(real_of(0.0) == real_of(-0.0));
    assert!(real_of(1.5) == real_of(1.5));
    assert!(real_of(1.5) != real_of(-1.5));
    assert!(real_of(f64::NAN) != real_of(f64::NAN));
    assert!(real_of(f64::INFINITY) == real_of(f64::INFINITY));
}

#[test]
fn parts_of_a_real() {
    assert!(real_of(-2.0).is_negative());
    assert!(!real_of(2.0).is_negative());
    assert!(real_of(f64::NAN).is_nan());
    assert!(real_of(f64::NEG_INFINITY).is_infinite());
    assert!(real_of(-0.0).is_zero());
    assert_eq!(real_of(-2.0).magnitude_bits(), (2.0f64).to_bits());
    assert_eq!(Real::assemble(true, (2.0f64).to_bits()).to_bits(), (-2.0f64).to_bits());
    assert_eq!(real_of(2.0).negate().to_bits(), (-2.0f64).to_bits());
}
