use vdbe::arith::{exec_add, exec_divide, exec_multiply, exec_remainder, exec_subtract};
use vdbe::binary64::Real;
use vdbe::bitwise::{
    exec_bit_and, exec_bit_not, exec_bit_or, exec_shift_left, exec_shift_right,
};
use vdbe::logic::{exec_and, exec_boolean_not, exec_or};
use vdbe::value::{OwnedValue, Text};

fn float(value: f64) -> OwnedValue {
    OwnedValue::Float(Real::from_bits(value.to_bits()))
}

fn integer(value: i64) -> OwnedValue {
    OwnedValue::Integer(value)
}

fn text(value: &str) -> OwnedValue {
    OwnedValue::Text(Text::from_str(value))
}

fn blob() -> OwnedValue {
    OwnedValue::Blob(vec![0, 1])
}

/// Equality that also tells integers from reals and one zero from the other.
fn exactly(value: &OwnedValue, expected: &OwnedValue) -> bool {
    match (value, expected) {
        (OwnedValue::Null, OwnedValue::Null) => true,
        (OwnedValue::Integer(a), OwnedValue::Integer(b)) => a == b,
        (OwnedValue::Float(a), OwnedValue::Float(b)) => a.to_bits() == b.to_bits(),
        _ => false,
    }
}

#[test]
fn overflowing_integers_become_reals() {
    let max = integer(i64::MAX);
    let min = integer(i64::MIN);
    assert!(exactly(&exec_add(&max, &integer(1)), &float(9223372036854775808.0)));
    assert!(exactly(&exec_subtract(&min, &integer(1)), &float(-9223372036854775808.0)));
    assert!(exactly(
        &exec_multiply(&max, &max),
        &float(9223372036854775807i64 as f64 * 9223372036854775807i64 as f64)
    ));
    assert!(exactly(&exec_divide(&min, &integer(-1)), &float(9223372036854775808.0)));
    assert!(exactly(&exec_add(&max, &integer(0)), &max));
    assert!(exactly(&exec_subtract(&integer(0), &max), &integer(-i64::MAX)));
}

#[test]
fn integer_results_stay_integers() {
    assert!(exactly(&exec_add(&integer(2), &integer(3)), &integer(5)));
    assert!(exactly(&exec_subtract(&integer(2), &integer(3)), &integer(-1)));
    assert!(exactly(&exec_multiply(&integer(-4), &integer(3)), &integer(-12)));
    assert!(exactly(&exec_divide(&integer(7), &integer(2)), &integer(3)));
    assert!(exactly(&exec_divide(&integer(-7), &integer(2)), &integer(-3)));
    assert!(exactly(&exec_divide(&integer(7), &integer(-2)), &integer(-3)));
    assert!(exactly(&exec_divide(&integer(0), &integer(-2)), &integer(0)));
}

#[test]
fn mixed_results_are_reals() {
    assert!(exactly(&exec_add(&integer(2), &float(0.5)), &float(2.5)));
    assert!(exactly(&exec_subtract(&integer(2), &float(0.5)), &float(1.5)));
    assert!(exactly(&exec_subtract(&float(0.5), &integer(2)), &float(-1.5)));
    assert!(exactly(&exec_multiply(&integer(2), &float(0.5)), &float(1.0)));
    assert!(exactly(&exec_divide(&integer(1), &float(4.0)), &float(0.25)));
    assert!(exactly(&exec_divide(&float(1.0), &integer(4)), &float(0.25)));
    assert!(exactly(&exec_add(&float(0.1), &float(0.2)), &float(0.1 + 0.2)));
}

#[test]
fn texts_count_as_numbers() {
    assert!(exactly(&exec_add(&text("2"), &text("3")), &integer(5)));
    assert!(exactly(&exec_add(&integer(2), &text("3.5")), &float(5.5)));
    assert!(exactly(&exec_subtract(&integer(2), &text("3")), &integer(-1)));
    assert!(exactly(&exec_subtract(&text("3"), &integer(2)), &integer(1)));
    assert!(exactly(&exec_multiply(&text("abc"), &integer(2)), &integer(0)));
    assert!(exactly(&exec_divide(&integer(9), &text("2")), &integer(4)));
    assert!(exactly(&exec_divide(&text("9"), &integer(2)), &integer(4)));
    assert!(exactly(&exec_bit_and(&text("6"), &text("3")), &integer(2)));
    assert!(exactly(&exec_shift_left(&text("1"), &text("4")), &integer(16)));
    assert!(exactly(&exec_bit_not(&text("5.9")), &integer(-6)));
}

#[test]
fn a_result_that_is_no_number_is_null() {
    let infinity = float(f64::INFINITY);
    assert!(exactly(&exec_subtract(&infinity, &infinity), &OwnedValue::Null));
    assert!(exactly(&exec_add(&infinity, &float(f64::NEG_INFINITY)), &OwnedValue::Null));
    assert!(exactly(&exec_multiply(&infinity, &integer(0)), &OwnedValue::Null));
    assert!(exactly(&exec_divide(&infinity, &infinity), &OwnedValue::Null));
    assert!(exactly(&exec_add(&float(f64::NAN), &integer(1)), &OwnedValue::Null));
    assert!(exactly(&exec_add(&infinity, &integer(1)), &infinity));
}

#[test]
fn division_by_zero_is_null() {
    for zero in [integer(0), float(0.0), float(-0.0), text("0"), text("x"), text("0.0")] {
        for value in [integer(3), float(2.5), text("7"), OwnedValue::Null] {
            assert!(exactly(&exec_divide(&value, &zero), &OwnedValue::Null));
            assert!(exactly(&exec_remainder(&value, &zero), &OwnedValue::Null));
        }
    }
    assert!(exactly(&exec_divide(&blob(), &integer(0)), &OwnedValue::Null));
    assert!(exactly(&exec_divide(&blob(), &text("0")), &OwnedValue::Null));
    assert!(exactly(&exec_remainder(&blob(), &float(0.0)), &OwnedValue::Null));
}

#[test]
fn null_propagates() {
    let null = OwnedValue::Null;
    for value in [integer(3), float(2.5), text("7"), blob(), OwnedValue::Null] {
        for operation in [
            exec_add,
            exec_subtract,
            exec_multiply,
            exec_divide,
            exec_remainder,
            exec_bit_and,
            exec_bit_or,
            exec_shift_left,
            exec_shift_right,
        ] {
            assert!(exactly(&operation(&null, &value), &null));
            assert!(exactly(&operation(&value, &null), &null));
        }
    }
    assert!(exactly(&exec_bit_not(&null), &null));
    assert!(exactly(&exec_boolean_not(&null), &null));
}

#[test]
fn remainders_divide_the_first_by_the_second() {
    assert!(exactly(&exec_remainder(&integer(7), &integer(3)), &integer(1)));
    assert!(exactly(&exec_remainder(&integer(-7), &integer(3)), &integer(-1)));
    assert!(exactly(&exec_remainder(&integer(7), &integer(-3)), &integer(1)));
    assert!(exactly(&exec_remainder(&float(7.9), &integer(4)), &float(3.0)));
    assert!(exactly(&exec_remainder(&integer(7), &float(4.9)), &float(3.0)));
    assert!(exactly(&exec_remainder(&float(7.9), &float(4.9)), &float(3.0)));
    assert!(exactly(&exec_remainder(&text("7"), &integer(4)), &integer(3)));
    assert!(exactly(&exec_remainder(&integer(7), &text("4")), &integer(3)));
    assert!(exactly(&exec_remainder(&text("7"), &text("4.0")), &float(3.0)));
    assert!(exactly(&exec_remainder(&integer(7), &float(0.5)), &OwnedValue::Null));
    assert!(exactly(&exec_remainder(&float(7.0), &float(f64::NAN)), &OwnedValue::Null));
    assert!(exactly(&exec_remainder(&integer(0), &text("5")), &integer(0)));
    assert!(exactly(&exec_remainder(&integer(i64::MIN), &text("-1")), &integer(0)));
    assert!(exactly(&exec_remainder(&integer(5), &integer(-1)), &integer(0)));
}

#[test]
fn quotient_and_remainder_make_up_the_dividend() {
    for a in [0, 1, -1, 7, -7, 100, i64::MAX, i64::MIN + 1] {
        for b in [1, -1, 2, -2, 3, 10, -10, i64::MAX, i64::MIN] {
            match (
                exec_divide(&integer(a), &integer(b)),
                exec_remainder(&integer(a), &integer(b)),
            ) {
                (OwnedValue::Integer(q), OwnedValue::Integer(r)) => assert_eq!(a, b * q + r),
                other => panic!("{:?}", other),
            }
        }
    }
}

#[test]
fn adding_and_multiplying_commute() {
    let values = [integer(3), float(0.1), text("2.5"), integer(i64::MAX), OwnedValue::Null];
    for a in values.iter() {
        for b in values.iter() {
            assert!(exactly(&exec_add(a, b), &exec_add(b, a)));
            assert!(exactly(&exec_multiply(a, b), &exec_multiply(b, a)));
            assert!(exactly(&exec_bit_and(a, b), &exec_bit_and(b, a)));
            assert!(exactly(&exec_bit_or(a, b), &exec_bit_or(b, a)));
            assert!(exactly(&exec_and(a, b), &exec_and(b, a)));
            assert!(exactly(&exec_or(a, b), &exec_or(b, a)));
        }
    }
}

#[test]
fn subtracting_undoes_adding() {
    for a in [0, 5, -5, i64::MAX - 3] {
        for b in [0, 3, -3] {
            let sum = exec_add(&integer(a), &integer(b));
            assert!(exactly(&exec_subtract(&sum, &integer(b)), &integer(a)));
        }
    }
}

#[test]
fn bits_of_integers_and_reals() {
    assert!(exactly(&exec_bit_and(&integer(12), &integer(10)), &integer(8)));
    assert!(exactly(&exec_bit_or(&integer(12), &integer(10)), &integer(14)));
    assert!(exactly(&exec_bit_and(&float(12.7), &integer(10)), &integer(8)));
    assert!(exactly(&exec_bit_or(&integer(12), &float(10.7)), &integer(14)));
    assert!(exactly(&exec_bit_and(&float(12.7), &float(10.2)), &integer(8)));
    assert!(exactly(&exec_bit_or(&float(12.7), &float(10.2)), &integer(14)));
    assert!(exactly(&exec_bit_and(&integer(-1), &integer(10)), &integer(10)));
    assert!(exactly(&exec_bit_and(&integer(0), &float(5.5)), &integer(0)));
    assert!(exactly(&exec_bit_and(&float(0.5), &integer(5)), &integer(0)));
    assert!(exactly(&exec_bit_not(&integer(0)), &integer(-1)));
    assert!(exactly(&exec_bit_not(&float(-1.5)), &integer(0)));
    assert!(exactly(&exec_bit_not(&float(f64::NAN)), &integer(-1)));
}

#[test]
fn zero_decides_the_bits_beside_a_blob() {
    assert!(exactly(&exec_bit_and(&blob(), &integer(0)), &integer(0)));
    assert!(exactly(&exec_bit_and(&float(-0.0), &blob()), &integer(0)));
    assert!(exactly(&exec_bit_and(&text("0"), &blob()), &integer(0)));
    assert!(exactly(&exec_bit_and(&blob(), &text("none")), &integer(0)));
}

#[test]
fn complements_of_bits() {
    for a in [0, 1, -1, 12, i64::MIN, i64::MAX] {
        assert!(exactly(&exec_bit_not(&exec_bit_not(&integer(a))), &integer(a)));
        for b in [0, 10, -3] {
            assert!(exactly(
                &exec_bit_not(&exec_bit_and(&integer(a), &integer(b))),
                &exec_bit_or(&exec_bit_not(&integer(a)), &exec_bit_not(&integer(b)))
            ));
            assert!(exactly(
                &exec_bit_not(&exec_bit_or(&integer(a), &integer(b))),
                &exec_bit_and(&exec_bit_not(&integer(a)), &exec_bit_not(&integer(b)))
            ));
        }
    }
}

#[test]
fn shifts_in_range_and_beyond() {
    assert!(exactly(&exec_shift_left(&integer(1), &integer(4)), &integer(16)));
    assert!(exactly(&exec_shift_left(&integer(3), &integer(63)), &integer(i64::MIN)));
    assert!(exactly(&exec_shift_left(&integer(1), &integer(64)), &integer(0)));
    assert!(exactly(&exec_shift_left(&integer(-1), &integer(i64::MAX)), &integer(0)));
    assert!(exactly(&exec_shift_left(&integer(16), &integer(-4)), &integer(1)));
    assert!(exactly(&exec_shift_left(&integer(-5), &integer(-1)), &integer(-3)));
    assert!(exactly(&exec_shift_left(&integer(-5), &integer(-64)), &integer(-1)));
    assert!(exactly(&exec_shift_left(&integer(-5), &integer(i64::MIN)), &integer(-1)));
    assert!(exactly(&exec_shift_left(&integer(5), &integer(i64::MIN)), &integer(0)));
    assert!(exactly(&exec_shift_right(&integer(16), &integer(4)), &integer(1)));
    assert!(exactly(&exec_shift_right(&integer(-1), &integer(63)), &integer(-1)));
    assert!(exactly(&exec_shift_right(&integer(-7), &integer(64)), &integer(-1)));
    assert!(exactly(&exec_shift_right(&integer(7), &integer(200)), &integer(0)));
    assert!(exactly(&exec_shift_right(&integer(1), &integer(-4)), &integer(16)));
    assert!(exactly(&exec_shift_right(&integer(1), &integer(-64)), &integer(0)));
    assert!(exactly(&exec_shift_right(&integer(1), &integer(i64::MIN)), &integer(0)));
    assert!(exactly(&exec_shift_left(&float(3.9), &float(2.9)), &integer(12)));
    assert!(exactly(&exec_shift_right(&float(12.5), &integer(2)), &integer(3)));
    assert!(exactly(&exec_shift_right(&integer(12), &float(2.5)), &integer(3)));
}

#[test]
fn shifts_mirror_each_other() {
    for a in [0, 1, -1, 12345, i64::MIN, i64::MAX] {
        for n in [0, 1, 5, 63, 64, 100, -1, -63, -64, i64::MAX] {
            assert!(exactly(
                &exec_shift_right(&integer(a), &integer(n)),
                &exec_shift_left(&integer(a), &integer(-n))
            ));
        }
        assert!(exactly(&exec_shift_left(&integer(a), &integer(0)), &integer(a)));
    }
}

#[test]
fn a_right_shift_undoes_a_left_shift() {
    for a in [0, 1, -1, 12345, -12345] {
        for n in [0, 1, 7, 40] {
            let shifted = exec_shift_left(&integer(a), &integer(n));
            assert!(exactly(&exec_shift_right(&shifted, &integer(n)), &integer(a)));
        }
    }
}

#[test]
fn logic_gives_truth_values() {
    let values = [OwnedValue::Null, integer(0), integer(4), float(1.5), text("0"), blob()];
    for a in values.iter() {
        for b in values.iter() {
            for result in [exec_and(a, b), exec_or(a, b)] {
                assert!(matches!(
                    result,
                    OwnedValue::Null | OwnedValue::Integer(0) | OwnedValue::Integer(1)
                ));
            }
        }
    }
}

#[test]
fn complements_of_truth() {
    assert!(exactly(&exec_boolean_not(&integer(0)), &integer(1)));
    assert!(exactly(&exec_boolean_not(&integer(-3)), &integer(0)));
    assert!(exactly(&exec_boolean_not(&float(0.0)), &integer(1)));
    assert!(exactly(&exec_boolean_not(&float(0.5)), &integer(0)));
    assert!(exactly(&exec_boolean_not(&float(f64::NAN)), &integer(0)));
    assert!(exactly(&exec_boolean_not(&text("0")), &integer(1)));
    assert!(exactly(&exec_boolean_not(&text("1")), &integer(0)));
    for value in [integer(0), integer(7), float(0.25), text("abc")] {
        let truth = exec_and(&value, &value);
        assert!(exactly(&exec_boolean_not(&exec_boolean_not(&value)), &truth));
    }
}

#[test]
fn conjunction_beside_null_and_text() {
    let null = OwnedValue::Null;
    assert!(exactly(&exec_and(&null, &integer(0)), &integer(0)));
    assert!(exactly(&exec_and(&blob(), &integer(0)), &integer(0)));
    assert!(exactly(&exec_and(&null, &text("0")), &null));
    assert!(exactly(&exec_and(&text("0"), &blob()), &integer(0)));
    assert!(exactly(&exec_and(&blob(), &blob()), &integer(1)));
    assert!(exactly(&exec_and(&float(f64::NAN), &integer(1)), &integer(1)));
    assert!(exactly(&exec_and(&null, &blob()), &null));
}

#[test]
fn disjunction_beside_null_and_text() {
    let null = OwnedValue::Null;
    assert!(exactly(&exec_or(&null, &text("0")), &null));
    assert!(exactly(&exec_or(&null, &text("2")), &integer(1)));
    assert!(exactly(&exec_or(&text("0"), &float(-0.0)), &integer(0)));
    assert!(exactly(&exec_or(&null, &blob()), &integer(1)));
    assert!(exactly(&exec_or(&blob(), &integer(0)), &integer(1)));
    assert!(exactly(&exec_or(&float(f64::NAN), &integer(0)), &integer(1)));
}

#[test]
fn complements_of_logic() {
    let values = [OwnedValue::Null, integer(0), integer(4), float(0.0), float(1.5)];
    for a in values.iter() {
        for b in values.iter() {
            assert!(exactly(
                &exec_boolean_not(&exec_and(a, b)),
                &exec_or(&exec_boolean_not(a), &exec_boolean_not(b))
            ));
            assert!(exactly(
                &exec_boolean_not(&exec_or(a, b)),
                &exec_and(&exec_boolean_not(a), &exec_boolean_not(b))
            ));
        }
    }
}

#[test]
fn equality_of_values() {
    assert_eq!(integer(3), float(3.0));
    assert_eq!(float(3.0), integer(3));
    assert_ne!(integer(3), float(3.5));
    assert_ne!(float(f64::NAN), float(f64::NAN));
    assert_eq!(float(0.0), float(-0.0));
    assert_eq!(blob(), OwnedValue::Blob(vec![0, 1]));
    assert_ne!(blob(), OwnedValue::Blob(vec![0, 2]));
    assert_ne!(blob(), OwnedValue::Blob(vec![0]));
    assert_ne!(text("3"), integer(3));
    assert_ne!(OwnedValue::Null, integer(0));
}
