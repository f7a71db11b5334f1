use vdbe::binary64::Real;
use vdbe::concat::exec_concat;
use vdbe::numeric_text::cast_text_to_numeric;
use vdbe::render::{render_integer, render_real};
use vdbe::value::{OwnedValue, Text};

fn real_of(value: f64) -> Real {
    Real::from_bits(value.to_bits())
}

fn text(value: &str) -> OwnedValue {
    OwnedValue::Text(Text::from_str(value))
}

fn floats() -> Vec<f64> {
    let mut out = vec![
        0.0,
        1.0,
        3.0,
        0.1,
        0.3,
        1.5,
        100.0,
        1e21,
        1e22,
        1e23,
        1e-5,
        1e-7,
        123456789.125,
        1234567890123456.8,
        562949953421312.25,
        562949953421312.75,
        2251799813685248.25,
        4503599627370495.5,
        9007199254740991.0,
        9007199254740993.0,
        9007199254740994.0,
        1152921504606846976.0,
        9223372036854775808.0,
        f64::MAX,
        f64::MIN_POSITIVE,
        f64::EPSILON,
        5e-324,
        1e-323,
        2.2250738585072009e-308,
        2.2250738585072011e-308,
        1.7976931348623155e308,
        8.41e21,
        2.0919495182368195e19,
        2.6153245263757307e19,
        4.8726570057e288,
        1.6e-322,
        9.5367431640625e-7,
        0.000244140625,
    ];
    let mut state: u64 = 0x2545_f491_4f6c_dd1d;
    let mut i = 0;
    while i < 150 {
        state = state
            .wrapping_mul(6364136223846793005)
            .wrapping_add(1442695040888963407);
        let any = f64::from_bits(state);
        if any.is_finite() {
            out.push(any);
        }
        out.push(f64::from_bits((state >> 12) | 0x4330_0000_0000_0000));
        out.push(f64::from_bits((state >> 12) | 0x3fb0_0000_0000_0000));
        // Few significant bits, where decimals tie.
        out.push(f64::from_bits(state & 0x7fff_f000_0000_0000 | 0x3000_0000_0000_0000).min(1e300));
        i += 1;
    }
    let mut exponent = -1074;
    while exponent < 1024 {
        out.push((2.0f64).powi(exponent));
        exponent += 37;
    }
    let negated: Vec<f64> = out.iter().map(|x| -x).collect();
    out.extend(negated);
    out
}

#[test]
fn reals_are_written_in_the_shortest_way() {
    for value in floats() {
        assert_eq!(render_real(&real_of(value)), value.to_string());
    }
    assert_eq!(render_real(&real_of(3.0)), "3");
    assert_eq!(render_real(&real_of(0.1)), "0.1");
    assert_eq!(render_real(&real_of(1e-7)), "0.0000001");
    assert_eq!(render_real(&real_of(1e23)), "100000000000000000000000");
}

#[test]
fn special_reals_are_written_by_name() {
    assert_eq!(render_real(&real_of(f64::NAN)), "NaN");
    assert_eq!(render_real(&real_of(f64::INFINITY)), "inf");
    assert_eq!(render_real(&real_of(f64::NEG_INFINITY)), "-inf");
    assert_eq!(render_real(&real_of(-0.0)), "-0");
    assert_eq!(render_real(&real_of(0.0)), "0");
}

#[test]
fn integers_are_written_in_digits() {
    for value in [0, 7, -7, 10, -100, i64::MAX, i64::MIN, 1234567890] {
        assert_eq!(render_integer(value), value.to_string());
    }
}

#[test]
fn written_integers_read_back() {
    for value in [0, 7, -7, 10, -100, i64::MAX, i64::MIN, 1234567890] {
        assert!(matches!(
            cast_text_to_numeric(&render_integer(value)),
            OwnedValue::Integer(i) if i == value
        ));
    }
}

#[test]
fn written_reals_read_back() {
    for value in floats() {
        assert_eq!(
            cast_text_to_numeric(&render_real(&real_of(value))),
            OwnedValue::Float(real_of(value))
        );
    }
}

#[test]
fn decimals_read_as_the_machine_reads_them() {
    let decimals = [
        "0.1",
        "1.0",
        "-2.5",
        "+3.25",
        "1e10",
        "1E-10",
        "1.5e+3",
        "123456789.123456789",
        "9007199254740993.0",
        "9007199254740992.999999999999999999",
        "9007199254740993.0000000000000000000000000000001",
        "2.2250738585072011e-308",
        "2.2250738585072012e-308",
        "4.9e-324",
        "2.4703282292062327e-324",
        "2.4703282292062328e-324",
        "1e-400",
        "1e400",
        "-1e400",
        "1.7976931348623157e308",
        "1.7976931348623158e308",
        "1.7976931348623159e308",
        "179769313486231580793728971405301e276",
        "0.000000000000000000000000000000000000000001",
        "100000000000000000000000.0",
        "6.02214076e23",
        ".5",
        "5.",
        "0e5",
        "1e99999999999999999999999999",
        "1e-99999999999999999999999999",
        "0e99999999999999999999999999",
    ];
    for decimal in decimals {
        let expected: f64 = decimal.parse().unwrap();
        match cast_text_to_numeric(decimal) {
            OwnedValue::Float(f) => {
                assert_eq!(f.to_bits(), expected.to_bits(), "{}", decimal)
            }
            other => panic!("{} read as {:?}", decimal, other),
        }
    }
}

#[test]
fn large_whole_numbers_read_as_reals() {
    for digits in [
        "9223372036854775808",
        "-9223372036854775809",
        "123456789012345678901234567890",
    ] {
        let expected: f64 = digits.parse().unwrap();
        match cast_text_to_numeric(digits) {
            OwnedValue::Float(f) => assert_eq!(f.to_bits(), expected.to_bits(), "{}", digits),
            other => panic!("{} read as {:?}", digits, other),
        }
    }
    assert!(matches!(
        cast_text_to_numeric("9223372036854775807"),
        OwnedValue::Integer(i64::MAX)
    ));
    assert!(matches!(
        cast_text_to_numeric("-9223372036854775808"),
        OwnedValue::Integer(i64::MIN)
    ));
}

#[test]
fn the_longest_numeric_prefix_counts() {
    assert!(matches!(cast_text_to_numeric("12abc"), OwnedValue::Integer(12)));
    assert!(matches!(cast_text_to_numeric("  -4 "), OwnedValue::Integer(-4)));
    assert!(matches!(cast_text_to_numeric("abc"), OwnedValue::Integer(0)));
    assert!(matches!(cast_text_to_numeric(""), OwnedValue::Integer(0)));
    assert!(matches!(cast_text_to_numeric("-"), OwnedValue::Integer(0)));
    assert!(matches!(cast_text_to_numeric("."), OwnedValue::Integer(0)));
    assert!(matches!(cast_text_to_numeric("3e"), OwnedValue::Integer(3)));
    assert!(matches!(cast_text_to_numeric("3e+"), OwnedValue::Integer(3)));
    assert!(matches!(
        cast_text_to_numeric("1.5x"),
        OwnedValue::Float(f) if f.to_bits() == (1.5f64).to_bits()
    ));
    assert!(matches!(
        cast_text_to_numeric("2e3e4"),
        OwnedValue::Float(f) if f.to_bits() == (2000.0f64).to_bits()
    ));
}

#[test]
fn values_are_joined_as_text() {
    let f = OwnedValue::Float(real_of(2.5));
    let i = OwnedValue::Integer(-7);
    let t = text("ab");
    assert_eq!(exec_concat(&t, &t), text("abab"));
    assert_eq!(exec_concat(&t, &i), text("ab-7"));
    assert_eq!(exec_concat(&t, &f), text("ab2.5"));
    assert_eq!(exec_concat(&i, &t), text("-7ab"));
    assert_eq!(exec_concat(&i, &i), text("-7-7"));
    assert_eq!(exec_concat(&i, &f), text("-72.5"));
    assert_eq!(exec_concat(&f, &t), text("2.5ab"));
    assert_eq!(exec_concat(&f, &i), text("2.5-7"));
    assert_eq!(exec_concat(&f, &f), text("2.52.5"));
    assert_eq!(exec_concat(&text(""), &text("")), text(""));
}

#[test]
fn joining_with_null_is_null() {
    let blob = OwnedValue::Blob(vec![1, 2]);
    assert_eq!(exec_concat(&OwnedValue::Null, &text("x")), OwnedValue::Null);
    assert_eq!(exec_concat(&text("x"), &OwnedValue::Null), OwnedValue::Null);
    assert_eq!(exec_concat(&OwnedValue::Null, &OwnedValue::Null), OwnedValue::Null);
    assert_eq!(exec_concat(&OwnedValue::Null, &blob), OwnedValue::Null);
    assert_eq!(exec_concat(&blob, &OwnedValue::Null), OwnedValue::Null);
}

#[test]
fn joining_is_associative() {
    let a = text("x");
    let b = OwnedValue::Integer(12);
    let c = OwnedValue::Float(real_of(0.5));
    assert_eq!(
        exec_concat(&exec_concat(&a, &b), &c),
        exec_concat(&a, &exec_concat(&b, &c))
    );
    assert_eq!(exec_concat(&exec_concat(&a, &b), &c), text("x120.5"));
}

#[test]
fn text_values_keep_their_text() {
    let value = Text::from_str("h\u{e9}llo");
    assert_eq!(value.as_str(), "h\u{e9}llo");
    assert_eq!(OwnedValue::build_text("abc"), text("abc"));
    assert_ne!(OwnedValue::build_text("abc"), text("abd"));
}
