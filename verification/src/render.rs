use crate::binary64;
use crate::binary64::{Real, INFINITE_MAGNITUDE};
use crate::grammar;
use crate::numeral;
use crate::numeric_text;
use crate::readback;
use crate::shortest;
use crate::shortest::shortest_decimal;
use crate::value;
use crate::value::OwnedValue;
use vstd::prelude::*;
use vstd::string::*;

verus! {

/// An integer in decimal digits.
pub open spec fn integer_text(value: int) -> Seq<char> {
    if value < 0 {
        seq!['-'] + numeral::numeral(-value as nat)
    } else {
        numeral::numeral(value as nat)
    }
}

/// As many zeros as given.
pub open spec fn zeros(count: nat) -> Seq<char> {
    Seq::new(count, |i: int| '0')
}

/// `digits * 10^exponent` in positional notation: zeros fill the places up to the decimal point,
/// and there is a point only where digits follow it.
pub open spec fn positional(digits: nat, exponent: int) -> Seq<char> {
    let text = numeral::numeral(digits);
    if exponent >= 0 {
        text + zeros(exponent as nat)
    } else if text.len() + exponent > 0 {
        let whole = text.len() + exponent;
        text.take(whole) + seq!['.'] + text.skip(whole)
    } else {
        seq!['0', '.'] + zeros((-exponent - text.len()) as nat) + text
    }
}

/// The shortest decimal that reads back as a magnitude.
pub open spec fn shortest_of(magnitude: nat) -> (nat, int) {
    choose|decimal: (nat, int)| shortest::is_shortest(magnitude, decimal.0, decimal.1)
}

/// The text of a number: the shortest decimal that reads back as the number, in positional
/// notation.
pub open spec fn real_text(value: Real) -> Seq<char> {
    if value.nan() {
        seq!['N', 'a', 'N']
    } else {
        let sign = if value.negative() { seq!['-'] } else { seq![] };
        if value.infinite() {
            sign + seq!['i', 'n', 'f']
        } else if value.zero() {
            sign + seq!['0']
        } else {
            let (digits, exponent) = shortest_of(value.magnitude());
            sign + positional(digits, exponent)
        }
    }
}

/// Appends one digit.
fn append_digit(out: &mut String, digit: char)
    requires
        numeral::is_digit(digit),
    ensures
        final(out)@ == old(out)@.push(digit),
{
    proof {
        reveal_strlit("0");
        reveal_strlit("1");
        reveal_strlit("2");
        reveal_strlit("3");
        reveal_strlit("4");
        reveal_strlit("5");
        reveal_strlit("6");
        reveal_strlit("7");
        reveal_strlit("8");
        reveal_strlit("9");
    }
    let text: &str = match digit {
        '0' => "0",
        '1' => "1",
        '2' => "2",
        '3' => "3",
        '4' => "4",
        '5' => "5",
        '6' => "6",
        '7' => "7",
        '8' => "8",
        _ => "9",
    };
    assert(text@ =~= seq![digit]);
    out.append(text);
    assert(out@ =~= old(out)@.push(digit));
}

/// Appends the digits from position `from` up to position `to`.
fn append_digits(out: &mut String, digits: &Vec<char>, from: usize, to: usize)
    requires
        numeral::all_digits(digits@),
        from <= to <= digits@.len(),
    ensures
        final(out)@ == old(out)@ + digits@.subrange(from as int, to as int),
{
    let ghost before = out@;
    let mut i: usize = from;
    assert(before + digits@.subrange(from as int, from as int) =~= before);
    while i < to
        invariant
            from <= i <= to <= digits@.len(),
            numeral::all_digits(digits@),
            out@ == before + digits@.subrange(from as int, i as int),
        decreases to - i,
    {
        assert(numeral::is_digit(digits@[i as int]));
        append_digit(out, digits[i]);
        assert(before + digits@.subrange(from as int, i + 1) =~= (before + digits@.subrange(
            from as int,
            i as int,
        )).push(digits@[i as int]));
        i = i + 1;
    }
}

/// Appends zeros.
fn append_zeros(out: &mut String, count: usize)
    ensures
        final(out)@ == old(out)@ + zeros(count as nat),
{
    let ghost before = out@;
    let mut i: usize = 0;
    assert(before + zeros(0) =~= before);
    while i < count
        invariant
            i <= count,
            out@ == before + zeros(i as nat),
        decreases count - i,
    {
        append_digit(out, '0');
        assert(before + zeros((i + 1) as nat) =~= (before + zeros(i as nat)).push('0'));
        i = i + 1;
    }
}

/// The digits of a number.
fn numeral_digits(n: u64) -> (digits: Vec<char>)
    ensures
        digits@ == numeral::numeral(n as nat),
        numeral::all_digits(digits@),
    decreases n,
{
    let digit: char = ((n % 10) as u8 + 48u8) as char;
    let mut digits: Vec<char> = if n < 10 {
        Vec::new()
    } else {
        numeral_digits(n / 10)
    };
    digits.push(digit);
    proof {
        numeral::lemma_numeral_value(n as nat);
        assert(digits@ =~= numeral::numeral(n as nat));
    }
    digits
}

/// An integer in decimal digits.
pub fn render_integer(value: i64) -> (text: String)
    ensures
        text@ == integer_text(value as int),
        text@.len() > 0,
        text@[0] == '-' <==> value < 0,
        numeric_text::numeric_value(text@) == OwnedValue::Integer(value),
{
    proof {
        readback::law_integer_text_reads_back(value);
        grammar::law_text_of_integer(value);
    }
    let mut out: String = String::new();
    let absolute: u64;
    if value < 0 {
        proof {
            reveal_strlit("-");
        }
        out.append("-");
        absolute = (-(value as i128)) as u64;
    } else {
        absolute = value as u64;
    }
    let digits: Vec<char> = numeral_digits(absolute);
    append_digits(&mut out, &digits, 0, digits.len());
    assert(digits@.subrange(0, digits@.len() as int) =~= digits@);
    assert(out@ =~= integer_text(value as int));
    out
}

/// Appends the shortest decimal that reads back as a magnitude, in positional notation.
fn append_magnitude(out: &mut String, magnitude: u64)
    requires
        0 < magnitude < INFINITE_MAGNITUDE,
    ensures
        ({
            let (digits, exponent) = shortest_of(magnitude as nat);
            &&& final(out)@ == old(out)@ + positional(digits, exponent)
            &&& shortest::is_shortest(magnitude as nat, digits, exponent)
        }),
{
    proof {
        reveal_strlit("0.");
        reveal_strlit(".");
    }
    let ghost before = out@;
    let (number, exponent) = shortest_decimal(magnitude);
    proof {
        let found = (number as nat, exponent as int);
        assert(shortest::is_shortest(magnitude as nat, found.0, found.1));
        shortest::lemma_shortest_unique(magnitude as nat, found, shortest_of(magnitude as nat));
    }
    let digits: Vec<char> = numeral_digits(number);
    let length: usize = digits.len();
    if exponent >= 0 {
        append_digits(out, &digits, 0, length);
        append_zeros(out, exponent as usize);
        assert(digits@.subrange(0, length as int) =~= digits@);
    } else {
        let places: usize = (-exponent) as usize;
        if length > places {
            let whole: usize = length - places;
            append_digits(out, &digits, 0, whole);
            out.append(".");
            append_digits(out, &digits, whole, length);
        } else {
            out.append("0.");
            append_zeros(out, places - length);
            append_digits(out, &digits, 0, length);
            assert(digits@.subrange(0, length as int) =~= digits@);
        }
    }
    assert(out@ =~= before + positional(number as nat, exponent as int));
}

/// What the text of a finite number that is not zero is like.
proof fn lemma_text_of_finite(value: Real, text: Seq<char>)
    requires
        value.finite(),
        !value.zero(),
        shortest::is_shortest(
            value.magnitude(),
            shortest_of(value.magnitude()).0,
            shortest_of(value.magnitude()).1,
        ),
        text == readback::sign_text(value.negative()) + positional(
            shortest_of(value.magnitude()).0,
            shortest_of(value.magnitude()).1,
        ),
    ensures
        text == real_text(value),
        value::same_value(numeric_text::numeric_value(text), OwnedValue::Float(value)),
        exists|digits: nat, exponent: int|
            {
                &&& shortest::is_shortest(value.magnitude(), digits, exponent)
                &&& text == (if value.negative() {
                    seq!['-']
                } else {
                    Seq::<char>::empty()
                }) + #[trigger] positional(digits, exponent)
            },
        text.len() > 0,
        text[0] == '-' <==> value.negative(),
{
    let (digits, exponent) = shortest_of(value.magnitude());
    let body = positional(digits, exponent);
    readback::law_decimal_text_reads_back(
        value.negative(),
        digits,
        exponent,
        value.magnitude(),
    );
    assert(binary64::assembled(value.negative(), value.magnitude()) == value);
    grammar::law_digits_of_number(digits);
    assert('0' <= body[0] <= '9');
    assert(readback::sign_text(value.negative()) =~= if value.negative() {
        seq!['-']
    } else {
        Seq::<char>::empty()
    });
}

/// The text of a finite number that is not zero.
fn render_finite(value: &Real) -> (text: String)
    requires
        value.finite(),
        !value.zero(),
    ensures
        shortest::is_shortest(
            value.magnitude(),
            shortest_of(value.magnitude()).0,
            shortest_of(value.magnitude()).1,
        ),
        text@ == readback::sign_text(value.negative()) + positional(
            shortest_of(value.magnitude()).0,
            shortest_of(value.magnitude()).1,
        ),
{
    let mut out: String = String::new();
    if value.is_negative() {
        proof {
            reveal_strlit("-");
        }
        out.append("-");
    }
    assert(out@ =~= readback::sign_text(value.negative()));
    append_magnitude(&mut out, value.magnitude_bits());
    out
}

/// The text of either zero or of either infinity.
proof fn lemma_text_of_special(value: Real)
    requires
        value.zero() || value.infinite() || value.nan(),
    ensures
        real_text(value) == if value.nan() {
            seq!['N', 'a', 'N']
        } else if value.zero() {
            if value.negative() {
                seq!['-', '0']
            } else {
                seq!['0']
            }
        } else {
            if value.negative() {
                seq!['-', 'i', 'n', 'f']
            } else {
                seq!['i', 'n', 'f']
            }
        },
        value.zero() ==> value::same_value(
            numeric_text::numeric_value(real_text(value)),
            OwnedValue::Float(value),
        ),
{
    let sign = readback::sign_text(value.negative());
    assert(sign + seq!['i', 'n', 'f'] =~= if value.negative() {
        seq!['-', 'i', 'n', 'f']
    } else {
        seq!['i', 'n', 'f']
    });
    assert(sign + seq!['0'] =~= if value.negative() {
        seq!['-', '0']
    } else {
        seq!['0']
    });
    if value.zero() {
        readback::law_zero_text_reads_back(value.negative());
        assert(binary64::assembled(value.negative(), 0) == value);
    }
}

/// The text of a number: the shortest decimal that reads back as the number, in positional
/// notation. Read as a number, the text of a finite number equals that number.
pub fn render_real(value: &Real) -> (text: String)
    ensures
        text@ == real_text(*value),
        value.finite() ==> value::same_value(
            numeric_text::numeric_value(text@),
            OwnedValue::Float(*value),
        ),
        value.finite() && !value.zero() ==> shortest::is_shortest(
            value.magnitude(),
            shortest_of(value.magnitude()).0,
            shortest_of(value.magnitude()).1,
        ),
        value.finite() && !value.zero() ==> exists|digits: nat, exponent: int|
            {
                &&& shortest::is_shortest(value.magnitude(), digits, exponent)
                &&& text@ == (if value.negative() {
                    seq!['-']
                } else {
                    Seq::<char>::empty()
                }) + #[trigger] positional(digits, exponent)
            },
        value.zero() ==> text@ == if value.negative() {
            seq!['-', '0']
        } else {
            seq!['0']
        },
        value.infinite() ==> text@ == if value.negative() {
            seq!['-', 'i', 'n', 'f']
        } else {
            seq!['i', 'n', 'f']
        },
        value.nan() ==> text@ == seq!['N', 'a', 'N'],
        text@.len() > 0,
        !value.nan() ==> (text@[0] == '-' <==> value.negative()),
{
    if value.is_nan() || value.is_infinite() || value.is_zero() {
        proof {
            reveal_strlit("NaN");
            reveal_strlit("inf");
            reveal_strlit("-inf");
            reveal_strlit("0");
            reveal_strlit("-0");
            lemma_text_of_special(*value);
        }
        let text: &str = if value.is_nan() {
            "NaN"
        } else if value.is_zero() {
            if value.is_negative() {
                "-0"
            } else {
                "0"
            }
        } else if value.is_negative() {
            "-inf"
        } else {
            "inf"
        };
        assert(text@ =~= real_text(*value));
        text.to_owned()
    } else {
        let text: String = render_finite(value);
        proof {
            lemma_text_of_finite(*value, text@);
        }
        text
    }
}

} // verus!
