use crate::binary64;
use crate::decimal;
use crate::numeral;
use crate::numeric_text;
use crate::power;
use crate::readback;
use crate::render;
use crate::rounding;
use crate::shortest;
use crate::value::OwnedValue;
use vstd::math::abs;
use vstd::prelude::*;

verus! {

/// A further digit multiplies the value by ten and adds the digit; no digits are worth zero.
pub proof fn law_value_of_digits(digits: Seq<char>, last: char)
    requires
        '0' <= last <= '9',
    ensures
        numeral::numeral_value(Seq::<char>::empty()) == 0,
        numeral::numeral_value(digits.push(last)) == 10 * numeral::numeral_value(digits) + (
        last as int - 48),
{
    assert(digits.push(last).drop_last() =~= digits);
}

/// The digits of a number stand for it, and do not begin with a zero that could be left out.
pub proof fn law_digits_of_number(n: nat)
    ensures
        numeral::numeral_value(numeral::numeral(n)) == n,
        numeral::numeral(n).len() > 0,
        forall|i: int|
            0 <= i < numeral::numeral(n).len() ==> '0' <= #[trigger] numeral::numeral(n)[i] <= '9',
        numeral::numeral(n)[0] == '0' ==> n == 0 && numeral::numeral(n).len() == 1,
{
    numeral::lemma_numeral_value(n);
    assert forall|i: int| 0 <= i < numeral::numeral(n).len() implies '0'
        <= #[trigger] numeral::numeral(n)[i] <= '9' by {
        assert(numeral::is_digit(numeral::numeral(n)[i]));
    }
}

/// The text of an integer: a minus sign exactly where it is negative, and then the digits of its
/// size, without zeros before them.
pub proof fn law_text_of_integer(integer: i64)
    ensures
        ({
            let text = render::integer_text(integer as int);
            let digits = if integer < 0 {
                text.skip(1)
            } else {
                text
            };
            &&& text.len() > 0
            &&& text[0] == '-' <==> integer < 0
            &&& digits.len() > 0
            &&& forall|i: int| 0 <= i < digits.len() ==> '0' <= #[trigger] digits[i] <= '9'
            &&& digits[0] == '0' ==> integer == 0 && digits.len() == 1
            &&& numeral::numeral_value(digits) == abs(integer as int)
        }),
{
    let n = abs(integer as int);
    law_digits_of_number(n);
    let text = render::integer_text(integer as int);
    if integer < 0 {
        assert(text.skip(1) =~= numeral::numeral(n));
    }
}

/// Positional notation: the digits with zeros behind them; or the digits with a point before the
/// last places; or, where the places outnumber the digits, a zero, the point and zeros before them.
pub proof fn law_positional_notation(digits: nat, exponent: int)
    ensures
        ({
            let text = render::positional(digits, exponent);
            let number = numeral::numeral(digits);
            let whole = number.len() + exponent;
            &&& exponent >= 0 ==> {
                &&& text.len() == whole
                &&& text.take(number.len() as int) == number
                &&& forall|i: int| number.len() <= i < text.len() ==> #[trigger] text[i] == '0'
            }
            &&& exponent < 0 && whole > 0 ==> {
                &&& text.len() == number.len() + 1
                &&& text[whole] == '.'
                &&& text.take(whole) + text.skip(whole + 1) == number
            }
            &&& whole <= 0 ==> {
                &&& text.len() == 2 - exponent
                &&& text[0] == '0'
                &&& text[1] == '.'
                &&& forall|i: int| 2 <= i < 2 - whole ==> #[trigger] text[i] == '0'
                &&& text.skip(2 - whole) == number
            }
        }),
{
    let text = render::positional(digits, exponent);
    let number = numeral::numeral(digits);
    let whole = number.len() + exponent;
    law_digits_of_number(digits);
    if exponent >= 0 {
        assert(text.take(number.len() as int) =~= number);
    } else if whole > 0 {
        assert(text.take(whole) + text.skip(whole + 1) =~= number);
    } else {
        assert(text.skip(2 - whole) =~= number);
    }
}

/// A decimal reads as the magnitude that its exact value rounds to.
pub proof fn law_decimal_reads_as(digits: nat, exponent: int, magnitude: nat)
    ensures
        exponent >= 0 ==> (decimal::reads_as(digits, exponent, magnitude) <==> rounding::rounds_to(
            digits * power::pow10(exponent as nat) * binary64::one_in_units(),
            1,
            magnitude,
        )),
        exponent < 0 ==> (decimal::reads_as(digits, exponent, magnitude) <==> rounding::rounds_to(
            digits * binary64::one_in_units(),
            power::pow10(-exponent as nat),
            magnitude,
        )),
{
    assert(power::pow10(0) == 1);
    assert(digits * 1 == digits);
}

/// The shortest decimal of a magnitude reads as the magnitude and does not end in a zero. Another
/// decimal that reads as the magnitude has at least as many digits; and where it has as many, it is
/// not nearer to the magnitude, and smaller where it is as near.
pub proof fn law_shortest_decimal(
    magnitude: nat,
    digits: nat,
    exponent: int,
    other: nat,
    other_exponent: int,
)
    requires
        shortest::is_shortest(magnitude, digits, exponent),
        other > 0,
        decimal::reads_as(other, other_exponent, magnitude),
    ensures
        digits % 10 != 0,
        decimal::reads_as(digits, exponent, magnitude),
        numeral::numeral(digits).len() <= numeral::numeral(other).len(),
        numeral::numeral(digits).len() == numeral::numeral(other).len() ==> ({
            let lower = if exponent < other_exponent {
                exponent
            } else {
                other_exponent
            };
            let places = if lower < 0 {
                -lower
            } else {
                0
            };
            let one = binary64::one_in_units();
            let exact = binary64::units(magnitude) * power::pow10(places as nat);
            let first = digits * power::pow10((exponent + places) as nat);
            let second = other * power::pow10((other_exponent + places) as nat);
            &&& abs(first * one - exact) <= abs(second * one - exact)
            &&& abs(first * one - exact) == abs(second * one - exact) ==> first >= second
        }),
{
}

/// White space up to another character or the end is skipped whole.
proof fn lemma_spaces_end_at(s: Seq<char>, from: nat, to: nat)
    requires
        from <= to <= s.len(),
        forall|i: int| from <= i < to ==> numeric_text::is_space(#[trigger] s[i]),
        to < s.len() ==> !numeric_text::is_space(s[to as int]),
    ensures
        numeric_text::spaces_end(s, from) == to,
    decreases to - from,
{
    if from < to {
        assert(numeric_text::is_space(s[from as int]));
        lemma_spaces_end_at(s, from + 1, to);
    }
}

/// The parts of a text that begins with a number.
proof fn lemma_number_parts(
    spaces: Seq<char>,
    sign: Seq<char>,
    whole: Seq<char>,
    point: bool,
    fraction: Seq<char>,
    tail: Seq<char>,
    s: Seq<char>,
)
    requires
        forall|i: int|
            0 <= i < spaces.len() ==> #[trigger] spaces[i] == ' ' || '\t' <= spaces[i] <= '\r',
        sign == Seq::<char>::empty() || sign == seq!['+'] || sign == seq!['-'],
        forall|i: int| 0 <= i < whole.len() ==> '0' <= #[trigger] whole[i] <= '9',
        forall|i: int| 0 <= i < fraction.len() ==> '0' <= #[trigger] fraction[i] <= '9',
        point || fraction.len() == 0,
        whole.len() + fraction.len() > 0 || sign.len() > 0 || point || tail.len() == 0 || !(tail[0]
            == ' ' || '\t' <= tail[0] <= '\r' || tail[0] == '+' || tail[0] == '-'),
        tail.len() > 0 ==> !('0' <= tail[0] <= '9'),
        !point && tail.len() > 0 ==> tail[0] != '.',
        s == spaces + sign + whole + (if point {
            seq!['.'] + fraction
        } else {
            Seq::<char>::empty()
        }) + tail,
    ensures
        numeric_text::is_negative(s) == (sign == seq!['-']),
        numeric_text::has_point(s) == point,
        numeric_text::significant_digits(s) == whole + fraction,
        numeric_text::fraction_end(s) - numeric_text::fraction_start(s) == fraction.len(),
        numeric_text::fraction_end(s) == s.len() - tail.len(),
{
    let p0 = spaces.len();
    let p1 = p0 + sign.len();
    let p2 = p1 + whole.len();
    let p3 = s.len() - tail.len();
    assert forall|i: int| 0 <= i < p0 implies numeric_text::is_space(#[trigger] s[i]) by {
        assert(s[i] == spaces[i]);
    }
    let middle = if point {
        seq!['.'] + fraction
    } else {
        Seq::<char>::empty()
    };
    assert(sign.len() > 0 ==> s[p0 as int] == sign[0]);
    assert(whole.len() > 0 ==> s[p1 as int] == whole[0]);
    assert(point ==> s[p2 as int] == '.');
    assert(tail.len() > 0 ==> s[p3] == tail[0]);
    lemma_spaces_end_at(s, 0, p0);
    assert(numeric_text::whole_start(s) == p1);
    assert forall|i: int| p1 <= i < p2 implies numeral::is_digit(#[trigger] s[i]) by {
        assert(s[i] == whole[i - p1]);
    }
    readback::lemma_digits_end_at(s, p1, p2);
    if point {
        assert forall|i: int| p2 + 1 <= i < p3 implies numeral::is_digit(#[trigger] s[i]) by {
            assert(s[i] == fraction[i - p2 - 1]);
        }
        readback::lemma_digits_end_at(s, p2 + 1, p3 as nat);
        assert(s.subrange(p2 + 1int, p3) =~= fraction);
    } else {
        readback::lemma_digits_end_at(s, p2, p2);
        assert(s.subrange(p2 as int, p2 as int) =~= fraction);
    }
    assert(s.subrange(p1 as int, p2 as int) =~= whole);
}

/// A text that begins, after white space, with a sign that may be missing, digits, a point with
/// digits behind it, and an exponent, reads as that number, whatever follows that does not belong
/// to it. Without point and exponent the number is an integer if it fits. Otherwise it is the real
/// number nearest to the decimal.
pub proof fn law_number_at_the_start(
    spaces: Seq<char>,
    sign: Seq<char>,
    whole: Seq<char>,
    point: bool,
    fraction: Seq<char>,
    mark: Seq<char>,
    exponent_sign: Seq<char>,
    exponent: Seq<char>,
    rest: Seq<char>,
)
    requires
        forall|i: int|
            0 <= i < spaces.len() ==> #[trigger] spaces[i] == ' ' || '\t' <= spaces[i] <= '\r',
        sign == Seq::<char>::empty() || sign == seq!['+'] || sign == seq!['-'],
        forall|i: int| 0 <= i < whole.len() ==> '0' <= #[trigger] whole[i] <= '9',
        forall|i: int| 0 <= i < fraction.len() ==> '0' <= #[trigger] fraction[i] <= '9',
        forall|i: int| 0 <= i < exponent.len() ==> '0' <= #[trigger] exponent[i] <= '9',
        point || fraction.len() == 0,
        whole.len() + fraction.len() > 0,
        // An exponent is a letter, a sign that may be missing, and digits.
        mark == Seq::<char>::empty() || mark == seq!['e'] || mark == seq!['E'],
        exponent_sign == Seq::<char>::empty() || exponent_sign == seq!['+'] || exponent_sign
            == seq!['-'],
        mark.len() > 0 <==> exponent.len() > 0,
        mark.len() == 0 ==> exponent_sign.len() == 0,
        // What follows does not go on with the number.
        rest.len() > 0 ==> !('0' <= rest[0] <= '9'),
        rest.len() > 0 && !point && mark.len() == 0 ==> rest[0] != '.',
        rest.len() > 1 && mark.len() == 0 && (rest[0] == 'e' || rest[0] == 'E') ==> !('0' <= rest[1]
            <= '9'),
        rest.len() > 2 && mark.len() == 0 && (rest[0] == 'e' || rest[0] == 'E') && (rest[1] == '+'
            || rest[1] == '-') ==> !('0' <= rest[2] <= '9'),
    ensures
        ({
            let s = spaces + sign + whole + (if point {
                seq!['.'] + fraction
            } else {
                Seq::<char>::empty()
            }) + (mark + exponent_sign + exponent + rest);
            let value = numeral::numeral_value(whole + fraction);
            let signed = if sign == seq!['-'] {
                -(value as int)
            } else {
                value as int
            };
            let power = (if exponent_sign == seq!['-'] {
                -(numeral::numeral_value(exponent) as int)
            } else {
                numeral::numeral_value(exponent) as int
            }) - fraction.len();
            if !point && mark.len() == 0 && i64::MIN <= signed <= i64::MAX {
                numeric_text::numeric_value(s) matches OwnedValue::Integer(n) && n == signed
            } else {
                numeric_text::numeric_value(s) matches OwnedValue::Float(f) && {
                    &&& f.negative() == (sign == seq!['-'])
                    &&& power >= 0 ==> rounding::rounds_to(
                        value * power::pow10(power as nat) * binary64::one_in_units(),
                        1,
                        f.magnitude(),
                    )
                    &&& power < 0 ==> rounding::rounds_to(
                        value * binary64::one_in_units(),
                        power::pow10(-power as nat),
                        f.magnitude(),
                    )
                }
            }
        }),
{
    let tail = mark + exponent_sign + exponent + rest;
    let s = spaces + sign + whole + (if point {
        seq!['.'] + fraction
    } else {
        Seq::<char>::empty()
    }) + tail;
    if mark.len() > 0 {
        assert(tail[0] == mark[0]);
    } else {
        assert(tail =~= rest);
    }
    lemma_number_parts(spaces, sign, whole, point, fraction, tail, s);
    let m = numeric_text::fraction_end(s);
    assert forall|i: int| 0 <= i < tail.len() implies #[trigger] s[m + i] == tail[i] by {}
    if mark.len() > 0 {
        lemma_exponent(mark, exponent_sign, exponent, rest, s);
    } else {
        lemma_no_exponent(rest, s);
        assert(numeral::numeral_value(exponent) == 0);
    }
    let value = numeral::numeral_value(whole + fraction);
    let power = numeric_text::exponent_value(s) - fraction.len();
    rounding::law_nearest_rounds(
        decimal::decimal_numerator(value, power),
        decimal::decimal_denominator(power),
    );
    assert(power::pow10(0) == 1);
    assert(value * 1 == value);
}

/// An exponent behind the digits is read as such.
proof fn lemma_exponent(
    mark: Seq<char>,
    exponent_sign: Seq<char>,
    exponent: Seq<char>,
    rest: Seq<char>,
    s: Seq<char>,
)
    requires
        mark == seq!['e'] || mark == seq!['E'],
        exponent_sign == Seq::<char>::empty() || exponent_sign == seq!['+'] || exponent_sign
            == seq!['-'],
        exponent.len() > 0,
        forall|i: int| 0 <= i < exponent.len() ==> '0' <= #[trigger] exponent[i] <= '9',
        rest.len() > 0 ==> !('0' <= rest[0] <= '9'),
        ({
            let tail = mark + exponent_sign + exponent + rest;
            &&& numeric_text::fraction_end(s) == s.len() - tail.len()
            &&& forall|i: int|
                0 <= i < tail.len() ==> #[trigger] s[numeric_text::fraction_end(s) + i] == tail[i]
        }),
    ensures
        numeric_text::has_exponent(s),
        numeric_text::exponent_value(s) == if exponent_sign == seq!['-'] {
            -(numeral::numeral_value(exponent) as int)
        } else {
            numeral::numeral_value(exponent) as int
        },
{
    let tail = mark + exponent_sign + exponent + rest;
    let m = numeric_text::fraction_end(s);
    let from = m + 1 + exponent_sign.len();
    let to = from + exponent.len();
    assert(s[m + 0int] == tail[0]);
    assert(s[m + 1int] == tail[1]);
    if exponent_sign.len() > 0 {
        assert(tail[1] == exponent_sign[0]);
    } else {
        assert(tail[1] == exponent[0]);
    }
    assert(numeric_text::exponent_start(s) == from);
    assert forall|i: int| from <= i < to implies numeral::is_digit(#[trigger] s[i]) by {
        assert(s[m + (i - m)] == tail[i - m]);
        assert(tail[i - m] == exponent[i - from]);
    }
    if to < s.len() {
        assert(s[m + (to - m)] == tail[to - m]);
        assert(tail[to - m] == rest[0]);
    }
    readback::lemma_digits_end_at(s, from, to);
    assert forall|i: int| 0 <= i < exponent.len() implies s[from + i] == #[trigger] exponent[i] by {
        assert(s[m + (from + i - m)] == tail[from + i - m]);
        assert(tail[from + i - m] == exponent[i]);
    }
    assert(s.subrange(from as int, to as int) =~= exponent);
}

/// Without digits behind a letter there is no exponent.
proof fn lemma_no_exponent(rest: Seq<char>, s: Seq<char>)
    requires
        rest.len() > 1 && (rest[0] == 'e' || rest[0] == 'E') ==> !('0' <= rest[1] <= '9'),
        rest.len() > 2 && (rest[0] == 'e' || rest[0] == 'E') && (rest[1] == '+' || rest[1] == '-')
            ==> !('0' <= rest[2] <= '9'),
        numeric_text::fraction_end(s) == s.len() - rest.len(),
        forall|i: int|
            0 <= i < rest.len() ==> #[trigger] s[numeric_text::fraction_end(s) + i] == rest[i],
    ensures
        !numeric_text::has_exponent(s),
{
    let m = numeric_text::fraction_end(s);
    if rest.len() > 0 {
        assert(s[m + 0int] == rest[0]);
    }
    if rest.len() > 1 {
        assert(s[m + 1int] == rest[1]);
    }
    if rest.len() > 2 {
        assert(s[m + 2int] == rest[2]);
    }
}

/// A text without a digit behind the white space, the sign and the point reads as zero.
pub proof fn law_no_number_at_the_start(spaces: Seq<char>, sign: Seq<char>, rest: Seq<char>)
    requires
        forall|i: int|
            0 <= i < spaces.len() ==> #[trigger] spaces[i] == ' ' || '\t' <= spaces[i] <= '\r',
        sign == Seq::<char>::empty() || sign == seq!['+'] || sign == seq!['-'],
        sign.len() == 0 && rest.len() > 0 ==> !(rest[0] == ' ' || '\t' <= rest[0] <= '\r' || rest[0]
            == '+' || rest[0] == '-'),
        rest.len() > 0 ==> !('0' <= rest[0] <= '9'),
        rest.len() > 1 && rest[0] == '.' ==> !('0' <= rest[1] <= '9'),
    ensures
        numeric_text::numeric_value(spaces + sign + rest) == OwnedValue::Integer(0),
{
    let s = spaces + sign + rest;
    let none = Seq::<char>::empty();
    assert(none + none =~= none);
    if rest.len() > 0 && rest[0] == '.' {
        let tail = rest.skip(1);
        assert(s =~= spaces + sign + none + (seq!['.'] + none) + tail);
        lemma_number_parts(spaces, sign, none, true, none, tail, s);
    } else {
        assert(s =~= spaces + sign + none + none + rest);
        lemma_number_parts(spaces, sign, none, false, none, rest, s);
    }
}

} // verus!
