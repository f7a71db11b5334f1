use crate::binary64;
use crate::binary64::INFINITE_MAGNITUDE;
use crate::decimal;
use crate::numeral;
use crate::numeric_text;
use crate::power;
use crate::real_arith;
use crate::render;
use crate::rounding;
use crate::value;
use crate::value::OwnedValue;
use vstd::prelude::*;

verus! {

/// The sign that stands before the digits of a number.
pub open spec fn sign_text(negative: bool) -> Seq<char> {
    if negative {
        seq!['-']
    } else {
        seq![]
    }
}

/// Digits up to the end of the text or up to another character are read whole.
pub proof fn lemma_digits_end_at(s: Seq<char>, from: nat, to: nat)
    requires
        from <= to <= s.len(),
        forall|i: int| from <= i < to ==> numeral::is_digit(#[trigger] s[i]),
        to < s.len() ==> !numeral::is_digit(s[to as int]),
    ensures
        numeric_text::digits_end(s, from) == to,
    decreases to - from,
{
    if from < to {
        assert(numeral::is_digit(s[from as int]));
        lemma_digits_end_at(s, from + 1, to);
    }
}

/// A sign, digits, and digits behind a point are read as such.
proof fn lemma_parts(
    negative: bool,
    whole: Seq<char>,
    point: bool,
    fraction: Seq<char>,
    s: Seq<char>,
)
    requires
        whole.len() > 0,
        numeral::all_digits(whole),
        numeral::all_digits(fraction),
        point || fraction.len() == 0,
        s == sign_text(negative) + whole + (if point {
            seq!['.'] + fraction
        } else {
            seq![]
        }),
    ensures
        numeric_text::is_negative(s) == negative,
        numeric_text::has_point(s) == point,
        !numeric_text::has_exponent(s),
        numeric_text::significant_digits(s) == whole + fraction,
        numeric_text::fraction_end(s) - numeric_text::fraction_start(s) == fraction.len(),
{
    let start: nat = if negative {
        1
    } else {
        0
    };
    let end = start + whole.len();
    assert(numeral::is_digit(whole[0]));
    assert(s[start as int] == whole[0]);
    assert(numeric_text::spaces_end(s, 0) == 0);
    assert(numeric_text::whole_start(s) == start);
    assert forall|i: int| start <= i < end implies numeral::is_digit(#[trigger] s[i]) by {
        assert(s[i] == whole[i - start]);
    }
    lemma_digits_end_at(s, start, end);
    assert(numeric_text::whole_end(s) == end);
    if point {
        assert(s[end as int] == '.');
        assert forall|i: int| end + 1 <= i < s.len() implies numeral::is_digit(#[trigger] s[i]) by {
            assert(s[i] == fraction[i - end - 1]);
        }
        lemma_digits_end_at(s, end + 1, s.len());
    } else {
        lemma_digits_end_at(s, end, s.len());
    }
    assert(numeric_text::significant_digits(s) =~= whole + fraction);
}

/// Zeros behind digits multiply by powers of ten.
proof fn lemma_trailing_zeros(s: Seq<char>, count: nat)
    ensures
        numeral::numeral_value(s + render::zeros(count)) == numeral::numeral_value(s)
            * power::pow10(count),
    decreases count,
{
    let longer = s + render::zeros(count);
    if count == 0 {
        assert(longer =~= s);
        assert(numeral::numeral_value(s) * 1 == numeral::numeral_value(s));
    } else {
        let fewer = (count - 1) as nat;
        lemma_trailing_zeros(s, fewer);
        assert(longer.drop_last() =~= s + render::zeros(fewer));
        let value = numeral::numeral_value(s);
        let p = power::pow10(fewer);
        assert((value * p) * 10 == value * (10 * p)) by (nonlinear_arith);
    }
}

/// Zeros before digits change nothing.
proof fn lemma_leading_zeros(s: Seq<char>, count: nat)
    ensures
        numeral::numeral_value(render::zeros(count) + s) == numeral::numeral_value(s),
    decreases s.len(), count,
{
    let longer = render::zeros(count) + s;
    if s.len() > 0 {
        assert(longer.drop_last() =~= render::zeros(count) + s.drop_last());
        lemma_leading_zeros(s.drop_last(), count);
    } else if count > 0 {
        assert(longer.drop_last() =~= render::zeros((count - 1) as nat) + s);
        lemma_leading_zeros(s, (count - 1) as nat);
    } else {
        assert(longer =~= s);
    }
}

/// The text of an integer reads back as the integer.
pub proof fn law_integer_text_reads_back(integer: i64)
    ensures
        numeric_text::numeric_value(render::integer_text(integer as int)) == OwnedValue::Integer(
            integer,
        ),
{
    let negative = integer < 0;
    let absolute = if negative {
        -(integer as int) as nat
    } else {
        integer as nat
    };
    let digits = numeral::numeral(absolute);
    let s = render::integer_text(integer as int);
    numeral::lemma_numeral_value(absolute);
    assert(s =~= sign_text(negative) + digits + seq![]);
    lemma_parts(negative, digits, false, seq![], s);
    assert(digits + seq![] =~= digits);
}

/// A decimal without places behind the point reads back as an integer that rounds to the same
/// number, or as that number.
proof fn lemma_whole_reads_back(negative: bool, digits: nat, exponent: nat, magnitude: nat)
    requires
        digits > 0,
        magnitude < INFINITE_MAGNITUDE,
        decimal::reads_as(digits, exponent as int, magnitude),
    ensures
        value::same_value(
            numeric_text::numeric_value(
                sign_text(negative) + render::positional(digits, exponent as int),
            ),
            OwnedValue::Float(binary64::assembled(negative, magnitude)),
        ),
{
    let s = sign_text(negative) + render::positional(digits, exponent as int);
    let text = numeral::numeral(digits);
    let whole = text + render::zeros(exponent);
    let number = digits * power::pow10(exponent);
    let one = binary64::one_in_units();
    numeral::lemma_numeral_value(digits);
    assert(s =~= sign_text(negative) + whole + seq![]);
    lemma_trailing_zeros(text, exponent);
    lemma_parts(negative, whole, false, seq![], s);
    assert(whole + seq![] =~= whole);
    power::lemma_pow10_positive(exponent);
    assert(number > 0) by (nonlinear_arith)
        requires
            digits > 0,
            power::pow10(exponent) > 0,
            number == digits * power::pow10(exponent),
    ;
    assert(power::pow10(0) == 1);
    assert(number * 1 == number);
    assert(decimal::decimal_numerator(number, 0) == number * one);
    assert(decimal::decimal_denominator(0) == 1);
    assert(decimal::decimal_numerator(digits, exponent as int) == number * one);
    rounding::lemma_nearest_is(number * one, 1, magnitude);
    let signed = if negative {
        -(number as int)
    } else {
        number as int
    };
    assert(real_arith::of_integer(signed) == binary64::assembled(negative, magnitude));
}

/// A decimal with places behind the point reads back as the number nearest to it.
proof fn lemma_places_read_back(negative: bool, digits: nat, places: nat)
    requires
        digits > 0,
        places > 0,
    ensures
        numeric_text::numeric_value(sign_text(negative) + render::positional(digits, -places))
            == OwnedValue::Float(
            binary64::assembled(negative, decimal::nearest_decimal(digits, -places)),
        ),
{
    let s = sign_text(negative) + render::positional(digits, -places);
    let text = numeral::numeral(digits);
    let length = text.len();
    numeral::lemma_numeral_value(digits);
    if length > places {
        let whole = text.take(length - places);
        let fraction = text.skip(length - places);
        assert(s =~= sign_text(negative) + whole + (seq!['.'] + fraction));
        lemma_parts(negative, whole, true, fraction, s);
        assert(whole + fraction =~= text);
    } else {
        let whole = seq!['0'];
        let lead = (places - length) as nat;
        let fraction = render::zeros(lead) + text;
        assert(s =~= sign_text(negative) + whole + (seq!['.'] + fraction));
        assert forall|i: int| 0 <= i < fraction.len() implies numeral::is_digit(
            #[trigger] fraction[i],
        ) by {
            if i >= lead {
                assert(fraction[i] == text[i - lead]);
            }
        }
        lemma_parts(negative, whole, true, fraction, s);
        assert(whole + fraction =~= render::zeros(lead + 1) + text);
        lemma_leading_zeros(text, lead + 1);
    }
}

/// A decimal in positional notation reads back as the number that the decimal rounds to.
pub proof fn law_decimal_text_reads_back(
    negative: bool,
    digits: nat,
    exponent: int,
    magnitude: nat,
)
    requires
        digits > 0,
        magnitude < INFINITE_MAGNITUDE,
        decimal::reads_as(digits, exponent, magnitude),
    ensures
        value::same_value(
            numeric_text::numeric_value(
                sign_text(negative) + render::positional(digits, exponent),
            ),
            OwnedValue::Float(binary64::assembled(negative, magnitude)),
        ),
{
    if exponent >= 0 {
        lemma_whole_reads_back(negative, digits, exponent as nat, magnitude);
    } else {
        let places = (-exponent) as nat;
        power::lemma_pow10_positive(places);
        rounding::lemma_nearest_is(
            decimal::decimal_numerator(digits, exponent),
            decimal::decimal_denominator(exponent),
            magnitude,
        );
        lemma_places_read_back(negative, digits, places);
    }
}

/// The text of either zero reads back as zero.
pub proof fn law_zero_text_reads_back(negative: bool)
    ensures
        value::same_value(
            numeric_text::numeric_value(sign_text(negative) + seq!['0']),
            OwnedValue::Float(binary64::assembled(negative, 0)),
        ),
{
    let s = sign_text(negative) + seq!['0'];
    assert(s =~= sign_text(negative) + seq!['0'] + seq![]);
    lemma_parts(negative, seq!['0'], false, seq![], s);
    assert(seq!['0'] + seq![] =~= seq!['0']);
    reveal_with_fuel(numeral::numeral_value, 2);
    assert(seq!['0'].drop_last() =~= Seq::<char>::empty());
    assert(0 * binary64::one_in_units() == 0);
    rounding::lemma_round_zero(1);
    rounding::lemma_nearest_is(0, 1, 0);
}

} // verus!
