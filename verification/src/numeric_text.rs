use crate::binary64;
use crate::binary64::{Real, INFINITE_MAGNITUDE};
use crate::decimal;
use crate::decimal::decimal_magnitude;
use crate::numeral;
use crate::power;
use crate::rounding;
use crate::value::OwnedValue;
use vstd::prelude::*;
use vstd::string::*;

verus! {

/// White space that may stand before a number: space, tab, line feed, vertical tab, form feed and
/// carriage return.
pub open spec fn is_space(c: char) -> bool {
    c == ' ' || '\t' <= c <= '\r'
}

/// The end of the white space that begins at a position.
pub open spec fn spaces_end(s: Seq<char>, from: nat) -> nat
    decreases s.len() - from,
{
    if from < s.len() && is_space(s[from as int]) {
        spaces_end(s, from + 1)
    } else {
        from
    }
}

/// The end of the digits that begin at a position.
pub open spec fn digits_end(s: Seq<char>, from: nat) -> nat
    decreases s.len() - from,
{
    if from < s.len() && numeral::is_digit(s[from as int]) {
        digits_end(s, from + 1)
    } else {
        from
    }
}

pub open spec fn is_minus(s: Seq<char>, at: nat) -> bool {
    at < s.len() && s[at as int] == '-'
}

pub open spec fn is_sign(s: Seq<char>, at: nat) -> bool {
    at < s.len() && (s[at as int] == '-' || s[at as int] == '+')
}

/// The position behind the sign that may stand at a position.
pub open spec fn sign_end(s: Seq<char>, at: nat) -> nat {
    if is_sign(s, at) {
        at + 1
    } else {
        at
    }
}

/// The number at the start of a text is negative.
pub open spec fn is_negative(s: Seq<char>) -> bool {
    is_minus(s, spaces_end(s, 0))
}

/// Where the digits before the decimal point begin.
pub open spec fn whole_start(s: Seq<char>) -> nat {
    sign_end(s, spaces_end(s, 0))
}

/// Where the digits before the decimal point end.
pub open spec fn whole_end(s: Seq<char>) -> nat {
    digits_end(s, whole_start(s))
}

pub open spec fn has_point(s: Seq<char>) -> bool {
    whole_end(s) < s.len() && s[whole_end(s) as int] == '.'
}

/// Where the digits behind the decimal point begin.
pub open spec fn fraction_start(s: Seq<char>) -> nat {
    if has_point(s) {
        whole_end(s) + 1
    } else {
        whole_end(s)
    }
}

/// Where the digits behind the decimal point end.
pub open spec fn fraction_end(s: Seq<char>) -> nat {
    digits_end(s, fraction_start(s))
}

/// The digits before and behind the decimal point.
pub open spec fn significant_digits(s: Seq<char>) -> Seq<char> {
    s.subrange(whole_start(s) as int, whole_end(s) as int) + s.subrange(
        fraction_start(s) as int,
        fraction_end(s) as int,
    )
}

/// Where the digits of an exponent would begin.
pub open spec fn exponent_start(s: Seq<char>) -> nat {
    sign_end(s, fraction_end(s) + 1)
}

/// An exponent follows: the letter, an optional sign, and at least one digit.
pub open spec fn has_exponent(s: Seq<char>) -> bool {
    let mark = fraction_end(s);
    &&& mark < s.len()
    &&& s[mark as int] == 'e' || s[mark as int] == 'E'
    &&& digits_end(s, exponent_start(s)) > exponent_start(s)
}

/// The number that the exponent stands for; zero where there is none.
pub open spec fn exponent_value(s: Seq<char>) -> int {
    if has_exponent(s) {
        let start = exponent_start(s);
        let value = numeral::numeral_value(s.subrange(start as int, digits_end(s, start) as int));
        if is_minus(s, fraction_end(s) + 1) {
            -(value as int)
        } else {
            value as int
        }
    } else {
        0
    }
}

/// The value of a text as a number. The longest prefix that is a number counts, after white space;
/// a text without such a prefix is zero. Digits alone are an integer if it fits, and otherwise, as
/// with a decimal point or an exponent, the value is the nearest real number.
pub open spec fn numeric_value(s: Seq<char>) -> OwnedValue {
    let digits = significant_digits(s);
    let value = numeral::numeral_value(digits);
    let signed = if is_negative(s) { -(value as int) } else { value as int };
    if digits.len() == 0 {
        OwnedValue::Integer(0)
    } else if !has_point(s) && !has_exponent(s) && i64::MIN <= signed <= i64::MAX {
        OwnedValue::Integer(signed as i64)
    } else {
        let exponent = exponent_value(s) - (fraction_end(s) - fraction_start(s));
        OwnedValue::Float(
            binary64::assembled(is_negative(s), decimal::nearest_decimal(value, exponent)),
        )
    }
}

proof fn lemma_digits_end(s: Seq<char>, from: nat)
    requires
        from <= s.len(),
    ensures
        from <= digits_end(s, from) <= s.len(),
        numeral::all_digits(s.subrange(from as int, digits_end(s, from) as int)),
    decreases s.len() - from,
{
    if from < s.len() && numeral::is_digit(s[from as int]) {
        lemma_digits_end(s, from + 1);
        let shorter = s.subrange((from + 1) as int, digits_end(s, from) as int);
        let longer = s.subrange(from as int, digits_end(s, from) as int);
        assert forall|i: int| 0 <= i < longer.len() implies numeral::is_digit(
            #[trigger] longer[i],
        ) by {
            if i > 0 {
                assert(longer[i] == shorter[i - 1]);
            }
        }
    }
}

fn find_spaces_end(s: &Vec<char>) -> (end: usize)
    ensures
        end == spaces_end(s@, 0),
        end <= s@.len(),
{
    let mut i: usize = 0;
    while i < s.len() && (s[i] == ' ' || '\t' <= s[i] && s[i] <= '\r')
        invariant
            i <= s@.len(),
            spaces_end(s@, 0) == spaces_end(s@, i as nat),
        decreases s@.len() - i,
    {
        i = i + 1;
    }
    i
}

fn find_digits_end(s: &Vec<char>, from: usize) -> (end: usize)
    requires
        from <= s@.len(),
    ensures
        end == digits_end(s@, from as nat),
        from <= end <= s@.len(),
        numeral::all_digits(s@.subrange(from as int, end as int)),
{
    let mut i: usize = from;
    while i < s.len() && '0' <= s[i] && s[i] <= '9'
        invariant
            from <= i <= s@.len(),
            digits_end(s@, from as nat) == digits_end(s@, i as nat),
        decreases s@.len() - i,
    {
        i = i + 1;
    }
    proof {
        lemma_digits_end(s@, from as nat);
    }
    i
}

fn find_sign_end(s: &Vec<char>, at: usize) -> (end: usize)
    requires
        at <= s@.len(),
    ensures
        end == sign_end(s@, at as nat),
        at <= end <= s@.len(),
{
    if at < s.len() && (s[at] == '-' || s[at] == '+') {
        at + 1
    } else {
        at
    }
}

fn test_minus(s: &Vec<char>, at: usize) -> (result: bool)
    ensures
        result == is_minus(s@, at as nat),
{
    at < s.len() && s[at] == '-'
}

/// The characters of a text.
fn collect_chars(text: &str) -> (chars: Vec<char>)
    ensures
        chars@ == text@,
{
    let mut chars: Vec<char> = Vec::new();
    for c in iter: text.chars()
        invariant
            chars@ == iter.seq().take(iter.index() as int),
            iter.seq() == text@,
    {
        chars.push(c);
    }
    chars
}

/// Appends the characters from position `from` up to position `to`.
fn append_range(out: &mut Vec<char>, s: &Vec<char>, from: usize, to: usize)
    requires
        from <= to <= s@.len(),
    ensures
        final(out)@ == old(out)@ + s@.subrange(from as int, to as int),
{
    let ghost before = out@;
    let mut i: usize = from;
    assert(before + s@.subrange(from as int, from as int) =~= before);
    while i < to
        invariant
            from <= i <= to <= s@.len(),
            out@ == before + s@.subrange(from as int, i as int),
        decreases to - i,
    {
        out.push(s[i]);
        assert(before + s@.subrange(from as int, i + 1) =~= (before + s@.subrange(
            from as int,
            i as int,
        )).push(s@[i as int]));
        i = i + 1;
    }
}

/// An exponent of this size makes every number that is not zero infinite or zero.
const EXPONENT_LIMIT: i128 = 10_000_000_000_000_000_000_000_000_000;

/// The number that digits stand for, or the limit where it is larger.
fn limited_value(digits: &Vec<char>, limit: i128) -> (value: i128)
    requires
        numeral::all_digits(digits@),
        0 <= limit <= EXPONENT_LIMIT,
    ensures
        value == if numeral::numeral_value(digits@) < limit {
            numeral::numeral_value(digits@) as int
        } else {
            limit as int
        },
{
    let mut value: i128 = 0;
    let mut i: usize = 0;
    assert(digits@.take(0) =~= Seq::<char>::empty());
    while i < digits.len()
        invariant
            i <= digits@.len(),
            numeral::all_digits(digits@),
            0 <= limit <= EXPONENT_LIMIT,
            ({
                let exact = numeral::numeral_value(digits@.take(i as int));
                value == if exact < limit { exact as int } else { limit as int }
            }),
        decreases digits@.len() - i,
    {
        assert(numeral::is_digit(digits@[i as int]));
        proof {
            let longer = digits@.take(i + 1);
            assert(longer.drop_last() =~= digits@.take(i as int));
            assert(longer.last() == digits@[i as int]);
        }
        let next: i128 = value * 10 + (digits[i] as i128 - '0' as i128);
        value = if next < limit {
            next
        } else {
            limit
        };
        i = i + 1;
    }
    assert(digits@.take(i as int) =~= digits@);
    value
}

/// Beyond a certain size the exponent no longer matters.
proof fn lemma_far_exponent(value: nat, length: nat, first: int, second: int)
    requires
        value < power::pow10(length),
        length <= 0x2_0000_0000_0000_0000,
        first >= 1_000_000_000_000_000_000_000_000_000 && second
            >= 1_000_000_000_000_000_000_000_000_000 || first
            <= -1_000_000_000_000_000_000_000_000_000 && second
            <= -1_000_000_000_000_000_000_000_000_000,
    ensures
        decimal::nearest_decimal(value, first) == decimal::nearest_decimal(value, second),
{
    power::lemma_pow10_positive(if first < 0 { -first as nat } else { 0 });
    power::lemma_pow10_positive(if second < 0 { -second as nat } else { 0 });
    let target: nat = if value > 0 && first > 0 {
        INFINITE_MAGNITUDE as nat
    } else {
        0
    };
    if value == 0 {
        rounding::lemma_round_zero(decimal::decimal_denominator(first));
        rounding::lemma_round_zero(decimal::decimal_denominator(second));
        let p = power::pow10(if first < 0 { 0 } else { first as nat });
        let q = power::pow10(if second < 0 { 0 } else { second as nat });
        assert(0 * p == 0 && 0 * q == 0 && 0 * binary64::one_in_units() == 0);
    } else if first > 0 {
        let size = numeral::numeral(value).len();
        numeral::lemma_numeral_value(value);
        decimal::lemma_huge(value, first, size);
        decimal::lemma_huge(value, second, size);
    } else {
        decimal::lemma_tiny(value, first, length);
        decimal::lemma_tiny(value, second, length);
    }
    rounding::lemma_nearest_is(
        decimal::decimal_numerator(value, first),
        decimal::decimal_denominator(first),
        target,
    );
    rounding::lemma_nearest_is(
        decimal::decimal_numerator(value, second),
        decimal::decimal_denominator(second),
        target,
    );
}

/// The value of the exponent, or a value as far out where it is beyond the limit.
fn find_exponent(s: &Vec<char>, mark: usize) -> (result: (bool, i128))
    requires
        mark == fraction_end(s@),
        mark <= s@.len(),
    ensures
        result.0 == has_exponent(s@),
        -EXPONENT_LIMIT <= result.1 <= EXPONENT_LIMIT,
        result.1 == exponent_value(s@) || result.1 == EXPONENT_LIMIT && exponent_value(s@)
            >= EXPONENT_LIMIT || result.1 == -EXPONENT_LIMIT && exponent_value(s@)
            <= -EXPONENT_LIMIT,
{
    if mark < s.len() && (s[mark] == 'e' || s[mark] == 'E') {
        let start: usize = find_sign_end(s, mark + 1);
        let end: usize = find_digits_end(s, start);
        if end > start {
            let mut digits: Vec<char> = Vec::new();
            append_range(&mut digits, s, start, end);
            assert(digits@ =~= s@.subrange(start as int, end as int));
            let value: i128 = limited_value(&digits, EXPONENT_LIMIT);
            if test_minus(s, mark + 1) {
                return (true, -value);
            }
            return (true, value);
        }
    }
    (false, 0)
}

/// The value of a text as a number.
pub fn cast_text_to_numeric(text: &str) -> (result: OwnedValue)
    ensures
        result == numeric_value(text@),
{
    let s: Vec<char> = collect_chars(text);
    let start: usize = find_spaces_end(&s);
    let negative: bool = test_minus(&s, start);
    let whole_from: usize = find_sign_end(&s, start);
    let whole_to: usize = find_digits_end(&s, whole_from);
    let point: bool = whole_to < s.len() && s[whole_to] == '.';
    let fraction_from: usize = if point {
        whole_to + 1
    } else {
        whole_to
    };
    let fraction_to: usize = find_digits_end(&s, fraction_from);
    let mut digits: Vec<char> = Vec::new();
    append_range(&mut digits, &s, whole_from, whole_to);
    append_range(&mut digits, &s, fraction_from, fraction_to);
    assert(digits@ =~= significant_digits(s@));
    assert forall|i: int| 0 <= i < digits@.len() implies numeral::is_digit(
        #[trigger] digits@[i],
    ) by {
        let whole = s@.subrange(whole_from as int, whole_to as int);
        let fraction = s@.subrange(fraction_from as int, fraction_to as int);
        if i < whole.len() {
            assert(digits@[i] == whole[i]);
        } else {
            assert(digits@[i] == fraction[i - whole.len()]);
        }
    }
    if digits.len() == 0 {
        return OwnedValue::Integer(0);
    }
    let (marked, exponent) = find_exponent(&s, fraction_to);
    let ghost value = numeral::numeral_value(digits@);
    if !point && !marked {
        let absolute: i128 = limited_value(&digits, 0x1_0000_0000_0000_0000);
        let signed: i128 = if negative {
            -absolute
        } else {
            absolute
        };
        if i64::MIN as i128 <= signed && signed <= i64::MAX as i128 {
            return OwnedValue::Integer(signed as i64);
        }
    }
    let places: usize = fraction_to - fraction_from;
    let shifted: i128 = exponent - places as i128;
    let magnitude: u64 = decimal_magnitude(&digits, shifted);
    proof {
        let exact = exponent_value(s@) - places;
        numeral::lemma_numeral_bounds(digits@, 0);
        if exponent != exponent_value(s@) {
            lemma_far_exponent(value, digits@.len(), shifted as int, exact);
        }
    }
    OwnedValue::Float(Real::assemble(negative, magnitude))
}

} // verus!
