use crate::bignat::{BigNat, Comparison};
use crate::binary64;
use crate::binary64::{BINADE, INFINITE_MAGNITUDE};
use crate::decimal;
use crate::numeral;
use crate::power;
use crate::rounding;
use vstd::arithmetic::power2::*;
use vstd::prelude::*;

verus! {

/// `digits * 10^exponent`, counted in steps of `10^-places`.
pub open spec fn in_places(digits: nat, exponent: int, places: nat) -> nat {
    digits * power::pow10((exponent + places) as nat)
}

/// How far `digits * 10^exponent` is from the value of a magnitude, in steps that depend on
/// `places` alone.
pub open spec fn error_in_places(magnitude: nat, digits: nat, exponent: int, places: nat) -> nat {
    let decimal = in_places(digits, exponent, places) * binary64::one_in_units();
    let value = binary64::units(magnitude) * power::pow10(places);
    if decimal < value {
        (value - decimal) as nat
    } else {
        (decimal - value) as nat
    }
}

/// The first decimal is nearer to the magnitude than the second, or as near and not smaller.
pub open spec fn preferred_in_places(
    magnitude: nat,
    first: (nat, int),
    second: (nat, int),
    places: nat,
) -> bool {
    let first_error = error_in_places(magnitude, first.0, first.1, places);
    let second_error = error_in_places(magnitude, second.0, second.1, places);
    ||| first_error < second_error
    ||| first_error == second_error && in_places(first.0, first.1, places) >= in_places(
        second.0,
        second.1,
        places,
    )
}

/// Decimal places that suffice to write both exponents.
pub open spec fn common_places(first: int, second: int) -> nat {
    let lower = if first < second { first } else { second };
    if lower < 0 {
        -lower as nat
    } else {
        0
    }
}

/// `digits * 10^exponent` is the shortest decimal that reads back as the magnitude, and the one
/// nearest to it where several are as short.
pub open spec fn is_shortest(magnitude: nat, digits: nat, exponent: int) -> bool {
    &&& digits % 10 != 0
    &&& decimal::reads_as(digits, exponent, magnitude)
    &&& forall|d: nat, x: int|
        d > 0 && #[trigger] decimal::reads_as(d, x, magnitude) ==> {
            &&& numeral::numeral(digits).len() <= numeral::numeral(d).len()
            &&& numeral::numeral(digits).len() == numeral::numeral(d).len()
                ==> preferred_in_places(
                magnitude,
                (digits, exponent),
                (d, x),
                common_places(exponent, x),
            )
        }
}

/// Whether a decimal reads as a magnitude, at any sufficient number of places.
proof fn lemma_reads_in_places(digits: nat, exponent: int, places: nat, magnitude: nat)
    requires
        exponent + places >= 0,
    ensures
        decimal::reads_as(digits, exponent, magnitude) == rounding::rounds_to(
            in_places(digits, exponent, places) * binary64::one_in_units(),
            power::pow10(places),
            magnitude,
        ),
{
    let one = binary64::one_in_units();
    let numerator = decimal::decimal_numerator(digits, exponent);
    let denominator = decimal::decimal_denominator(exponent);
    let placed = in_places(digits, exponent, places);
    assert(power::pow10(0) == 1);
    let factor: nat = if exponent >= 0 {
        power::pow10(places)
    } else {
        power::pow10((exponent + places) as nat)
    };
    if exponent >= 0 {
        let raised = power::pow10(exponent as nat);
        power::lemma_pow10_adds(exponent as nat, places);
        power::lemma_pow10_positive(places);
        assert(placed * one == numerator * factor) by (nonlinear_arith)
            requires
                placed == digits * (raised * factor),
                numerator == (digits * raised) * one,
        ;
        assert(denominator * factor == factor) by (nonlinear_arith)
            requires
                denominator == 1,
        ;
    } else {
        power::lemma_pow10_adds(-exponent as nat, (exponent + places) as nat);
        power::lemma_pow10_positive((exponent + places) as nat);
        assert(placed * one == numerator * factor) by (nonlinear_arith)
            requires
                placed == digits * factor,
                numerator == (digits * 1) * one,
        ;
    }
    rounding::lemma_rounds_to_scale(numerator, denominator, factor, magnitude);
}

/// A decimal with a trailing zero is the same number one place up.
proof fn lemma_trailing_zeros(digits: nat, exponent: int, count: nat, magnitude: nat)
    ensures
        decimal::reads_as(digits * power::pow10(count), exponent, magnitude) == decimal::reads_as(
            digits,
            exponent + count,
            magnitude,
        ),
        forall|places: nat|
            exponent + places >= 0 ==> #[trigger] in_places(
                digits * power::pow10(count),
                exponent,
                places,
            ) == in_places(digits, exponent + count, places),
{
    let longer = digits * power::pow10(count);
    assert forall|places: nat| exponent + places >= 0 implies #[trigger] in_places(
        longer,
        exponent,
        places,
    ) == in_places(digits, exponent + count, places) by {
        let p = power::pow10((exponent + places) as nat);
        power::lemma_pow10_adds(count, (exponent + places) as nat);
        assert(longer * p == digits * (power::pow10(count) * p)) by (nonlinear_arith)
            requires
                longer == digits * power::pow10(count),
        ;
    }
    let places: nat = if exponent < 0 { -exponent as nat } else { 0 };
    lemma_reads_in_places(longer, exponent, places, magnitude);
    lemma_reads_in_places(digits, exponent + count, places, magnitude);
    assert(in_places(longer, exponent, places) == in_places(digits, exponent + count, places));
}

/// More places than needed change nothing in the preference.
proof fn lemma_preferred_places(
    magnitude: nat,
    first: (nat, int),
    second: (nat, int),
    places: nat,
    more: nat,
)
    requires
        first.1 + places >= 0,
        second.1 + places >= 0,
    ensures
        preferred_in_places(magnitude, first, second, places + more) == preferred_in_places(
            magnitude,
            first,
            second,
            places,
        ),
{
    let f = power::pow10(more);
    power::lemma_pow10_positive(more);
    lemma_error_places(magnitude, first.0, first.1, places, more);
    lemma_error_places(magnitude, second.0, second.1, places, more);
    let a = error_in_places(magnitude, first.0, first.1, places);
    let b = error_in_places(magnitude, second.0, second.1, places);
    let x = in_places(first.0, first.1, places);
    let y = in_places(second.0, second.1, places);
    assert((a < b) == (a * f < b * f) && (a == b) == (a * f == b * f)) by (nonlinear_arith)
        requires
            f > 0,
    ;
    assert((x >= y) == (x * f >= y * f)) by (nonlinear_arith)
        requires
            f > 0,
    ;
}

proof fn lemma_error_places(magnitude: nat, digits: nat, exponent: int, places: nat, more: nat)
    requires
        exponent + places >= 0,
    ensures
        in_places(digits, exponent, places + more) == in_places(digits, exponent, places)
            * power::pow10(more),
        error_in_places(magnitude, digits, exponent, places + more) == error_in_places(
            magnitude,
            digits,
            exponent,
            places,
        ) * power::pow10(more),
{
    let one = binary64::one_in_units();
    let f = power::pow10(more);
    let p = power::pow10((exponent + places) as nat);
    let u = binary64::units(magnitude);
    let placed = in_places(digits, exponent, places);
    power::lemma_pow10_adds((exponent + places) as nat, more);
    power::lemma_pow10_adds(places, more);
    power::lemma_pow10_positive(more);
    assert(digits * (p * f) == placed * f) by (nonlinear_arith)
        requires
            placed == digits * p,
    ;
    let decimal = placed * one;
    let value = u * power::pow10(places);
    assert((placed * f) * one == decimal * f) by (nonlinear_arith)
        requires
            decimal == placed * one,
    ;
    assert(u * (power::pow10(places) * f) == value * f) by (nonlinear_arith)
        requires
            value == u * power::pow10(places),
    ;
    assert((decimal < value) == (decimal * f < value * f)) by (nonlinear_arith)
        requires
            f > 0,
    ;
    assert(value * f - decimal * f == (value - decimal) * f) by (nonlinear_arith);
    assert(decimal * f - value * f == (decimal - value) * f) by (nonlinear_arith);
}

/// `magnitude` is worth `x / b * 10^point`.
spec fn is_ratio(magnitude: nat, x: nat, b: nat, point: int) -> bool {
    (binary64::units(magnitude) * b) * power::pow10(if point < 0 { -point as nat } else { 0 }) == (x
        * binary64::one_in_units()) * power::pow10(if point < 0 { 0 } else { point as nat })
}

/// `digits` are the first `count` decimal digits of the magnitude: it lies in the step of
/// `10^exponent` that begins with them.
spec fn is_prefix(magnitude: nat, digits: nat, exponent: int, places: nat) -> bool {
    let value = binary64::units(magnitude) * power::pow10(places);
    let one = binary64::one_in_units();
    in_places(digits, exponent, places) * one <= value < in_places(digits + 1, exponent, places)
        * one
}

/// Long division of `x * 10^count` by `b` gives the first digits of the magnitude.
proof fn lemma_prefix(
    magnitude: nat,
    x: nat,
    b: nat,
    point: int,
    count: nat,
    digits: nat,
    rest: nat,
    places: nat,
)
    requires
        b > 0,
        is_ratio(magnitude, x, b, point),
        x * power::pow10(count) == digits * b + rest,
        rest < b,
        point - count + places >= 0,
    ensures
        is_prefix(magnitude, digits, point - count, places),
        2 * rest >= b <==> error_in_places(magnitude, digits, point - count, places)
            >= error_in_places(magnitude, digits + 1, point - count, places),
{
    let one = binary64::one_in_units();
    let up: nat = if point < 0 { 0 } else { point as nat };
    let down: nat = if point < 0 { -point as nat } else { 0 };
    let u = binary64::units(magnitude);
    let exponent = point - count;
    let left = (up + places - count) as nat;
    let w = one * power::pow10(left);
    let factor = b * power::pow10(down);
    let value = u * power::pow10(places);
    let step = power::pow10((exponent + places) as nat);
    let low = in_places(digits, exponent, places) * one;
    let high = in_places(digits + 1, exponent, places) * one;
    lemma_pow2_pos(1074);
    power::lemma_pow10_positive(left);
    power::lemma_pow10_positive(down);
    power::lemma_pow10_adds((exponent + places) as nat, down);
    power::lemma_pow10_adds(up, places);
    power::lemma_pow10_adds(count, left);
    assert((exponent + places) as nat + down == left);
    assert(up + places == count + left);
    assert(value * factor == (digits * b + rest) * w) by {
        let pu = power::pow10(up);
        let pd = power::pow10(down);
        let pp = power::pow10(places);
        let pc = power::pow10(count);
        let pl = power::pow10(left);
        assert((u * pp) * (b * pd) == ((u * b) * pd) * pp) by (nonlinear_arith);
        assert(((x * one) * pu) * pp == (x * one) * (pu * pp)) by (nonlinear_arith);
        assert((x * one) * (pc * pl) == (x * pc) * (one * pl)) by (nonlinear_arith);
    }
    assert(low * factor == (digits * b) * w) by (nonlinear_arith)
        requires
            low == (digits * step) * one,
            factor == b * power::pow10(down),
            step * power::pow10(down) == power::pow10(left),
            w == one * power::pow10(left),
    ;
    assert(high * factor == (digits * b + b) * w) by (nonlinear_arith)
        requires
            high == ((digits + 1) * step) * one,
            factor == b * power::pow10(down),
            step * power::pow10(down) == power::pow10(left),
            w == one * power::pow10(left),
    ;
    assert(w > 0 && factor > 0) by (nonlinear_arith)
        requires
            w == one * power::pow10(left),
            one > 0,
            power::pow10(left) > 0,
            factor == b * power::pow10(down),
            b > 0,
            power::pow10(down) > 0,
    ;
    let base = digits * b;
    assert(base * w <= (base + rest) * w < (base + b) * w) by (nonlinear_arith)
        requires
            rest < b,
            w > 0,
    ;
    assert(low <= value < high) by (nonlinear_arith)
        requires
            low * factor <= value * factor,
            value * factor < high * factor,
            factor > 0,
    ;
    let below = value - low;
    let above = high - value;
    assert(below * factor == rest * w && above * factor == (b - rest) * w) by (nonlinear_arith)
        requires
            below == value - low,
            above == high - value,
            value * factor == (base + rest) * w,
            low * factor == base * w,
            high * factor == (base + b) * w,
    ;
    assert((below >= above) == (rest >= b - rest)) by (nonlinear_arith)
        requires
            below * factor == rest * w,
            above * factor == (b - rest) * w,
            factor > 0,
            w > 0,
    ;
}

/// A decimal of at most `count` digits that reads as the magnitude is not nearer to it than the
/// ends of the step that its first `count` digits begin.
proof fn lemma_candidates(
    magnitude: nat,
    digits: nat,
    exponent: int,
    count: nat,
    d: nat,
    x: int,
)
    requires
        magnitude <= INFINITE_MAGNITUDE,
        count > 0,
        power::pow10((count - 1) as nat) <= digits,
        d < power::pow10(count),
        is_prefix(magnitude, digits, exponent, common_places(exponent, x)),
        decimal::reads_as(d, x, magnitude),
    ensures
        ({
            let places = common_places(exponent, x);
            ||| in_places(d, x, places) <= in_places(digits, exponent, places)
                && decimal::reads_as(digits, exponent, magnitude)
            ||| in_places(d, x, places) >= in_places(digits + 1, exponent, places)
                && decimal::reads_as(digits + 1, exponent, magnitude)
        }),
{
    let places = common_places(exponent, x);
    let one = binary64::one_in_units();
    let denominator = power::pow10(places);
    let value = binary64::units(magnitude) * denominator;
    let step = power::pow10((exponent + places) as nat);
    let other = in_places(d, x, places);
    let low = in_places(digits, exponent, places);
    let high = in_places(digits + 1, exponent, places);
    lemma_pow2_pos(1074);
    power::lemma_pow10_positive(places);
    power::lemma_pow10_positive((exponent + places) as nat);
    lemma_reads_in_places(d, x, places, magnitude);
    lemma_reads_in_places(digits, exponent, places, magnitude);
    lemma_reads_in_places(digits + 1, exponent, places, magnitude);
    rounding::lemma_rounds_to_self(denominator, magnitude);
    assert(other <= low || other >= high) by {
        if x >= exponent {
            let q = d * power::pow10((x - exponent) as nat);
            power::lemma_pow10_adds((x - exponent) as nat, (exponent + places) as nat);
            assert(other == q * step) by (nonlinear_arith)
                requires
                    other == d * (power::pow10((x - exponent) as nat) * step),
                    q == d * power::pow10((x - exponent) as nat),
            ;
            assert(q <= digits ==> q * step <= digits * step) by (nonlinear_arith);
            assert(q >= digits + 1 ==> q * step >= (digits + 1) * step) by (nonlinear_arith);
        } else {
            let p = power::pow10((x + places) as nat);
            power::lemma_pow10_adds(count, (x + places) as nat);
            power::lemma_pow10_adds((count - 1) as nat, (exponent + places) as nat);
            power::lemma_pow10_increases(
                (count + x + places) as nat,
                (count - 1 + exponent + places) as nat,
            );
            assert(d * p <= power::pow10(count) * p) by (nonlinear_arith)
                requires
                    d < power::pow10(count),
            ;
            assert(power::pow10((count - 1) as nat) * step <= digits * step) by (nonlinear_arith)
                requires
                    power::pow10((count - 1) as nat) <= digits,
            ;
        }
    }
    if other <= low {
        assert(other * one <= low * one) by (nonlinear_arith)
            requires
                other <= low,
        ;
        rounding::lemma_rounds_to_between(other * one, low * one, value, denominator, magnitude);
    } else {
        assert(high * one <= other * one) by (nonlinear_arith)
            requires
                high <= other,
        ;
        rounding::lemma_rounds_to_between(value, high * one, other * one, denominator, magnitude);
    }
}

/// One end of the step that begins with the first seventeen digits reads as the magnitude.
proof fn lemma_seventeen(magnitude: nat, digits: nat, exponent: int, places: nat)
    requires
        0 < magnitude < INFINITE_MAGNITUDE,
        exponent + places >= 0,
        digits >= 10_000_000_000_000_000,
        is_prefix(magnitude, digits, exponent, places),
    ensures
        decimal::reads_as(digits, exponent, magnitude) || decimal::reads_as(
            digits + 1,
            exponent,
            magnitude,
        ),
{
    let one = binary64::one_in_units();
    let denominator = power::pow10(places);
    let e = binary64::exponent_of(magnitude);
    let m = binary64::significand_of(magnitude);
    let u = binary64::units(magnitude);
    let value = u * denominator;
    let step = power::pow10((exponent + places) as nat) * one;
    let low = in_places(digits, exponent, places) * one;
    let high = in_places(digits + 1, exponent, places) * one;
    let last = pow2(e) * denominator;
    power::lemma_pow10_positive(places);
    binary64::lemma_decode(magnitude);
    lemma_pow2_pos(e);
    lemma_reads_in_places(digits, exponent, places, magnitude);
    lemma_reads_in_places(digits + 1, exponent, places, magnitude);
    let raised = power::pow10((exponent + places) as nat);
    assert(low == digits * step && high == low + step) by (nonlinear_arith)
        requires
            low == (digits * raised) * one,
            high == ((digits + 1) * raised) * one,
            step == raised * one,
    ;
    assert(10_000_000_000_000_000 * step <= low) by (nonlinear_arith)
        requires
            low == digits * step,
            digits >= 10_000_000_000_000_000,
    ;
    assert(value == m * last) by (nonlinear_arith)
        requires
            value == (m * pow2(e)) * denominator,
            last == pow2(e) * denominator,
    ;
    assert(last > 0) by (nonlinear_arith)
        requires
            last == pow2(e) * denominator,
            pow2(e) > 0,
            denominator > 0,
    ;
    // The step is below nine tenths of the gap to the next magnitude.
    assert(m * last < 0x20_0000_0000_0000 * last) by (nonlinear_arith)
        requires
            m < 0x20_0000_0000_0000,
            last > 0,
    ;
    assert(10 * step < 10 * last);
    let after = binary64::units(magnitude + 1);
    assert((u + after) * denominator == 2 * value + last) by (nonlinear_arith)
        requires
            u == m * pow2(e),
            after == (m + 1) * pow2(e),
            value == u * denominator,
            last == pow2(e) * denominator,
    ;
    let before = binary64::units((magnitude - 1) as nat);
    let half = 2 * value - (before + u) * denominator;
    if m > BINADE || e == 0 {
        assert(magnitude - 1 == e * BINADE + (m - 1));
        binary64::lemma_encode(e, (m - 1) as nat);
        assert(half == last) by (nonlinear_arith)
            requires
                half == 2 * value - (before + u) * denominator,
                before == (m - 1) * pow2(e),
                u == m * pow2(e),
                value == u * denominator,
                last == pow2(e) * denominator,
        ;
    } else {
        assert(magnitude - 1 == (e - 1) * BINADE + (2 * BINADE - 1));
        binary64::lemma_encode((e - 1) as nat, (2 * BINADE - 1) as nat);
        lemma_pow2_unfold(e);
        let q = pow2((e - 1) as nat);
        assert(2 * half == last) by (nonlinear_arith)
            requires
                half == 2 * value - (before + u) * denominator,
                before == (2 * BINADE - 1) * q,
                u == BINADE * pow2(e),
                pow2(e) == 2 * q,
                value == u * denominator,
                last == pow2(e) * denominator,
        ;
        assert(value == BINADE * last);
    }
    rounding::lemma_rounds_to_self(denominator, magnitude);
    if high - value <= value - low {
        rounding::lemma_rounds_to_self(denominator, magnitude);
        assert(2 * high < (u + after) * denominator);
        assert(rounding::rounds_to(high, denominator, magnitude));
    } else {
        assert(2 * low > (before + u) * denominator);
        assert(rounding::rounds_to(low, denominator, magnitude));
    }
}

/// Compares twice a decimal with a number of steps of `2^e` units.
fn compare_decimal(digits: u64, exponent: i32, steps: u64, e: u32) -> (result: Comparison)
    requires
        -10000 <= exponent <= 10000,
    ensures
        ({
            let twice = 2 * decimal::decimal_numerator(digits as nat, exponent as int);
            let bound = (steps * pow2(e as nat)) * decimal::decimal_denominator(exponent as int);
            result == if twice < bound {
                Comparison::Less
            } else if twice == bound {
                Comparison::Equal
            } else {
                Comparison::Greater
            }
        }),
{
    let mut left: BigNat = BigNat::from_u64(digits);
    let mut right: BigNat = BigNat::from_u64(steps);
    left.multiply_pow2(1075);
    right.multiply_pow2(e);
    if exponent < 0 {
        right.multiply_pow10((-exponent) as u128);
    } else {
        left.multiply_pow10(exponent as u128);
    }
    proof {
        let one = binary64::one_in_units();
        let raised = power::pow10(if exponent < 0 { 0 } else { exponent as nat });
        lemma_pow2_unfold(1075);
        assert(power::pow10(0) == 1);
        assert((digits * (2 * one)) * raised == 2 * ((digits * raised) * one)) by (nonlinear_arith);
        if exponent < 0 {
            assert(left.value() * 1 == left.value());
        } else {
            assert(right.value() * 1 == right.value());
        }
    }
    left.compare(&right)
}

/// Whether `digits * 10^exponent` rounds to a magnitude that is neither zero nor infinite.
fn check_reads_as(digits: u64, exponent: i32, magnitude: u64) -> (result: bool)
    requires
        0 < magnitude < INFINITE_MAGNITUDE,
        -10000 <= exponent <= 10000,
    ensures
        result == decimal::reads_as(digits as nat, exponent as int, magnitude as nat),
{
    let (m, e) = binary64::decode(magnitude);
    let even: bool = magnitude % 2 == 0;
    let ghost u = binary64::units(magnitude as nat);
    let ghost p = pow2(e as nat);
    let ghost before = binary64::units((magnitude - 1) as nat);
    let ghost after = binary64::units((magnitude + 1) as nat);
    proof {
        binary64::lemma_decode(magnitude as nat);
    }
    let upper: Comparison = compare_decimal(digits, exponent, 2 * m + 1, e);
    proof {
        assert(u + after == (2 * m + 1) * p) by (nonlinear_arith)
            requires
                u == m * p,
                after == (m + 1) * p,
        ;
    }
    if upper == Comparison::Greater || upper == Comparison::Equal && !even {
        return false;
    }
    let lower: Comparison = if m > BINADE || e == 0 {
        proof {
            assert(magnitude - 1 == e * BINADE + (m - 1));
            binary64::lemma_encode(e as nat, (m - 1) as nat);
            assert(before + u == (2 * m - 1) * p) by (nonlinear_arith)
                requires
                    u == m * p,
                    before == (m - 1) * p,
            ;
        }
        compare_decimal(digits, exponent, 2 * m - 1, e)
    } else {
        proof {
            assert(magnitude - 1 == (e - 1) * BINADE + (2 * BINADE - 1));
            binary64::lemma_encode((e - 1) as nat, (2 * BINADE - 1) as nat);
            lemma_pow2_unfold(e as nat);
            let q = pow2((e - 1) as nat);
            assert(before + u == (4 * BINADE - 1) * q) by (nonlinear_arith)
                requires
                    u == BINADE * p,
                    p == 2 * q,
                    before == (2 * BINADE - 1) * q,
            ;
        }
        compare_decimal(digits, exponent, 4 * BINADE - 1, e - 1)
    };
    lower == Comparison::Greater || lower == Comparison::Equal && even
}

/// A magnitude as a quotient of two numbers.
fn magnitude_ratio(magnitude: u64) -> (ratio: (BigNat, BigNat))
    requires
        0 < magnitude < INFINITE_MAGNITUDE,
    ensures
        ratio.0.value() > 0,
        ratio.1.value() > 0,
        is_ratio(magnitude as nat, ratio.0.value(), ratio.1.value(), 0),
{
    let (m, e) = binary64::decode(magnitude);
    let mut top: BigNat = BigNat::from_u64(m);
    let mut bottom: BigNat = BigNat::from_u64(1);
    let ghost one = binary64::one_in_units();
    let ghost u = binary64::units(magnitude as nat);
    proof {
        binary64::lemma_decode(magnitude as nat);
        assert(power::pow10(0) == 1);
        assert(m > 0);
    }
    if e >= 1074 {
        let shift: u32 = e - 1074;
        top.multiply_pow2(shift);
        proof {
            let p = pow2(shift as nat);
            lemma_pow2_pos(shift as nat);
            lemma_pow2_adds(shift as nat, 1074);
            assert((u * 1) * 1 == ((m * p) * one) * 1) by (nonlinear_arith)
                requires
                    u == m * (p * one),
            ;
            assert(m * p > 0) by (nonlinear_arith)
                requires
                    m > 0,
                    p > 0,
            ;
        }
    } else {
        let shift: u32 = 1074 - e;
        bottom.multiply_pow2(shift);
        proof {
            let p = pow2(shift as nat);
            lemma_pow2_pos(shift as nat);
            lemma_pow2_adds(e as nat, shift as nat);
            assert((u * (1 * p)) * 1 == (m * one) * 1) by (nonlinear_arith)
                requires
                    u == m * pow2(e as nat),
                    one == pow2(e as nat) * p,
            ;
        }
    }
    (top, bottom)
}

/// The position of the first decimal digit of a magnitude cannot be far out.
proof fn lemma_point_bound(magnitude: nat, x: nat, b: nat, point: int)
    requires
        0 < magnitude < INFINITE_MAGNITUDE,
        x > 0,
        b > 0,
        is_ratio(magnitude, x, b, point),
    ensures
        point >= 0 && x >= b ==> point < 350,
        point <= 0 && 10 * x < b ==> point > -370,
{
    let one = binary64::one_in_units();
    let u = binary64::units(magnitude);
    assert(power::pow10(0) == 1);
    lemma_pow2_pos(1074);
    binary64::lemma_units_increase(0, magnitude);
    if point >= 0 && x >= b && point >= 350 {
        let p = power::pow10(point as nat);
        power::lemma_pow10_increases(350, point as nat);
        power::lemma_pow10_above_pow2(350);
        lemma_pow2_strictly_increases(1024, 1050);
        binary64::lemma_units_increase(magnitude, INFINITE_MAGNITUDE as nat);
        assert(INFINITE_MAGNITUDE as nat == 2046 * (BINADE as nat) + BINADE);
        binary64::lemma_encode(2046, BINADE as nat);
        lemma2_to64_rest();
        lemma_pow2_adds(52, 2046);
        lemma_pow2_adds(1024, 1074);
        assert(u >= one * p) by (nonlinear_arith)
            requires
                (u * b) * 1 == (x * one) * p,
                x >= b,
                b > 0,
        ;
        assert(one * p >= one * pow2(1024)) by (nonlinear_arith)
            requires
                p >= pow2(1024),
        ;
        assert(false);
    }
    if point <= 0 && 10 * x < b && point <= -370 {
        let p = power::pow10(-point as nat);
        power::lemma_pow10_increases(370, -point as nat);
        power::lemma_pow10_above_pow2(370);
        lemma_pow2_strictly_increases(1074, 1110);
        assert(p < one) by (nonlinear_arith)
            requires
                (u * b) * p == (x * one) * 1,
                10 * x < b,
                u >= 1,
                b > 0,
                one > 0,
        ;
        assert(false);
    }
}

/// Moving the decimal point by one.
proof fn lemma_move_point(magnitude: nat, x: nat, b: nat, point: int)
    requires
        is_ratio(magnitude, x, b, point),
    ensures
        point >= 0 ==> is_ratio(magnitude, x, b * 10, point + 1),
        point <= 0 ==> is_ratio(magnitude, x * 10, b, point - 1),
{
    let one = binary64::one_in_units();
    let u = binary64::units(magnitude);
    assert(power::pow10(0) == 1);
    if point >= 0 {
        let p = power::pow10(point as nat);
        assert(power::pow10((point + 1) as nat) == 10 * p);
        assert((u * (b * 10)) * 1 == (x * one) * (10 * p)) by (nonlinear_arith)
            requires
                (u * b) * 1 == (x * one) * p,
        ;
    }
    if point <= 0 {
        let p = power::pow10(-point as nat);
        assert(power::pow10(-(point - 1) as nat) == 10 * p);
        assert((u * b) * (10 * p) == ((x * 10) * one) * 1) by (nonlinear_arith)
            requires
                (u * b) * p == (x * one) * 1,
        ;
    }
}

/// No decimal of at most `count` digits reads as the magnitude.
spec fn none_within(magnitude: nat, count: nat) -> bool {
    forall|d: nat, x: int|
        d > 0 && numeral::numeral(d).len() <= count ==> !#[trigger] decimal::reads_as(
            d,
            x,
            magnitude,
        )
}

/// At every sufficient number of places, `digits` begin the step that the magnitude lies in.
spec fn is_prefix_everywhere(magnitude: nat, digits: nat, exponent: int) -> bool {
    forall|places: nat|
        exponent + places >= 0 ==> #[trigger] is_prefix(magnitude, digits, exponent, places)
}

/// The upper end of the step is at least as near as the lower one.
spec fn upper_is_near(magnitude: nat, digits: nat, exponent: int, places: nat) -> bool {
    error_in_places(magnitude, digits, exponent, places) >= error_in_places(
        magnitude,
        digits + 1,
        exponent,
        places,
    )
}

proof fn lemma_length_bound(d: nat, count: nat)
    requires
        d > 0,
    ensures
        numeral::numeral(d).len() <= count <==> d < power::pow10(count),
{
    let length = numeral::numeral(d).len();
    numeral::lemma_numeral_value(d);
    if length <= count {
        power::lemma_pow10_increases(length, count);
    } else {
        power::lemma_pow10_increases(count, (length - 1) as nat);
    }
}

/// Where neither end of the step reads as the magnitude, no decimal as short does.
proof fn lemma_none_within(magnitude: nat, digits: nat, exponent: int, count: nat)
    requires
        magnitude <= INFINITE_MAGNITUDE,
        count > 0,
        power::pow10((count - 1) as nat) <= digits,
        is_prefix_everywhere(magnitude, digits, exponent),
        !decimal::reads_as(digits, exponent, magnitude),
        !decimal::reads_as(digits + 1, exponent, magnitude),
    ensures
        none_within(magnitude, count),
{
    assert forall|d: nat, x: int|
        d > 0 && numeral::numeral(d).len() <= count implies !#[trigger] decimal::reads_as(
        d,
        x,
        magnitude,
    ) by {
        lemma_length_bound(d, count);
        if decimal::reads_as(d, x, magnitude) {
            assert(is_prefix(magnitude, digits, exponent, common_places(exponent, x)));
            lemma_candidates(magnitude, digits, exponent, count, d, x);
        }
    }
}

/// The chosen end of the step is preferred to every decimal as short.
proof fn lemma_choice_preferred(
    magnitude: nat,
    digits: nat,
    exponent: int,
    count: nat,
    chosen: nat,
    near: bool,
    d: nat,
    x: int,
)
    requires
        magnitude <= INFINITE_MAGNITUDE,
        count > 0,
        power::pow10((count - 1) as nat) <= digits,
        d < power::pow10(count),
        is_prefix(magnitude, digits, exponent, common_places(exponent, x)),
        near == upper_is_near(magnitude, digits, exponent, common_places(exponent, x)),
        decimal::reads_as(d, x, magnitude),
        ({
            let low = decimal::reads_as(digits, exponent, magnitude);
            let high = decimal::reads_as(digits + 1, exponent, magnitude);
            chosen == if high && (!low || near) { digits + 1 } else { digits }
        }),
    ensures
        preferred_in_places(magnitude, (chosen, exponent), (d, x), common_places(exponent, x)),
{
    let places = common_places(exponent, x);
    let one = binary64::one_in_units();
    let other = in_places(d, x, places);
    let low = in_places(digits, exponent, places);
    let high = in_places(digits + 1, exponent, places);
    let step = power::pow10((exponent + places) as nat);
    lemma_pow2_pos(1074);
    lemma_candidates(magnitude, digits, exponent, count, d, x);
    assert(low <= high) by (nonlinear_arith)
        requires
            low == digits * step,
            high == (digits + 1) * step,
    ;
    assert(other < low ==> other * one < low * one) by (nonlinear_arith)
        requires
            one > 0,
    ;
    assert(other > high ==> other * one > high * one) by (nonlinear_arith)
        requires
            one > 0,
    ;
}

/// The chosen end of the step, without a trailing zero, is the shortest decimal.
proof fn lemma_choice_shortest(
    magnitude: nat,
    digits: nat,
    exponent: int,
    count: nat,
    chosen: nat,
    near: bool,
)
    requires
        magnitude <= INFINITE_MAGNITUDE,
        count > 0,
        power::pow10((count - 1) as nat) <= digits < power::pow10(count),
        is_prefix_everywhere(magnitude, digits, exponent),
        forall|places: nat|
            exponent + places >= 0 ==> near == #[trigger] upper_is_near(
                magnitude,
                digits,
                exponent,
                places,
            ),
        none_within(magnitude, (count - 1) as nat),
        decimal::reads_as(chosen, exponent, magnitude),
        ({
            let low = decimal::reads_as(digits, exponent, magnitude);
            let high = decimal::reads_as(digits + 1, exponent, magnitude);
            chosen == if high && (!low || near) { digits + 1 } else { digits }
        }),
    ensures
        count == 1 && chosen == 10 ==> is_shortest(magnitude, 1, exponent + 1),
        !(count == 1 && chosen == 10) ==> is_shortest(magnitude, chosen, exponent),
{
    power::lemma_pow10_positive((count - 1) as nat);
    assert(power::pow10(0) == 1);
    assert(power::pow10(1) == 10) by {
        reveal_with_fuel(power::pow10, 2);
    }
    let carried = count == 1 && chosen == 10;
    if carried {
        lemma_trailing_zeros(1, exponent, 1, magnitude);
    } else {
        if chosen == power::pow10(count) {
            lemma_trailing_zeros(1, exponent, count, magnitude);
            assert(decimal::reads_as(1, exponent + count, magnitude));
            lemma_length_bound(1, (count - 1) as nat);
            power::lemma_pow10_increases(1, (count - 1) as nat);
            assert(false);
        }
        if chosen % 10 == 0 {
            let shorter = chosen / 10;
            lemma_trailing_zeros(shorter, exponent, 1, magnitude);
            assert(decimal::reads_as(shorter, exponent + 1, magnitude));
            lemma_length_bound(shorter, (count - 1) as nat);
            assert(power::pow10(count) == 10 * power::pow10((count - 1) as nat));
            assert(false);
        }
    }
    let result: (nat, int) = if carried {
        (1, exponent + 1)
    } else {
        (chosen, exponent)
    };
    lemma_length_bound(result.0, count);
    assert forall|d: nat, x: int|
        d > 0 && #[trigger] decimal::reads_as(d, x, magnitude) implies numeral::numeral(
        result.0,
    ).len() <= numeral::numeral(d).len() && (numeral::numeral(result.0).len() == numeral::numeral(
        d,
    ).len() ==> preferred_in_places(magnitude, result, (d, x), common_places(result.1, x))) by {
        assert(numeral::numeral(d).len() > count - 1);
        if numeral::numeral(result.0).len() == numeral::numeral(d).len() {
            let places = common_places(exponent, x);
            lemma_length_bound(d, count);
            assert(is_prefix(magnitude, digits, exponent, places));
            assert(near == upper_is_near(magnitude, digits, exponent, places));
            lemma_choice_preferred(magnitude, digits, exponent, count, chosen, near, d, x);
            if carried {
                let fewer = common_places(exponent + 1, x);
                assert(in_places(1 * power::pow10(1), exponent, places) == in_places(
                    1,
                    exponent + 1,
                    places,
                ));
                assert(preferred_in_places(magnitude, result, (d, x), places));
                lemma_preferred_places(magnitude, result, (d, x), fewer, (places - fewer) as nat);
            }
        }
    }
}

/// There is only one shortest decimal.
pub proof fn lemma_shortest_unique(magnitude: nat, first: (nat, int), second: (nat, int))
    requires
        is_shortest(magnitude, first.0, first.1),
        is_shortest(magnitude, second.0, second.1),
    ensures
        first == second,
{
    let (d, x) = first;
    let (e, y) = second;
    let places = common_places(x, y);
    assert(decimal::reads_as(d, x, magnitude) && decimal::reads_as(e, y, magnitude));
    assert(in_places(d, x, places) == in_places(e, y, places));
    if x <= y {
        lemma_same_decimal(d, x, e, y, places);
    } else {
        lemma_same_decimal(e, y, d, x, places);
    }
}

proof fn lemma_same_decimal(d: nat, x: int, e: nat, y: int, places: nat)
    requires
        x <= y,
        x + places >= 0,
        d % 10 != 0,
        in_places(d, x, places) == in_places(e, y, places),
    ensures
        d == e,
        x == y,
{
    let p = power::pow10((x + places) as nat);
    let gap = (y - x) as nat;
    let q = power::pow10(gap);
    power::lemma_pow10_positive((x + places) as nat);
    power::lemma_pow10_adds(gap, (x + places) as nat);
    assert(d == e * q) by (nonlinear_arith)
        requires
            d * p == e * (q * p),
            p > 0,
    ;
    if gap > 0 {
        let r = power::pow10((gap - 1) as nat);
        assert(d == 10 * (e * r)) by (nonlinear_arith)
            requires
                d == e * q,
                q == 10 * r,
        ;
    } else {
        assert(e * 1 == e);
    }
}

/// The shortest decimal that reads back as a magnitude that is neither zero nor infinite.
pub fn shortest_decimal(magnitude: u64) -> (result: (u64, i32))
    requires
        0 < magnitude < INFINITE_MAGNITUDE,
    ensures
        is_shortest(magnitude as nat, result.0 as nat, result.1 as int),
        -400 <= result.1 <= 400,
        result.0 > 0,
{
    let (top, bottom) = magnitude_ratio(magnitude);
    let mut x: BigNat = top;
    let mut b: BigNat = bottom;
    // The position of the decimal point, counted from before the first digit.
    let mut point: i32 = 0;
    while x.compare(&b) != Comparison::Less
        invariant
            0 < magnitude < INFINITE_MAGNITUDE,
            0 <= point <= 350,
            x.value() > 0,
            b.value() > 0,
            is_ratio(magnitude as nat, x.value(), b.value(), point as int),
            point > 0 ==> 10 * x.value() >= b.value(),
        decreases 350 - point,
    {
        proof {
            lemma_point_bound(magnitude as nat, x.value(), b.value(), point as int);
            lemma_move_point(magnitude as nat, x.value(), b.value(), point as int);
        }
        b.multiply_add(10, 0);
        point = point + 1;
    }
    let mut tenfold: BigNat = x.copy();
    tenfold.multiply_add(10, 0);
    while tenfold.compare(&b) == Comparison::Less
        invariant
            0 < magnitude < INFINITE_MAGNITUDE,
            -370 <= point <= 350,
            x.value() > 0,
            x.value() < b.value(),
            tenfold.value() == 10 * x.value(),
            is_ratio(magnitude as nat, x.value(), b.value(), point as int),
            point > 0 ==> 10 * x.value() >= b.value(),
        decreases point + 370,
    {
        proof {
            lemma_point_bound(magnitude as nat, x.value(), b.value(), point as int);
            lemma_move_point(magnitude as nat, x.value(), b.value(), point as int);
        }
        x.multiply_add(10, 0);
        tenfold.multiply_add(10, 0);
        point = point - 1;
    }
    let ghost start = x.value();
    let mut count: u32 = 0;
    let mut digits: u64 = 0;
    let mut rest: BigNat = x;
    proof {
        assert(power::pow10(0) == 1);
        assert(start * 1 == start);
        assert(0 * b.value() == 0);
        assert forall|d: nat, x: int|
            d > 0 && numeral::numeral(d).len() <= 0 implies !#[trigger] decimal::reads_as(
            d,
            x,
            magnitude as nat,
        ) by {
            numeral::lemma_numeral_value(d);
        }
    }
    loop
        invariant
            0 < magnitude < INFINITE_MAGNITUDE,
            -370 <= point <= 350,
            start < b.value(),
            10 * start >= b.value(),
            is_ratio(magnitude as nat, start, b.value(), point as int),
            start * power::pow10(count as nat) == digits * b.value() + rest.value(),
            rest.value() < b.value(),
            digits < power::pow10(count as nat),
            none_within(magnitude as nat, count as nat),
            count < 17,
        decreases 17 - count,
    {
        let ghost wide = b.value();
        let ghost before = rest.value();
        let ghost p = power::pow10(count as nat);
        rest.multiply_add(10, 0);
        let mut digit: u64 = 0;
        while rest.compare(&b) != Comparison::Less
            invariant
                wide == b.value(),
                wide > 0,
                before < wide,
                digit <= 9,
                digit * wide + rest.value() == 10 * before,
            decreases rest.value(),
        {
            proof {
                if digit == 9 {
                    assert(false);
                }
                assert((digit + 1) * wide == digit * wide + wide) by (nonlinear_arith);
            }
            rest.subtract(&b);
            digit = digit + 1;
        }
        proof {
            power::lemma_pow10_increases(count as nat, 16);
            assert(power::pow10(16) == 10_000_000_000_000_000) by {
                reveal_with_fuel(power::pow10, 17);
            }
        }
        let ghost shorter = digits;
        digits = 10 * digits + digit;
        count = count + 1;
        let exponent: i32 = point - count as i32;
        proof {
            let m = magnitude as nat;
            assert(start * (10 * p) == digits * wide + rest.value()) by (nonlinear_arith)
                requires
                    start * p == shorter * wide + before,
                    digit * wide + rest.value() == 10 * before,
                    digits == 10 * shorter + digit,
            ;
            assert(p <= digits) by (nonlinear_arith)
                requires
                    start * (10 * p) == digits * wide + rest.value(),
                    10 * start >= wide,
                    rest.value() < wide,
                    wide > 0,
            ;
            assert forall|places: nat| exponent + places >= 0 implies #[trigger] is_prefix(
                m,
                digits as nat,
                exponent as int,
                places,
            ) by {
                lemma_prefix(
                    m,
                    start,
                    wide,
                    point as int,
                    count as nat,
                    digits as nat,
                    rest.value(),
                    places,
                );
            }
        }
        let low: bool = check_reads_as(digits, exponent, magnitude);
        let high: bool = check_reads_as(digits + 1, exponent, magnitude);
        if low || high {
            let mut twice: BigNat = rest.copy();
            twice.multiply_add(2, 0);
            let near: bool = twice.compare(&b) != Comparison::Less;
            let chosen: u64 = if high && (!low || near) {
                digits + 1
            } else {
                digits
            };
            proof {
                let m = magnitude as nat;
                assert forall|places: nat| exponent + places >= 0 implies near
                    == #[trigger] upper_is_near(m, digits as nat, exponent as int, places) by {
                    lemma_prefix(
                        m,
                        start,
                        wide,
                        point as int,
                        count as nat,
                        digits as nat,
                        rest.value(),
                        places,
                    );
                }
                lemma_choice_shortest(
                    m,
                    digits as nat,
                    exponent as int,
                    count as nat,
                    chosen as nat,
                    near,
                );
            }
            return if count == 1 && chosen == 10 {
                (1, exponent + 1)
            } else {
                (chosen, exponent)
            };
        }
        proof {
            let m = magnitude as nat;
            if count == 17 {
                let places = common_places(exponent as int, 0);
                assert(is_prefix(m, digits as nat, exponent as int, places));
                lemma_seventeen(m, digits as nat, exponent as int, places);
            }
            lemma_none_within(m, digits as nat, exponent as int, count as nat);
        }
    }
}

} // verus!
