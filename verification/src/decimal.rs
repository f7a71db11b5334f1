use crate::bignat::{BigNat, Comparison};
use crate::binary64;
use crate::binary64::{BINADE, INFINITE_MAGNITUDE};
use crate::numeral;
use crate::power;
use crate::rounding;
use crate::rounding::round_scaled;
use vstd::arithmetic::power2::*;
use vstd::prelude::*;

verus! {

/// `digits * 10^exponent`, counted in units, as a quotient.
pub open spec fn decimal_numerator(digits: nat, exponent: int) -> nat {
    (digits * power::pow10(if exponent < 0 { 0 } else { exponent as nat }))
        * binary64::one_in_units()
}

pub open spec fn decimal_denominator(exponent: int) -> nat {
    power::pow10(if exponent < 0 { -exponent as nat } else { 0 })
}

/// `digits * 10^exponent` rounds to `magnitude`.
pub open spec fn reads_as(digits: nat, exponent: int, magnitude: nat) -> bool {
    rounding::rounds_to(
        decimal_numerator(digits, exponent),
        decimal_denominator(exponent),
        magnitude,
    )
}

/// The magnitude nearest to `digits * 10^exponent`.
pub open spec fn nearest_decimal(digits: nat, exponent: int) -> nat {
    rounding::nearest(decimal_numerator(digits, exponent), decimal_denominator(exponent))
}

/// What long division of two scaled numbers says of the quotient of the numbers themselves.
proof fn lemma_ratio(a: nat, b: nat, t: nat, s: nat, n: nat, scale: int, inexact: bool)
    requires
        a > 0,
        b > 0,
        scale == 1074 - t + s,
        n * (b * pow2(s)) <= a * pow2(t) < (n + 1) * (b * pow2(s)),
        inexact <==> n * (b * pow2(s)) != a * pow2(t),
    ensures
        rounding::brackets(a * binary64::one_in_units(), b, n, scale, inexact),
{
    let up: nat = if scale < 0 { -scale as nat } else { 0 };
    let down: nat = if scale < 0 { 0 } else { scale as nat };
    let one = binary64::one_in_units();
    let scaled = (a * one) * pow2(up);
    let step = b * pow2(down);
    let lift = pow2(1074 + up);
    let pt = pow2(t);
    let ps = pow2(s);
    lemma_pow2_pos(t);
    lemma_pow2_pos(1074 + up);
    lemma_pow2_adds(1074, up);
    lemma_pow2_adds(s, 1074 + up);
    lemma_pow2_adds(down, t);
    assert(s + (1074 + up) == down + t);
    assert(ps * lift == pow2(down) * pt);
    assert(scaled * pt == (a * pt) * lift) by (nonlinear_arith)
        requires
            scaled == (a * one) * pow2(up),
            lift == one * pow2(up),
    ;
    assert((n * step) * pt == (n * (b * ps)) * lift) by (nonlinear_arith)
        requires
            step == b * pow2(down),
            ps * lift == pow2(down) * pt,
    ;
    assert(((n + 1) * step) * pt == ((n + 1) * (b * ps)) * lift) by (nonlinear_arith)
        requires
            step == b * pow2(down),
            ps * lift == pow2(down) * pt,
    ;
    let low = n * (b * ps);
    let high = (n + 1) * (b * ps);
    let middle = a * pt;
    assert(low * lift <= middle * lift < high * lift) by (nonlinear_arith)
        requires
            low <= middle < high,
            lift > 0,
    ;
    assert(low != middle ==> low * lift != middle * lift) by (nonlinear_arith)
        requires
            low <= middle,
            lift > 0,
    ;
    let x = n * step;
    let y = (n + 1) * step;
    assert(x <= scaled && scaled < y) by (nonlinear_arith)
        requires
            x * pt <= scaled * pt,
            scaled * pt < y * pt,
            pt > 0,
    ;
    assert(x == scaled ==> x * pt == scaled * pt);
    assert(x * pt == scaled * pt ==> x == scaled) by (nonlinear_arith)
        requires
            pt > 0,
    ;
}

/// The magnitude nearest to the quotient of two numbers.
fn ratio_magnitude(numerator: &BigNat, denominator: &BigNat) -> (magnitude: u64)
    requires
        numerator.value() > 0,
        denominator.value() > 0,
        numerator.value() < denominator.value() * pow2(1340),
        denominator.value() < numerator.value() * pow2(1340),
    ensures
        magnitude <= INFINITE_MAGNITUDE,
        rounding::rounds_to(
            numerator.value() * binary64::one_in_units(),
            denominator.value(),
            magnitude as nat,
        ),
{
    let ghost a = numerator.value();
    let ghost b = denominator.value();
    let mut top: BigNat = numerator.copy();
    // The divisor, lifted so that the quotient has 54 binary digits.
    let mut lifted: BigNat = denominator.copy();
    lifted.multiply_pow2(53);
    let mut lower: i32 = 0;
    proof {
        lemma2_to64();
        assert(a * pow2(0) == a);
    }
    while top.compare(&lifted) == Comparison::Less
        invariant
            0 <= lower <= 1393,
            a > 0,
            top.value() == a * pow2(lower as nat),
            lifted.value() == b * pow2(53),
            b < a * pow2(1340),
        decreases 1393 - lower,
    {
        proof {
            let p = pow2(lower as nat);
            lemma_pow2_pos(lower as nat);
            lemma_pow2_pos(53);
            lemma_pow2_adds(1340, 53);
            assert(p < pow2(1393)) by (nonlinear_arith)
                requires
                    a * p < b * pow2(53),
                    b < a * pow2(1340),
                    pow2(1340) * pow2(53) == pow2(1393),
                    a > 0,
                    pow2(53) > 0,
            ;
            if lower == 1393 {
                assert(false);
            }
            lemma_pow2_unfold(lower as nat + 1);
            assert((a * p) * 2 == a * (2 * p)) by (nonlinear_arith);
            assert(a * p > 0) by (nonlinear_arith)
                requires
                    a > 0,
                    p > 0,
            ;
        }
        top.multiply_add(2, 0);
        lower = lower + 1;
    }
    let ghost t = lower as nat;
    let ghost x = top.value();
    let mut raise: i32 = 0;
    let mut next: BigNat = lifted.copy();
    next.multiply_add(2, 0);
    proof {
        assert((b * pow2(53)) * pow2(0) == b * pow2(53));
        lemma_pow2_pos(53);
        assert(b * pow2(53) > 0) by (nonlinear_arith)
            requires
                b > 0,
                pow2(53) > 0,
        ;
    }
    while next.compare(&top) != Comparison::Greater
        invariant
            0 <= raise <= 2733,
            t <= 1393,
            a > 0,
            b > 0,
            x == a * pow2(t),
            top.value() == x,
            lifted.value() == (b * pow2(53)) * pow2(raise as nat),
            lifted.value() > 0,
            lifted.value() <= x,
            next.value() == 2 * lifted.value(),
            a < b * pow2(1340),
        decreases x - lifted.value(),
    {
        proof {
            let p = pow2(raise as nat);
            let c = b * pow2(53);
            lemma_pow2_adds(1340, t);
            lemma2_to64_rest();
            lemma_pow2_pos(t);
            if 1340 + t < 2733 {
                lemma_pow2_strictly_increases(1340 + t, 2733);
            }
            assert(p < pow2(1340 + t)) by (nonlinear_arith)
                requires
                    (b * pow2(53)) * p <= a * pow2(t),
                    a < b * pow2(1340),
                    pow2(1340) * pow2(t) == pow2(1340 + t),
                    pow2(53) >= 1,
                    b > 0,
                    pow2(t) > 0,
            ;
            if raise == 2733 {
                assert(false);
            }
            lemma_pow2_unfold(raise as nat + 1);
            assert((c * p) * 2 == c * (2 * p)) by (nonlinear_arith);
        }
        lifted.multiply_add(2, 0);
        next.multiply_add(2, 0);
        raise = raise + 1;
    }
    let ghost s = raise as nat;
    let ghost c = lifted.value();
    // Long division, one binary digit at a time.
    let mut n: u128 = 0;
    let mut step: u32 = 0;
    proof {
        lemma2_to64();
        assert(x * pow2(0) == x);
        assert(2 * 0 * c == 0);
    }
    while step < 53
        invariant
            step <= 53,
            c > 0,
            lifted.value() == c,
            top.value() < 2 * c,
            n < pow2(step as nat),
            x * pow2(step as nat) == (2 * n) * c + top.value(),
        decreases 53 - step,
    {
        let ghost rest = top.value();
        let digit: u128 = if top.compare(&lifted) != Comparison::Less {
            top.subtract(&lifted);
            1
        } else {
            0
        };
        let ghost less = top.value();
        top.multiply_add(2, 0);
        proof {
            lemma2_to64_rest();
            lemma_pow2_unfold(step as nat + 1);
            lemma_pow2_strictly_increases(step as nat, 53);
            let p = pow2(step as nat);
            assert((x * p) * 2 == x * (2 * p)) by (nonlinear_arith);
            assert((2 * n) * c + rest == (2 * n + digit) * c + less) by (nonlinear_arith)
                requires
                    rest == digit * c + less,
            ;
            assert(((2 * n + digit) * c + less) * 2 == (2 * (2 * n + digit)) * c + 2 * less)
                by (nonlinear_arith);
        }
        n = 2 * n + digit;
        step = step + 1;
    }
    let ghost rest = top.value();
    let digit: u128 = if top.compare(&lifted) != Comparison::Less {
        top.subtract(&lifted);
        1
    } else {
        0
    };
    proof {
        lemma2_to64_rest();
    }
    let quotient: u128 = 2 * n + digit;
    let inexact: bool = top.compare(&BigNat::from_u64(0)) != Comparison::Equal;
    let scale: i32 = 1074 - lower + raise;
    proof {
        let q = quotient as nat;
        let less = top.value();
        let p = pow2(53);
        let d = b * pow2(s);
        assert(x * p == q * c + less) by (nonlinear_arith)
            requires
                x * p == (2 * n) * c + rest,
                rest == digit * c + less,
                q == 2 * n + digit,
        ;
        assert(c == d * p) by (nonlinear_arith)
            requires
                c == (b * p) * pow2(s),
                d == b * pow2(s),
        ;
        assert(q * d <= x < (q + 1) * d && (less != 0 <==> q * d != x)) by (nonlinear_arith)
            requires
                x * p == q * (d * p) + less,
                less < d * p,
                p > 0,
        ;
        assert(q >= p) by (nonlinear_arith)
            requires
                x * p == q * c + less,
                less < c,
                c <= x,
        ;
        lemma_ratio(a, b, t, s, q, scale as int, inexact);
    }
    round_scaled(quotient, scale, inexact)
}

/// A decimal of at least `10^400` rounds to infinity.
pub proof fn lemma_huge(digits: nat, exponent: int, length: nat)
    requires
        length > 0,
        digits >= power::pow10((length - 1) as nat),
        length - 1 + exponent >= 400,
    ensures
        reads_as(digits, exponent, INFINITE_MAGNITUDE as nat),
{
    let one = binary64::one_in_units();
    let raised = power::pow10(if exponent < 0 { 0 } else { exponent as nat });
    let denominator = decimal_denominator(exponent);
    let numerator = decimal_numerator(digits, exponent);
    let top = (length - 1 + exponent) as nat;
    power::lemma_pow10_increases(400, top);
    power::lemma_pow10_above_pow2(400);
    power::lemma_pow10_positive(if exponent < 0 { -exponent as nat } else { 0 });
    lemma_pow2_strictly_increases(1024, 1200);
    let bound = pow2(1024);
    assert(digits * raised >= bound * denominator) by {
        if exponent >= 0 {
            power::lemma_pow10_adds((length - 1) as nat, exponent as nat);
            assert(digits * raised >= bound * denominator) by (nonlinear_arith)
                requires
                    digits >= power::pow10((length - 1) as nat),
                    power::pow10((length - 1) as nat) * raised >= bound,
                    denominator == 1,
            ;
        } else {
            power::lemma_pow10_adds(top, -exponent as nat);
            assert(digits * raised >= bound * denominator) by (nonlinear_arith)
                requires
                    digits >= power::pow10(top) * denominator,
                    power::pow10(top) >= bound,
                    raised == 1,
            ;
        }
    }
    // Infinity stands for 2^1024.
    let infinite = binary64::units(INFINITE_MAGNITUDE as nat);
    assert(INFINITE_MAGNITUDE as nat == 2046 * (BINADE as nat) + BINADE);
    binary64::lemma_encode(2046, BINADE as nat);
    lemma2_to64_rest();
    lemma_pow2_adds(52, 2046);
    lemma_pow2_adds(1024, 1074);
    assert(infinite == bound * one);
    let last = binary64::units((INFINITE_MAGNITUDE - 1) as nat);
    binary64::lemma_units_increase((INFINITE_MAGNITUDE - 1) as nat, INFINITE_MAGNITUDE as nat);
    assert(numerator >= infinite * denominator) by (nonlinear_arith)
        requires
            numerator == (digits * raised) * one,
            digits * raised >= bound * denominator,
            infinite == bound * one,
    ;
    assert((last + infinite) * denominator < 2 * (infinite * denominator)) by (nonlinear_arith)
        requires
            last < infinite,
            denominator > 0,
    ;
}

/// A decimal below `10^-400` rounds to zero.
pub proof fn lemma_tiny(digits: nat, exponent: int, length: nat)
    requires
        digits < power::pow10(length),
        length + exponent <= -400,
    ensures
        reads_as(digits, exponent, 0),
{
    let one = binary64::one_in_units();
    let denominator = decimal_denominator(exponent);
    let numerator = decimal_numerator(digits, exponent);
    let gap = (-exponent - length) as nat;
    power::lemma_pow10_increases(400, gap);
    power::lemma_pow10_above_pow2(400);
    lemma_pow2_strictly_increases(1075, 1200);
    lemma_pow2_unfold(1075);
    power::lemma_pow10_adds(length, gap);
    lemma_pow2_pos(1074);
    binary64::lemma_encode(0, 0);
    binary64::lemma_encode(0, 1);
    lemma2_to64();
    assert(digits * 1 == digits);
    assert(2 * numerator < denominator) by (nonlinear_arith)
        requires
            numerator == digits * one,
            denominator == power::pow10(length) * power::pow10(gap),
            digits < power::pow10(length),
            power::pow10(gap) >= 2 * one,
            one > 0,
    ;
    assert((0 + 1) * denominator == denominator);
}

/// A decimal between `10^-401` and `10^401` as a quotient of moderate size.
proof fn lemma_moderate(digits: nat, exponent: int, length: nat)
    requires
        length > 0,
        power::pow10((length - 1) as nat) <= digits < power::pow10(length),
        -400 < length + exponent <= 400,
    ensures
        ({
            let numerator = digits * power::pow10(if exponent < 0 { 0 } else { exponent as nat });
            let denominator = decimal_denominator(exponent);
            &&& numerator > 0
            &&& denominator > 0
            &&& numerator < denominator * pow2(1340)
            &&& denominator < numerator * pow2(1340)
        }),
{
    let up: nat = if exponent < 0 { 0 } else { exponent as nat };
    let down: nat = if exponent < 0 { -exponent as nat } else { 0 };
    let raised = power::pow10(up);
    let numerator = digits * raised;
    let denominator = power::pow10(down);
    let bound = pow2(1340);
    power::lemma_pow10_below_pow2(134);
    power::lemma_pow10_positive(up);
    power::lemma_pow10_positive(down);
    power::lemma_pow10_positive((length - 1) as nat);
    power::lemma_pow10_positive(400);
    assert(numerator > 0) by (nonlinear_arith)
        requires
            numerator == digits * raised,
            digits > 0,
            raised > 0,
    ;
    // Above: the length and the exponent together stay below the bound.
    power::lemma_pow10_adds(length, up);
    power::lemma_pow10_adds(down, 402);
    power::lemma_pow10_increases(length + up, down + 402);
    assert(numerator < denominator * bound) by (nonlinear_arith)
        requires
            numerator == digits * raised,
            digits < power::pow10(length),
            raised > 0,
            power::pow10(length) * raised <= denominator * power::pow10(402),
            power::pow10(402) <= bound,
            denominator > 0,
    ;
    // Below, in the same way.
    power::lemma_pow10_adds((length - 1) as nat, up);
    power::lemma_pow10_adds((length - 1 + up) as nat, 401);
    power::lemma_pow10_increases(down, (length - 1 + up + 401) as nat);
    power::lemma_pow10_increases(401, 402);
    assert(power::pow10(402) == 10 * power::pow10(401));
    power::lemma_pow10_positive(401);
    assert(numerator >= power::pow10((length - 1) as nat) * raised) by (nonlinear_arith)
        requires
            numerator == digits * raised,
            digits >= power::pow10((length - 1) as nat),
    ;
    assert(denominator < numerator * bound) by (nonlinear_arith)
        requires
            numerator >= power::pow10((length - 1 + up) as nat),
            denominator <= power::pow10((length - 1 + up) as nat) * power::pow10(401),
            bound >= 10 * power::pow10(401),
            power::pow10(401) > 0,
            numerator > 0,
    ;
}

/// The magnitude nearest to the number that `digits` stand for, times ten to the power of
/// `exponent`.
pub fn decimal_magnitude(digits: &Vec<char>, exponent: i128) -> (magnitude: u64)
    requires
        numeral::all_digits(digits@),
        -1_000_000_000_000_000_000_000_000_000_000 <= exponent
            <= 1_000_000_000_000_000_000_000_000_000_000,
    ensures
        magnitude <= INFINITE_MAGNITUDE,
        magnitude == nearest_decimal(numeral::numeral_value(digits@), exponent as int),
        reads_as(numeral::numeral_value(digits@), exponent as int, magnitude as nat),
{
    let ghost value = numeral::numeral_value(digits@);
    let mut zeros: usize = 0;
    while zeros < digits.len() && digits[zeros] == '0'
        invariant
            zeros <= digits@.len(),
            forall|i: int| 0 <= i < zeros ==> digits@[i] == '0',
        decreases digits@.len() - zeros,
    {
        zeros = zeros + 1;
    }
    let length: usize = digits.len() - zeros;
    proof {
        numeral::lemma_numeral_bounds(digits@, zeros as nat);
        power::lemma_pow10_positive(if exponent < 0 { -exponent as nat } else { 0 });
    }
    let magnitude: u64;
    if length == 0 {
        magnitude = 0;
        proof {
            rounding::lemma_round_zero(decimal_denominator(exponent as int));
            let raised = power::pow10(if exponent < 0 { 0 } else { exponent as nat });
            assert(0 * raised == 0);
            assert(0 * binary64::one_in_units() == 0);
        }
    } else if length as i128 + exponent > 400 {
        magnitude = INFINITE_MAGNITUDE;
        proof {
            lemma_huge(value, exponent as int, length as nat);
        }
    } else if length as i128 + exponent <= -400 {
        magnitude = 0;
        proof {
            lemma_tiny(value, exponent as int, length as nat);
        }
    } else {
        let mut numerator: BigNat = BigNat::from_u64(0);
        let mut i: usize = 0;
        while i < digits.len()
            invariant
                i <= digits@.len(),
                numeral::all_digits(digits@),
                numerator.value() == numeral::numeral_value(digits@.take(i as int)),
            decreases digits@.len() - i,
        {
            assert(numeral::is_digit(digits@[i as int]));
            let digit: u64 = digits[i] as u64 - '0' as u64;
            proof {
                let longer = digits@.take(i + 1);
                assert(longer.drop_last() =~= digits@.take(i as int));
                assert(longer.last() == digits@[i as int]);
            }
            numerator.multiply_add(10, digit);
            i = i + 1;
        }
        assert(digits@.take(i as int) =~= digits@);
        let mut denominator: BigNat = BigNat::from_u64(1);
        if exponent < 0 {
            denominator.multiply_pow10((-exponent) as u128);
        } else {
            numerator.multiply_pow10(exponent as u128);
        }
        proof {
            lemma_moderate(value, exponent as int, length as nat);
            assert(power::pow10(0) == 1);
            assert(value * 1 == value);
            assert(denominator.value() == decimal_denominator(exponent as int));
        }
        magnitude = ratio_magnitude(&numerator, &denominator);
    }
    proof {
        rounding::lemma_nearest_is(
            decimal_numerator(value, exponent as int),
            decimal_denominator(exponent as int),
            magnitude as nat,
        );
    }
    magnitude
}

} // verus!
