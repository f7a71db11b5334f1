use crate::binary64;
use crate::binary64::{Real, BINADE, INFINITE_MAGNITUDE, NAN_BITS};
use crate::power::{bit_length, power_of_two};
use crate::rounding;
use crate::rounding::round_scaled;
use vstd::arithmetic::power2::*;
use vstd::prelude::*;

verus! {

/// The sum of two numbers, rounded to the nearest number. An exact zero is positive unless both
/// summands are negative.
pub open spec fn sum_of(a: Real, b: Real) -> Real {
    if a.nan() || b.nan() || a.infinite() && b.infinite() && a.negative() != b.negative() {
        binary64::not_a_number()
    } else if a.infinite() {
        a
    } else if b.infinite() {
        b
    } else {
        let total = a.signed_units() + b.signed_units();
        if total == 0 {
            binary64::assembled(a.negative() && b.negative(), 0)
        } else if total < 0 {
            binary64::assembled(true, rounding::nearest(-total as nat, 1))
        } else {
            binary64::assembled(false, rounding::nearest(total as nat, 1))
        }
    }
}

/// The difference of two numbers, rounded to the nearest number.
pub open spec fn difference_of(a: Real, b: Real) -> Real {
    sum_of(a, b.opposite())
}

/// The product of two numbers, rounded to the nearest number.
pub open spec fn product_of(a: Real, b: Real) -> Real {
    let negative = a.negative() != b.negative();
    if a.nan() || b.nan() || a.infinite() && b.zero() || a.zero() && b.infinite() {
        binary64::not_a_number()
    } else if a.infinite() || b.infinite() {
        binary64::assembled(negative, INFINITE_MAGNITUDE as nat)
    } else {
        let product = binary64::units(a.magnitude()) * binary64::units(b.magnitude());
        binary64::assembled(negative, rounding::nearest(product, binary64::one_in_units()))
    }
}

/// The quotient of two numbers, rounded to the nearest number.
pub open spec fn quotient_of(a: Real, b: Real) -> Real {
    let negative = a.negative() != b.negative();
    if a.nan() || b.nan() || a.infinite() && b.infinite() || a.zero() && b.zero() {
        binary64::not_a_number()
    } else if a.infinite() || b.zero() {
        binary64::assembled(negative, INFINITE_MAGNITUDE as nat)
    } else if b.infinite() {
        binary64::assembled(negative, 0)
    } else {
        let dividend = binary64::units(a.magnitude()) * binary64::one_in_units();
        binary64::assembled(
            negative,
            rounding::nearest(dividend, binary64::units(b.magnitude())),
        )
    }
}

/// The number nearest to an integer.
pub open spec fn of_integer(value: int) -> Real {
    if value < 0 {
        binary64::assembled(true, rounding::nearest(-value as nat * binary64::one_in_units(), 1))
    } else {
        binary64::assembled(false, rounding::nearest(value as nat * binary64::one_in_units(), 1))
    }
}

/// The integer part of a number, held within the range of the integers; zero for a NaN.
pub open spec fn integer_part(a: Real) -> i64 {
    let whole = binary64::units(a.magnitude()) / binary64::one_in_units();
    if a.nan() {
        0
    } else if a.negative() {
        if -whole < i64::MIN {
            i64::MIN
        } else {
            -whole as i64
        }
    } else if whole > i64::MAX {
        i64::MAX
    } else {
        whole as i64
    }
}

/// A summand that is far smaller than the last digit of the other leaves it as it is.
proof fn lemma_absorbed(high: nat, low: nat)
    requires
        high < INFINITE_MAGNITUDE,
        binary64::exponent_of(high) >= binary64::exponent_of(low) + 56,
    ensures
        rounding::rounds_to(binary64::units(high) + binary64::units(low), 1, high),
        binary64::units(high) >= binary64::units(low),
        rounding::rounds_to((binary64::units(high) - binary64::units(low)) as nat, 1, high),
{
    let e = binary64::exponent_of(high);
    let m = binary64::significand_of(high);
    let el = binary64::exponent_of(low);
    let ml = binary64::significand_of(low);
    let u = binary64::units(high);
    let t = binary64::units(low);
    let gap = pow2((e - 1) as nat);
    binary64::lemma_decode(high);
    binary64::lemma_decode(low);
    lemma_pow2_unfold(e);
    lemma_pow2_pos((e - 1) as nat);
    // The small summand is below a quarter of the smaller gap.
    lemma2_to64_rest();
    lemma_pow2_adds(53, el);
    lemma_pow2_pos(el);
    lemma_pow2_adds(2, (e - 3) as nat);
    lemma2_to64();
    if 53 + el < e - 3 {
        lemma_pow2_strictly_increases(53 + el, (e - 3) as nat);
    }
    assert(t < pow2(53) * pow2(el)) by (nonlinear_arith)
        requires
            t == ml * pow2(el),
            ml < pow2(53),
            pow2(el) > 0,
    ;
    assert(4 * t < gap);
    let next = binary64::units(high + 1);
    assert(next == u + 2 * gap) by (nonlinear_arith)
        requires
            next == (m + 1) * pow2(e),
            u == m * pow2(e),
            pow2(e) == 2 * gap,
    ;
    let previous = binary64::units((high - 1) as nat);
    if m > BINADE {
        assert(high - 1 == e * BINADE + (m - 1));
        binary64::lemma_encode(e, (m - 1) as nat);
        assert(previous + 2 * gap == u) by (nonlinear_arith)
            requires
                previous == (m - 1) * pow2(e),
                u == m * pow2(e),
                pow2(e) == 2 * gap,
        ;
    } else {
        assert(high - 1 == (e - 1) * BINADE + (2 * BINADE - 1));
        binary64::lemma_encode((e - 1) as nat, (2 * BINADE - 1) as nat);
        assert(previous + gap == u) by (nonlinear_arith)
            requires
                previous == (2 * BINADE - 1) * gap,
                u == BINADE * pow2(e),
                pow2(e) == 2 * gap,
        ;
    }
    assert(u >= 2 * gap) by (nonlinear_arith)
        requires
            u == m * pow2(e),
            m >= 1,
            pow2(e) == 2 * gap,
    ;
}

/// Adds or subtracts two finite absolute values, the larger given first.
fn combine_magnitudes(high: u64, low: u64, subtract: bool) -> (magnitude: u64)
    requires
        low <= high < INFINITE_MAGNITUDE,
    ensures
        magnitude <= INFINITE_MAGNITUDE,
        binary64::units(low as nat) <= binary64::units(high as nat),
        !subtract ==> magnitude == rounding::nearest(
            binary64::units(high as nat) + binary64::units(low as nat),
            1,
        ),
        subtract ==> magnitude == rounding::nearest(
            (binary64::units(high as nat) - binary64::units(low as nat)) as nat,
            1,
        ),
{
    let (m_high, e_high) = binary64::decode(high);
    let (m_low, e_low) = binary64::decode(low);
    let ghost u = binary64::units(high as nat);
    let ghost t = binary64::units(low as nat);
    let ghost exact: nat = if subtract {
        (u - t) as nat
    } else {
        u + t
    };
    proof {
        if low < high {
            binary64::lemma_units_increase(low as nat, high as nat);
        }
        assert(e_low <= e_high) by {
            if high >= BINADE && low >= BINADE {
                assert(low / BINADE <= high / BINADE) by (nonlinear_arith)
                    requires
                        low <= high,
                ;
            }
        }
    }
    if e_high - e_low >= 56 {
        proof {
            lemma_absorbed(high as nat, low as nat);
            rounding::lemma_nearest_is(exact, 1, high as nat);
        }
        high
    } else {
        let shift: u32 = e_high - e_low;
        let power: u128 = power_of_two(shift);
        proof {
            lemma2_to64_rest();
            if shift < 56 {
                lemma_pow2_strictly_increases(shift as nat, 56);
            }
            assert(m_high * power <= 0x20_0000_0000_0000 * 0x100_0000_0000_0000)
                by (nonlinear_arith)
                requires
                    m_high <= 0x20_0000_0000_0000,
                    power <= 0x100_0000_0000_0000,
            ;
            lemma_pow2_adds(shift as nat, e_low as nat);
            lemma_pow2_pos(e_low as nat);
            assert(u == (m_high * power) * pow2(e_low as nat)) by (nonlinear_arith)
                requires
                    u == m_high * pow2(e_high as nat),
                    pow2(e_high as nat) == power * pow2(e_low as nat),
            ;
            assert(m_high * power >= m_low) by (nonlinear_arith)
                requires
                    u == (m_high * power) * pow2(e_low as nat),
                    t == m_low * pow2(e_low as nat),
                    t <= u,
                    pow2(e_low as nat) > 0,
            ;
        }
        let aligned: u128 = m_high as u128 * power;
        let n: u128 = if subtract {
            aligned - m_low as u128
        } else {
            aligned + m_low as u128
        };
        let magnitude: u64 = round_scaled(n, e_low as i32, false);
        proof {
            let p = pow2(e_low as nat);
            assert(exact == n * p) by (nonlinear_arith)
                requires
                    u == aligned * p,
                    t == m_low * p,
                    exact == if subtract { u - t } else { (u + t) as int },
                    n == if subtract { aligned - m_low } else { aligned + m_low },
            ;
            assert(n * p < (n + 1) * p) by (nonlinear_arith)
                requires
                    p > 0,
            ;
            lemma2_to64();
            assert(exact * pow2(0) == exact);
            assert(rounding::brackets(exact, 1, n as nat, e_low as int, false));
            rounding::lemma_nearest_is(exact, 1, magnitude as nat);
        }
        magnitude
    }
}

/// A quotient that is exactly `n` steps of `2^scale`.
proof fn lemma_exact(numerator: nat, denominator: nat, n: nat, scale: int)
    requires
        denominator > 0,
        ({
            let a: nat = if scale < 0 { -scale as nat } else { 0 };
            let b: nat = if scale < 0 { 0 } else { scale as nat };
            numerator * pow2(a) == n * (denominator * pow2(b))
        }),
    ensures
        rounding::brackets(numerator, denominator, n, scale, false),
{
    let b: nat = if scale < 0 { 0 } else { scale as nat };
    let step = denominator * pow2(b);
    lemma_pow2_pos(b);
    assert(step > 0 && n * step < (n + 1) * step) by (nonlinear_arith)
        requires
            step == denominator * pow2(b),
            denominator > 0,
            pow2(b) > 0,
    ;
}

/// The product of two finite absolute values.
fn multiply_magnitudes(a: u64, b: u64) -> (magnitude: u64)
    requires
        a < INFINITE_MAGNITUDE,
        b < INFINITE_MAGNITUDE,
    ensures
        magnitude <= INFINITE_MAGNITUDE,
        magnitude == rounding::nearest(
            binary64::units(a as nat) * binary64::units(b as nat),
            binary64::one_in_units(),
        ),
{
    let (m_a, e_a) = binary64::decode(a);
    let (m_b, e_b) = binary64::decode(b);
    assert(m_a * m_b <= 0x20_0000_0000_0000 * 0x20_0000_0000_0000) by (nonlinear_arith)
        requires
            m_a <= 0x20_0000_0000_0000,
            m_b <= 0x20_0000_0000_0000,
    ;
    let n: u128 = m_a as u128 * m_b as u128;
    let scale: i32 = e_a as i32 + e_b as i32 - 1074;
    let magnitude: u64 = round_scaled(n, scale, false);
    proof {
        let product = binary64::units(a as nat) * binary64::units(b as nat);
        let one = binary64::one_in_units();
        let ea = e_a as nat;
        let eb = e_b as nat;
        lemma_pow2_pos(1074);
        lemma_pow2_adds(ea, eb);
        lemma2_to64();
        assert(product == n * pow2(ea + eb)) by (nonlinear_arith)
            requires
                product == (m_a * pow2(ea)) * (m_b * pow2(eb)),
                n == m_a * m_b,
                pow2(ea + eb) == pow2(ea) * pow2(eb),
        ;
        if scale < 0 {
            let lift = -scale as nat;
            lemma_pow2_adds(ea + eb, lift);
            assert(product * pow2(lift) == n * (one * pow2(0))) by (nonlinear_arith)
                requires
                    product == n * pow2(ea + eb),
                    one == pow2(ea + eb) * pow2(lift),
                    pow2(0) == 1,
            ;
        } else {
            lemma_pow2_adds(1074, scale as nat);
            assert(product * pow2(0) == n * (one * pow2(scale as nat))) by (nonlinear_arith)
                requires
                    product == n * pow2(ea + eb),
                    pow2(ea + eb) == one * pow2(scale as nat),
                    pow2(0) == 1,
            ;
        }
        lemma_exact(product, one, n as nat, scale as int);
        rounding::lemma_nearest_is(product, one, magnitude as nat);
    }
    magnitude
}

/// What long division of shifted significands says of the quotient of the values.
proof fn lemma_division(
    m_a: nat,
    e_a: nat,
    m_b: nat,
    e_b: nat,
    z: nat,
    n: nat,
    scale: int,
    inexact: bool,
)
    requires
        m_b > 0,
        scale == e_a - e_b + 1002 - z,
        n * m_b <= m_a * pow2(z + 72) < (n + 1) * m_b,
        inexact <==> n * m_b != m_a * pow2(z + 72),
    ensures
        m_b * pow2(e_b) > 0,
        rounding::brackets(
            (m_a * pow2(e_a)) * binary64::one_in_units(),
            m_b * pow2(e_b),
            n,
            scale,
            inexact,
        ),
{
    let a: nat = if scale < 0 { -scale as nat } else { 0 };
    let b: nat = if scale < 0 { 0 } else { scale as nat };
    let one = binary64::one_in_units();
    let numerator = (m_a * pow2(e_a)) * one;
    let denominator = m_b * pow2(e_b);
    let scaled = numerator * pow2(a);
    let step = denominator * pow2(b);
    let wide = pow2(e_b + b);
    let shifted = m_a * pow2(z + 72);
    lemma_pow2_pos(e_b);
    lemma_pow2_pos(e_b + b);
    lemma_pow2_adds(e_b, b);
    lemma_pow2_adds(e_a, 1074);
    lemma_pow2_adds(e_a + 1074, a);
    lemma_pow2_adds(z + 72, e_b + b);
    assert(denominator > 0) by (nonlinear_arith)
        requires
            denominator == m_b * pow2(e_b),
            m_b > 0,
            pow2(e_b) > 0,
    ;
    assert(e_a + 1074 + a == z + 72 + (e_b + b));
    assert(scaled == shifted * wide) by (nonlinear_arith)
        requires
            scaled == ((m_a * pow2(e_a)) * one) * pow2(a),
            pow2(e_a + 1074) == pow2(e_a) * one,
            pow2(e_a + 1074 + a) == pow2(e_a + 1074) * pow2(a),
            pow2(e_a + 1074 + a) == pow2(z + 72) * wide,
            shifted == m_a * pow2(z + 72),
    ;
    assert(step == m_b * wide) by (nonlinear_arith)
        requires
            step == (m_b * pow2(e_b)) * pow2(b),
            wide == pow2(e_b) * pow2(b),
    ;
    assert(n * step == (n * m_b) * wide && (n + 1) * step == ((n + 1) * m_b) * wide)
        by (nonlinear_arith)
        requires
            step == m_b * wide,
    ;
    assert((n * m_b) * wide <= shifted * wide && shifted * wide < ((n + 1) * m_b) * wide)
        by (nonlinear_arith)
        requires
            n * m_b <= shifted < (n + 1) * m_b,
            wide > 0,
    ;
    assert(n * m_b != shifted ==> (n * m_b) * wide != shifted * wide) by (nonlinear_arith)
        requires
            n * m_b <= shifted,
            wide > 0,
    ;
}

/// The quotient of two finite absolute values that are not zero.
fn divide_magnitudes(a: u64, b: u64) -> (magnitude: u64)
    requires
        0 < a < INFINITE_MAGNITUDE,
        0 < b < INFINITE_MAGNITUDE,
    ensures
        magnitude <= INFINITE_MAGNITUDE,
        magnitude == rounding::nearest(
            binary64::units(a as nat) * binary64::one_in_units(),
            binary64::units(b as nat),
        ),
{
    let (m_a, e_a) = binary64::decode(a);
    let (m_b, e_b) = binary64::decode(b);
    let length: u32 = bit_length(m_a as u128);
    proof {
        lemma2_to64();
        lemma2_to64_rest();
        if length > 53 {
            if length > 54 {
                lemma_pow2_strictly_increases(53, (length - 1) as nat);
            }
        }
        assert(length > 0);
    }
    let z: u32 = 53 - length;
    let power: u128 = power_of_two(z + 72);
    proof {
        // The dividend has 125 binary digits.
        let p = power as nat;
        lemma_pow2_adds((length - 1) as nat, (z + 72) as nat);
        lemma_pow2_adds(length as nat, (z + 72) as nat);
        lemma_pow2_adds(62, 62);
        lemma_pow2_unfold(125);
        assert(pow2(124) <= m_a * p < pow2(125)) by (nonlinear_arith)
            requires
                pow2((length - 1) as nat) <= m_a < pow2(length as nat),
                pow2((length - 1) as nat) * p == pow2(124),
                pow2(length as nat) * p == pow2(125),
                p > 0,
        ;
    }
    let dividend: u128 = m_a as u128 * power;
    let divisor: u128 = m_b as u128;
    let n: u128 = dividend / divisor;
    let inexact: bool = dividend % divisor != 0;
    let scale: i32 = e_a as i32 - e_b as i32 + 1002 - z as i32;
    proof {
        let q = n as nat;
        let d = divisor as nat;
        let whole = dividend as nat;
        vstd::arithmetic::div_mod::lemma_fundamental_div_mod(whole as int, d as int);
        assert(q * d <= whole < (q + 1) * d && (inexact <==> q * d != whole)) by (nonlinear_arith)
            requires
                whole == d * q + whole % d,
                0 <= whole % d < d,
                inexact == (whole % d != 0),
        ;
        assert(q >= 2 * BINADE) by (nonlinear_arith)
            requires
                whole < (q + 1) * d,
                d <= 0x20_0000_0000_0000,
                whole >= 0x1000_0000_0000_0000_0000_0000_0000_0000,
        ;
        assert(q <= whole) by (nonlinear_arith)
            requires
                q * d <= whole,
                d >= 1,
        ;
        lemma_division(
            m_a as nat,
            e_a as nat,
            m_b as nat,
            e_b as nat,
            z as nat,
            q,
            scale as int,
            inexact,
        );
    }
    let magnitude: u64 = round_scaled(n, scale, inexact);
    proof {
        rounding::lemma_nearest_is(
            binary64::units(a as nat) * binary64::one_in_units(),
            binary64::units(b as nat),
            magnitude as nat,
        );
    }
    magnitude
}

/// The integer part of an absolute value in terms of its significand.
proof fn lemma_whole(m: nat, e: nat)
    ensures
        e >= 1074 ==> (m * pow2(e)) / binary64::one_in_units() == m * pow2((e - 1074) as nat),
        e < 1074 ==> (m * pow2(e)) / binary64::one_in_units() == m / pow2((1074 - e) as nat),
{
    let one = binary64::one_in_units();
    lemma_pow2_pos(1074);
    if e >= 1074 {
        let p = pow2((e - 1074) as nat);
        lemma_pow2_adds((e - 1074) as nat, 1074);
        assert(m * pow2(e) == (m * p) * one) by (nonlinear_arith)
            requires
                pow2(e) == p * one,
        ;
        vstd::arithmetic::div_mod::lemma_div_by_multiple((m * p) as int, one as int);
    } else {
        let p = pow2((1074 - e) as nat);
        lemma_pow2_pos(e);
        lemma_pow2_pos((1074 - e) as nat);
        lemma_pow2_adds(e, (1074 - e) as nat);
        vstd::arithmetic::div_mod::lemma_div_denominator(
            (m * pow2(e)) as int,
            pow2(e) as int,
            p as int,
        );
        vstd::arithmetic::div_mod::lemma_div_by_multiple(m as int, pow2(e) as int);
    }
}

impl Real {
    /// The sum of two numbers, rounded to the nearest number.
    pub fn sum(&self, other: &Real) -> (result: Real)
        ensures
            result == sum_of(*self, *other),
    {
        if self.is_nan() || other.is_nan() {
            return Real { bits: NAN_BITS };
        }
        if self.is_infinite() {
            if other.is_infinite() && self.is_negative() != other.is_negative() {
                return Real { bits: NAN_BITS };
            }
            return *self;
        }
        if other.is_infinite() {
            return *other;
        }
        let a: u64 = self.magnitude_bits();
        let b: u64 = other.magnitude_bits();
        let a_negative: bool = self.is_negative();
        let b_negative: bool = other.is_negative();
        proof {
            if a < b {
                binary64::lemma_units_increase(a as nat, b as nat);
            } else if b < a {
                binary64::lemma_units_increase(b as nat, a as nat);
            }
            rounding::lemma_round_zero(1);
            rounding::lemma_nearest_is(0, 1, 0);
        }
        if a_negative == b_negative {
            let magnitude: u64 = if a >= b {
                combine_magnitudes(a, b, false)
            } else {
                combine_magnitudes(b, a, false)
            };
            Real::assemble(a_negative, magnitude)
        } else if a > b {
            Real::assemble(a_negative, combine_magnitudes(a, b, true))
        } else if b > a {
            Real::assemble(b_negative, combine_magnitudes(b, a, true))
        } else {
            Real::assemble(false, 0)
        }
    }

    /// The difference of two numbers, rounded to the nearest number.
    pub fn difference(&self, other: &Real) -> (result: Real)
        ensures
            result == difference_of(*self, *other),
    {
        self.sum(&other.negate())
    }

    /// The product of two numbers, rounded to the nearest number.
    pub fn product(&self, other: &Real) -> (result: Real)
        ensures
            result == product_of(*self, *other),
    {
        if self.is_nan() || other.is_nan() {
            return Real { bits: NAN_BITS };
        }
        let negative: bool = self.is_negative() != other.is_negative();
        if self.is_infinite() || other.is_infinite() {
            if self.is_zero() || other.is_zero() {
                return Real { bits: NAN_BITS };
            }
            return Real::assemble(negative, INFINITE_MAGNITUDE);
        }
        Real::assemble(
            negative,
            multiply_magnitudes(self.magnitude_bits(), other.magnitude_bits()),
        )
    }

    /// The quotient of two numbers, rounded to the nearest number.
    pub fn quotient(&self, other: &Real) -> (result: Real)
        ensures
            result == quotient_of(*self, *other),
    {
        if self.is_nan() || other.is_nan() {
            return Real { bits: NAN_BITS };
        }
        let negative: bool = self.is_negative() != other.is_negative();
        if self.is_infinite() {
            if other.is_infinite() {
                return Real { bits: NAN_BITS };
            }
            return Real::assemble(negative, INFINITE_MAGNITUDE);
        }
        if other.is_zero() {
            if self.is_zero() {
                return Real { bits: NAN_BITS };
            }
            return Real::assemble(negative, INFINITE_MAGNITUDE);
        }
        if other.is_infinite() {
            return Real::assemble(negative, 0);
        }
        if self.is_zero() {
            proof {
                let divisor = binary64::units(other.magnitude());
                binary64::lemma_units_increase(0, other.magnitude());
                rounding::lemma_round_zero(divisor);
                rounding::lemma_nearest_is(0, divisor, 0);
                binary64::lemma_encode(0, 0);
                assert(binary64::units(self.magnitude()) == 0);
                assert(binary64::units(self.magnitude()) * binary64::one_in_units() == 0);
            }
            return Real::assemble(negative, 0);
        }
        Real::assemble(negative, divide_magnitudes(self.magnitude_bits(), other.magnitude_bits()))
    }

    /// The number nearest to an integer.
    pub fn from_integer(value: i64) -> (result: Real)
        ensures
            result == of_integer(value as int),
            !result.nan(),
    {
        let n: u128 = if value < 0 {
            (-(value as i128)) as u128
        } else {
            value as u128
        };
        let magnitude: u64 = round_scaled(n, 1074, false);
        proof {
            let one = binary64::one_in_units();
            lemma2_to64();
            assert((n * one) * pow2(0) == n * (1 * one)) by (nonlinear_arith)
                requires
                    pow2(0) == 1,
            ;
            lemma_exact((n * one) as nat, 1, n as nat, 1074);
            rounding::lemma_nearest_is((n * one) as nat, 1, magnitude as nat);
        }
        Real::assemble(value < 0, magnitude)
    }

    /// The integer part, held within the range of the integers; zero for a NaN.
    pub fn to_integer(&self) -> (result: i64)
        ensures
            result == integer_part(*self),
    {
        if self.is_nan() {
            return 0;
        }
        let (m, e) = binary64::decode(self.magnitude_bits());
        let negative: bool = self.is_negative();
        proof {
            lemma_whole(m as nat, e as nat);
            lemma2_to64();
            lemma2_to64_rest();
        }
        let ghost whole = binary64::units(self.magnitude()) / binary64::one_in_units();
        if e >= 1074 {
            let shift: u32 = e - 1074;
            if shift >= 11 {
                proof {
                    let p = pow2(shift as nat);
                    if shift > 11 {
                        lemma_pow2_strictly_increases(11, shift as nat);
                    }
                    assert(m * p >= 0x8000_0000_0000_0000) by (nonlinear_arith)
                        requires
                            m >= 0x10_0000_0000_0000,
                            p >= 0x800,
                    ;
                }
                return if negative {
                    i64::MIN
                } else {
                    i64::MAX
                };
            }
            let power: u128 = power_of_two(shift);
            proof {
                if shift < 10 {
                    lemma_pow2_strictly_increases(shift as nat, 10);
                }
                assert(m * power < 0x8000_0000_0000_0000) by (nonlinear_arith)
                    requires
                        m < 0x20_0000_0000_0000,
                        power <= 0x400,
                ;
            }
            let value: i64 = (m as u128 * power) as i64;
            return if negative {
                -value
            } else {
                value
            };
        }
        let drop: u32 = 1074 - e;
        if drop >= 64 {
            proof {
                let p = pow2(drop as nat);
                if drop > 64 {
                    lemma_pow2_strictly_increases(64, drop as nat);
                }
                vstd::arithmetic::div_mod::lemma_basic_div(m as int, p as int);
            }
            return 0;
        }
        let power: u128 = power_of_two(drop);
        let quotient: u128 = m as u128 / power;
        proof {
            assert(quotient <= m) by (nonlinear_arith)
                requires
                    quotient == m as int / power as int,
                    power >= 1,
                    m >= 0,
            ;
        }
        let value: i64 = quotient as i64;
        if negative {
            -value
        } else {
            value
        }
    }
}

} // verus!
