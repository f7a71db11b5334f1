use crate::binary64;
use crate::binary64::Real;
use crate::power;
use crate::real_arith;
use crate::rounding;
use vstd::arithmetic::div_mod::*;
use vstd::arithmetic::power2::*;
use vstd::math::abs;
use vstd::prelude::*;

verus! {

/// How a bit pattern divides: the highest bit is the sign, and the other bits, taken as a number,
/// tell zero, the finite numbers, infinity and the NaNs apart.
pub proof fn law_parts_of_bits(f: Real)
    ensures
        f.negative() <==> f.bits >= 0x8000_0000_0000_0000,
        f.magnitude() == f.bits as int % 0x8000_0000_0000_0000,
        f.zero() <==> f.bits as int % 0x8000_0000_0000_0000 == 0,
        f.finite() <==> f.bits as int % 0x8000_0000_0000_0000 < 0x7ff0_0000_0000_0000,
        f.infinite() <==> f.bits as int % 0x8000_0000_0000_0000 == 0x7ff0_0000_0000_0000,
        f.nan() <==> f.bits as int % 0x8000_0000_0000_0000 > 0x7ff0_0000_0000_0000,
        f.signed_units() == if f.bits >= 0x8000_0000_0000_0000 {
            -(binary64::units((f.bits - 0x8000_0000_0000_0000) as nat) as int)
        } else {
            binary64::units(f.bits as nat) as int
        },
{
}

/// Turning the sign keeps the magnitude, changes the sign, and is undone by turning it again.
pub proof fn law_opposite(f: Real)
    ensures
        f.opposite().magnitude() == f.magnitude(),
        f.opposite().negative() == !f.negative(),
        f.opposite().signed_units() == -f.signed_units(),
        f.opposite().opposite() == f,
        f.opposite().bits == if f.bits >= 0x8000_0000_0000_0000 {
            f.bits - 0x8000_0000_0000_0000
        } else {
            f.bits + 0x8000_0000_0000_0000
        },
{
}

/// A number put together from a sign and a magnitude has that sign and that magnitude.
pub proof fn law_assembled(negative: bool, magnitude: nat)
    requires
        magnitude < 0x8000_0000_0000_0000,
    ensures
        binary64::assembled(negative, magnitude).negative() == negative,
        binary64::assembled(negative, magnitude).magnitude() == magnitude,
{
}

/// The values of the magnitudes: the small ones count the units themselves, and one binade further
/// up every value is doubled. The pattern of one is worth two to the power of 1074 units.
pub proof fn law_values_of_magnitudes(magnitude: nat)
    ensures
        magnitude <= 0x20_0000_0000_0000 ==> binary64::units(magnitude) == magnitude,
        magnitude >= 0x10_0000_0000_0000 ==> binary64::units(magnitude + 0x10_0000_0000_0000) == 2
            * binary64::units(magnitude),
        binary64::units(0x3ff0_0000_0000_0000) == binary64::one_in_units(),
        binary64::one_in_units() == pow2(1074),
{
    lemma2_to64();
    lemma2_to64_rest();
    let e = binary64::exponent_of(magnitude);
    let m = binary64::significand_of(magnitude);
    binary64::lemma_decode(magnitude);
    if magnitude <= 0x20_0000_0000_0000 {
        binary64::lemma_encode(0, magnitude);
        assert(magnitude * pow2(0) == magnitude);
    }
    if magnitude >= 0x10_0000_0000_0000 {
        binary64::lemma_encode(e + 1, m);
        lemma_pow2_unfold(e + 1);
        assert(m * pow2(e + 1) == 2 * (m * pow2(e))) by (nonlinear_arith)
            requires
                pow2(e + 1) == 2 * pow2(e),
        ;
        assert((e + 1) * 0x10_0000_0000_0000 + m == magnitude + 0x10_0000_0000_0000);
    }
    binary64::lemma_encode(1022, 0x10_0000_0000_0000);
    lemma_pow2_adds(52, 1022);
}

/// Larger magnitudes are worth more.
pub proof fn law_values_increase(low: nat, high: nat)
    ensures
        low < high <==> binary64::units(low) < binary64::units(high),
{
    if low < high {
        binary64::lemma_units_increase(low, high);
    } else if high < low {
        binary64::lemma_units_increase(high, low);
    }
}

/// A magnitude is what a quotient rounds to exactly if no other one is nearer to the quotient, and
/// if it is even where another one is as near. Infinity counts as the next value after the largest
/// finite one.
pub proof fn law_rounds_to_the_nearest(numerator: nat, denominator: nat, magnitude: nat)
    requires
        denominator > 0,
        magnitude <= 0x7ff0_0000_0000_0000,
    ensures
        rounding::rounds_to(numerator, denominator, magnitude) <==> forall|other: nat|
            other <= 0x7ff0_0000_0000_0000 && other != magnitude ==> {
                let error = abs(binary64::units(magnitude) * denominator - numerator);
                let other_error = abs(#[trigger] binary64::units(other) * denominator - numerator);
                error < other_error || error == other_error && magnitude % 2 == 0
            },
{
    let n = numerator;
    let d = denominator;
    let u = binary64::units(magnitude);
    if rounding::rounds_to(n, d, magnitude) {
        assert forall|other: nat| other <= 0x7ff0_0000_0000_0000 && other != magnitude implies {
            let error = abs(u * d - n);
            let other_error = abs(#[trigger] binary64::units(other) * d - n);
            error < other_error || error == other_error && magnitude % 2 == 0
        } by {
            let v = binary64::units(other);
            if other > magnitude {
                let next = binary64::units(magnitude + 1);
                lemma_above(u, next, v, d, magnitude, other);
            } else {
                let before = binary64::units((magnitude - 1) as nat);
                lemma_below(u, before, v, d, magnitude, other);
            }
        }
    } else {
        if magnitude > 0 {
            let v = binary64::units((magnitude - 1) as nat);
            binary64::lemma_units_increase((magnitude - 1) as nat, magnitude);
            lemma_split(v, u, d);
            assert(v * d < u * d) by (nonlinear_arith)
                requires
                    v < u,
                    d > 0,
            ;
        }
        if magnitude < 0x7ff0_0000_0000_0000 {
            let v = binary64::units(magnitude + 1);
            binary64::lemma_units_increase(magnitude, magnitude + 1);
            lemma_split(u, v, d);
            assert(u * d < v * d) by (nonlinear_arith)
                requires
                    u < v,
                    d > 0,
            ;
        }
    }
}

proof fn lemma_split(a: nat, b: nat, d: nat)
    ensures
        (a + b) * d == a * d + b * d,
{
    assert((a + b) * d == a * d + b * d) by (nonlinear_arith);
}

/// Values above a magnitude, scaled by the denominator.
proof fn lemma_above(u: nat, next: nat, v: nat, d: nat, magnitude: nat, other: nat)
    requires
        d > 0,
        magnitude < other,
        u == binary64::units(magnitude),
        next == binary64::units(magnitude + 1),
        v == binary64::units(other),
    ensures
        u * d < next * d <= v * d,
        (u + next) * d == u * d + next * d,
{
    lemma_split(u, next, d);
    binary64::lemma_units_increase(magnitude, magnitude + 1);
    if other > magnitude + 1 {
        binary64::lemma_units_increase(magnitude + 1, other);
    }
    assert(u * d < next * d <= v * d) by (nonlinear_arith)
        requires
            d > 0,
            u < next <= v,
    ;
}

/// Values below a magnitude, scaled by the denominator.
proof fn lemma_below(u: nat, before: nat, v: nat, d: nat, magnitude: nat, other: nat)
    requires
        d > 0,
        other < magnitude,
        u == binary64::units(magnitude),
        before == binary64::units((magnitude - 1) as nat),
        v == binary64::units(other),
    ensures
        v * d <= before * d < u * d,
        (before + u) * d == before * d + u * d,
{
    lemma_split(before, u, d);
    binary64::lemma_units_increase((magnitude - 1) as nat, magnitude);
    if other < magnitude - 1 {
        binary64::lemma_units_increase(other, (magnitude - 1) as nat);
    }
    assert(v * d <= before * d < u * d) by (nonlinear_arith)
        requires
            d > 0,
            v <= before < u,
    ;
}

/// The powers of ten.
pub proof fn law_powers_of_ten(exponent: nat)
    ensures
        power::pow10(exponent) == vstd::arithmetic::power::pow(10, exponent),
    decreases exponent,
{
    reveal(vstd::arithmetic::power::pow);
    if exponent > 0 {
        law_powers_of_ten((exponent - 1) as nat);
    }
}

/// Two numbers that are finite are equal exactly if they have the same value. Infinities are equal
/// if their signs are, and a NaN equals nothing.
pub proof fn law_equal_reals(a: Real, b: Real)
    ensures
        a.finite() && b.finite() ==> (a.equals(b) <==> a.signed_units() == b.signed_units()),
        a.infinite() && b.infinite() ==> (a.equals(b) <==> a.negative() == b.negative()),
        a.finite() && b.infinite() || a.infinite() && b.finite() ==> !a.equals(b),
        a.nan() || b.nan() ==> !a.equals(b),
{
    law_values_increase(a.magnitude(), b.magnitude());
    law_values_increase(b.magnitude(), a.magnitude());
    law_values_of_magnitudes(0);
    law_values_increase(0, a.magnitude());
    law_values_increase(0, b.magnitude());
}

/// The sum of finite numbers is the number nearest to the exact sum, with the sign of the exact
/// sum. An infinite summand is the sum, and only a NaN or infinities of different signs give a NaN.
pub proof fn law_sum(a: Real, b: Real)
    ensures
        real_arith::sum_of(a, b).nan() <==> a.nan() || b.nan() || a.infinite() && b.infinite()
            && a.negative() != b.negative(),
        a.infinite() && !real_arith::sum_of(a, b).nan() ==> real_arith::sum_of(a, b) == a,
        b.infinite() && !real_arith::sum_of(a, b).nan() ==> real_arith::sum_of(a, b) == b,
        a.finite() && b.finite() ==> ({
            let total = a.signed_units() + b.signed_units();
            let sum = real_arith::sum_of(a, b);
            &&& rounding::rounds_to(abs(total), 1, sum.magnitude())
            &&& total < 0 ==> sum.negative()
            &&& total > 0 ==> !sum.negative()
            &&& total == 0 ==> sum.negative() == (a.negative() && b.negative())
        }),
        real_arith::sum_of(a, b) == real_arith::sum_of(b, a),
{
    let total = a.signed_units() + b.signed_units();
    rounding::law_nearest_rounds(abs(total), 1);
    rounding::lemma_round_zero(1);
}

/// The difference of finite numbers is the number nearest to the exact difference, with the sign
/// of the exact difference. Subtracting is adding the opposite, and exchanging the two numbers
/// turns the sign of a difference that is not zero.
pub proof fn law_difference(a: Real, b: Real)
    ensures
        real_arith::difference_of(a, b).nan() <==> a.nan() || b.nan() || a.infinite()
            && b.infinite() && a.negative() == b.negative(),
        a.infinite() && !real_arith::difference_of(a, b).nan() ==> real_arith::difference_of(a, b)
            == a,
        b.infinite() && !real_arith::difference_of(a, b).nan() ==> ({
            let difference = real_arith::difference_of(a, b);
            difference.infinite() && difference.negative() == !b.negative()
        }),
        a.finite() && b.finite() ==> ({
            let total = a.signed_units() - b.signed_units();
            let difference = real_arith::difference_of(a, b);
            &&& rounding::rounds_to(abs(total), 1, difference.magnitude())
            &&& total < 0 ==> difference.negative()
            &&& total > 0 ==> !difference.negative()
            &&& total == 0 ==> difference.negative() == (a.negative() && !b.negative())
        }),
        real_arith::difference_of(a, b) == real_arith::sum_of(a, b.opposite()),
        a.finite() && b.finite() && a.signed_units() != b.signed_units()
            ==> real_arith::difference_of(a, b) == real_arith::difference_of(b, a).opposite(),
{
    law_sum(a, b.opposite());
    law_sum(b, a.opposite());
    law_opposite(a);
    law_opposite(b);
    if a.finite() && b.finite() && a.signed_units() != b.signed_units() {
        let f = real_arith::difference_of(a, b);
        let g = real_arith::difference_of(b, a);
        rounding::lemma_rounds_to_unique(
            abs(a.signed_units() - b.signed_units()),
            1,
            f.magnitude(),
            g.magnitude(),
        );
    }
}

/// The product of finite numbers is the number nearest to the exact product. It is negative where
/// the signs of the factors differ.
pub proof fn law_product(a: Real, b: Real)
    ensures
        real_arith::product_of(a, b).nan() <==> a.nan() || b.nan() || a.infinite() && b.zero()
            || a.zero() && b.infinite(),
        !real_arith::product_of(a, b).nan() ==> real_arith::product_of(a, b).negative() == (
        a.negative() != b.negative()),
        !real_arith::product_of(a, b).nan() && (a.infinite() || b.infinite())
            ==> real_arith::product_of(a, b).infinite(),
        a.finite() && b.finite() ==> rounding::rounds_to(
            binary64::units(a.magnitude()) * binary64::units(b.magnitude()),
            binary64::one_in_units(),
            real_arith::product_of(a, b).magnitude(),
        ),
{
    rounding::law_nearest_rounds(
        binary64::units(a.magnitude()) * binary64::units(b.magnitude()),
        binary64::one_in_units(),
    );
}

/// The quotient of finite numbers, where the divisor is not zero, is the number nearest to the exact
/// quotient. It is negative where the signs differ, so that turning the sign of the dividend or of
/// the divisor turns the sign of the quotient.
pub proof fn law_quotient(a: Real, b: Real)
    ensures
        real_arith::quotient_of(a, b).nan() <==> a.nan() || b.nan() || a.infinite()
            && b.infinite() || a.zero() && b.zero(),
        !real_arith::quotient_of(a, b).nan() ==> real_arith::quotient_of(a, b).negative() == (
        a.negative() != b.negative()),
        !real_arith::quotient_of(a, b).nan() && (a.infinite() || b.zero())
            ==> real_arith::quotient_of(a, b).infinite(),
        a.finite() && b.infinite() ==> real_arith::quotient_of(a, b).zero(),
        a.finite() && b.finite() && !b.zero() ==> rounding::rounds_to(
            binary64::units(a.magnitude()) * binary64::one_in_units(),
            binary64::units(b.magnitude()),
            real_arith::quotient_of(a, b).magnitude(),
        ),
        !real_arith::quotient_of(a, b).nan() ==> {
            &&& real_arith::quotient_of(a.opposite(), b) == real_arith::quotient_of(
                a,
                b,
            ).opposite()
            &&& real_arith::quotient_of(a, b.opposite()) == real_arith::quotient_of(
                a,
                b,
            ).opposite()
        },
{
    rounding::law_nearest_rounds(
        binary64::units(a.magnitude()) * binary64::one_in_units(),
        binary64::units(b.magnitude()),
    );
    law_opposite(a);
    law_opposite(b);
}

/// The real number of an integer is the one nearest to it, and has its sign.
pub proof fn law_real_of_integer(integer: i64)
    ensures
        rounding::rounds_to(
            abs(integer as int) * binary64::one_in_units(),
            1,
            real_arith::of_integer(integer as int).magnitude(),
        ),
        real_arith::of_integer(integer as int).negative() <==> integer < 0,
{
    rounding::law_nearest_rounds(abs(integer as int) * binary64::one_in_units(), 1);
}

/// The integer part has the sign of the number and is the largest integer that does not exceed it in
/// size, as far as the integers reach. A NaN has the integer part zero.
pub proof fn law_integer_part(f: Real)
    ensures
        f.nan() ==> real_arith::integer_part(f) == 0,
        !f.nan() && !f.negative() ==> ({
            let part = real_arith::integer_part(f);
            let one = binary64::one_in_units();
            &&& part >= 0
            &&& part * one <= binary64::units(f.magnitude())
            &&& binary64::units(f.magnitude()) < (part + 1) * one || part == i64::MAX
        }),
        !f.nan() && f.negative() ==> ({
            let part = real_arith::integer_part(f);
            let one = binary64::one_in_units();
            &&& part <= 0
            &&& -part * one <= binary64::units(f.magnitude())
            &&& binary64::units(f.magnitude()) < (1 - part) * one || part == i64::MIN
        }),
{
    let one = binary64::one_in_units() as int;
    let u = binary64::units(f.magnitude()) as int;
    let whole = u / one;
    let part = real_arith::integer_part(f);
    lemma_pow2_pos(binary64::UNIT_EXPONENT as nat);
    lemma_fundamental_div_mod(u, one);
    lemma_mod_bound(u, one);
    lemma_div_pos_is_pos(u, one);
    assert(whole * one <= u < (whole + 1) * one) by (nonlinear_arith)
        requires
            u == one * whole + u % one,
            0 <= u % one < one,
    ;
    let size: int = if part < 0 {
        -part
    } else {
        part as int
    };
    assert(size * one <= whole * one) by (nonlinear_arith)
        requires
            size <= whole,
            one > 0,
    ;
}

} // verus!
