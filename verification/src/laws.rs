use crate::arith;
use crate::binary64;
use crate::bitwise;
use crate::concat;
use crate::logic;
use crate::numeric_text;
use crate::real_arith;
use crate::rounding;
use crate::value;
use crate::value::{Operand, OwnedValue, Text};
use vstd::arithmetic::div_mod::*;
use vstd::arithmetic::power2::*;
use vstd::prelude::*;

verus! {

/// NULL beside any operand makes the result of arithmetic and of the bitwise operations NULL, and
/// the complements of NULL are NULL.
pub proof fn law_null_propagates(a: Operand, b: Operand)
    requires
        a is Null || b is Null,
    ensures
        arith::added(a, b) is Null,
        arith::subtracted(a, b) is Null,
        arith::multiplied(a, b) is Null,
        arith::divided(a, b) is Null,
        arith::remaindered(a, b) is Null,
        bitwise::bits_in_both(a, b) is Null,
        bitwise::bits_in_either(a, b) is Null,
        bitwise::shifted_left(a, b) is Null,
        bitwise::shifted_right(a, b) is Null,
        a is Null ==> bitwise::bits_inverted(a) is Null,
        a is Null ==> logic::complemented(a) is Null,
{
}

/// Division by zero and its remainder are NULL.
pub proof fn law_division_by_zero(a: Operand, b: Operand)
    requires
        b.is_zero_spec(),
    ensures
        arith::divided(a, b) is Null,
        arith::remaindered(a, b) is Null,
{
}

/// Addition does not depend on the order of the operands.
pub proof fn law_add_commutes(a: Operand, b: Operand)
    ensures
        arith::added(a, b) == arith::added(b, a),
{
}

/// Multiplication does not depend on the order of the operands.
pub proof fn law_multiply_commutes(a: Operand, b: Operand)
    ensures
        arith::multiplied(a, b) == arith::multiplied(b, a),
{
    let x = binary64::units(a.real_spec().magnitude());
    let y = binary64::units(b.real_spec().magnitude());
    assert(x * y == y * x) by (nonlinear_arith);
    if let (Operand::Integer(i), Operand::Integer(j)) = (a, b) {
        assert(i * j == j * i) by (nonlinear_arith);
    }
}

/// Subtracting what was added gives an integer back, as long as the sum is an integer.
pub proof fn law_subtract_undoes_add(a: i64, b: i64)
    requires
        arith::added(Operand::Integer(a), Operand::Integer(b)) is Integer,
    ensures
        arith::subtracted(
            arith::added(Operand::Integer(a), Operand::Integer(b)).operand_spec(),
            Operand::Integer(b),
        ) == OwnedValue::Integer(a),
{
}

/// A text takes part in arithmetic as the number that it reads as, and it always reads as one.
pub proof fn law_text_counts_as_number(text: Text)
    ensures
        OwnedValue::Text(text).operand_spec().is_number(),
        OwnedValue::Text(text).operand_spec() == numeric_text::numeric_value(text@).operand_spec(),
{
}

/// A magnitude that is worth `n` steps of `2^e` units.
proof fn lemma_whole_magnitude(n: nat, e: nat) -> (magnitude: nat)
    requires
        0 < n <= 2 * binary64::BINADE,
        e <= binary64::UNIT_EXPONENT,
    ensures
        magnitude < binary64::INFINITE_MAGNITUDE,
        binary64::units(magnitude) == n * pow2(e),
    decreases e,
{
    if n >= binary64::BINADE || e == 0 {
        binary64::lemma_encode(e, n);
        e * (binary64::BINADE as nat) + n
    } else {
        lemma_pow2_unfold(e);
        assert((2 * n) * pow2((e - 1) as nat) == n * pow2(e)) by (nonlinear_arith)
            requires
                pow2(e) == 2 * pow2((e - 1) as nat),
        ;
        lemma_whole_magnitude(2 * n, (e - 1) as nat)
    }
}

/// Integers up to two to the power of 53 are real numbers exactly, and converting one to a real
/// number and back gives it again.
pub proof fn law_small_integers_are_exact(integer: i64)
    requires
        -2 * binary64::BINADE <= integer <= 2 * binary64::BINADE,
    ensures
        real_arith::of_integer(integer as int).finite(),
        real_arith::of_integer(integer as int).signed_units() == integer
            * binary64::one_in_units(),
        real_arith::integer_part(real_arith::of_integer(integer as int)) == integer,
{
    let one = binary64::one_in_units();
    let n: nat = if integer < 0 {
        -(integer as int) as nat
    } else {
        integer as nat
    };
    lemma_pow2_pos(binary64::UNIT_EXPONENT as nat);
    if n == 0 {
        assert(0 * one == 0);
        rounding::lemma_round_zero(1);
        rounding::lemma_nearest_is(0, 1, 0);
        lemma_zero_is_zero(Operand::Float(real_arith::of_integer(0)));
        assert(0 * pow2(0) == 0);
    } else {
        let magnitude = lemma_whole_magnitude(n, binary64::UNIT_EXPONENT as nat);
        assert((n * one) * 1 == n * one);
        rounding::lemma_rounds_to_self(1, magnitude);
        rounding::lemma_nearest_is(n * one, 1, magnitude);
        lemma_div_by_multiple(n as int, one as int);
        assert(integer * one == if integer < 0 {
            -(n * one)
        } else {
            (n * one) as int
        }) by (nonlinear_arith)
            requires
                integer == if integer < 0 {
                    -(n as int)
                } else {
                    n as int
                },
        ;
    }
}

/// The quotient and the remainder of two integers belong together: the quotient times the divisor
/// and the remainder make up the dividend, and the remainder is smaller than the divisor and has
/// the sign of the dividend.
pub proof fn law_quotient_and_remainder(a: i64, b: i64)
    requires
        b != 0,
        !(a == i64::MIN && b == -1),
    ensures
        arith::divided(Operand::Integer(a), Operand::Integer(b)) matches OwnedValue::Integer(q)
            && arith::remaindered(Operand::Integer(a), Operand::Integer(b)) matches
            OwnedValue::Integer(r) && {
            &&& a == b * q + r
            &&& arith::absolute(r as int) < arith::absolute(b as int)
            &&& a >= 0 ==> r >= 0
            &&& a <= 0 ==> r <= 0
        },
{
    let x = arith::absolute(a as int);
    let d = arith::absolute(b as int);
    let q = x / d;
    arith::lemma_opposite_divisor(x, d);
    lemma_fundamental_div_mod(x, d);
    lemma_mod_bound(x, d);
    assert((-d) * (-q) == d * q && d * (-q) == -(d * q) && (-d) * q == -(d * q))
        by (nonlinear_arith);
    assert(0 <= q <= x) by (nonlinear_arith)
        requires
            d >= 1,
            x == d * q + x % d,
            0 <= x % d < d,
            x >= 0,
    ;
    if d >= 2 && q > 0 {
        assert(d * q >= 2 * q) by (nonlinear_arith)
            requires
                d >= 2,
                q > 0,
        ;
    }
}

/// The bitwise AND and OR do not depend on the order of the operands.
pub proof fn law_bits_commute(a: Operand, b: Operand)
    ensures
        bitwise::bits_in_both(a, b) == bitwise::bits_in_both(b, a),
        bitwise::bits_in_either(a, b) == bitwise::bits_in_either(b, a),
{
    let x = a.integer_spec();
    let y = b.integer_spec();
    assert(x & y == y & x && x | y == y | x) by (bit_vector);
}

/// Inverting the bits of an integer twice gives it back.
pub proof fn law_invert_twice(a: i64)
    ensures
        bitwise::bits_inverted(bitwise::bits_inverted(Operand::Integer(a)).operand_spec())
            == OwnedValue::Integer(a),
{
}

/// The bitwise complement of an AND is the OR of the complements, and the other way round.
pub proof fn law_bits_complement(a: Operand, b: Operand)
    requires
        !(a is Blob),
        !(b is Blob),
    ensures
        bitwise::bits_inverted(bitwise::bits_in_both(a, b).operand_spec())
            == bitwise::bits_in_either(
            bitwise::bits_inverted(a).operand_spec(),
            bitwise::bits_inverted(b).operand_spec(),
        ),
        bitwise::bits_inverted(bitwise::bits_in_either(a, b).operand_spec())
            == bitwise::bits_in_both(
            bitwise::bits_inverted(a).operand_spec(),
            bitwise::bits_inverted(b).operand_spec(),
        ),
{
    let x = a.integer_spec();
    let y = b.integer_spec();
    let m = (-1 - x) as i64;
    let n = (-1 - y) as i64;
    if a.is_number() && a.is_zero_spec() {
        lemma_zero_is_zero(a);
    }
    if b.is_number() && b.is_zero_spec() {
        lemma_zero_is_zero(b);
    }
    assert(-1 - (x & y) == (m | n) && -1 - (x | y) == (m & n)) by (bit_vector)
        requires
            m == -1 - x,
            n == -1 - y,
    ;
    assert(0i64 & y == 0 && x & 0i64 == 0 && 0i64 & n == 0 && m & 0i64 == 0) by (bit_vector);
}

/// The integer part of zero is zero.
proof fn lemma_zero_is_zero(a: Operand)
    requires
        a.is_zero_spec(),
    ensures
        a.integer_spec() == 0,
{
    if let Operand::Float(f) = a {
        assert(binary64::units(0) == 0) by {
            assert(0 * pow2(0) == 0);
        }
        lemma_pow2_pos(binary64::UNIT_EXPONENT as nat);
        lemma_div_basics(binary64::one_in_units() as int);
    }
}

/// A shift to the right is a shift to the left by the opposite count.
pub proof fn law_shifts_mirror(a: Operand, count: i64)
    requires
        count != i64::MIN,
    ensures
        bitwise::shifted_right(a, Operand::Integer(count)) == bitwise::shifted_left(
            a,
            Operand::Integer((-count) as i64),
        ),
{
}

/// A shift by nothing changes nothing.
pub proof fn law_shift_by_zero(a: i64)
    ensures
        bitwise::shifted_left(Operand::Integer(a), Operand::Integer(0)) == OwnedValue::Integer(a),
        bitwise::shifted_right(Operand::Integer(a), Operand::Integer(0)) == OwnedValue::Integer(a),
{
    lemma2_to64();
    assert(a * pow2(0) == a);
}

/// A shift to the right undoes a shift to the left that loses no bit.
pub proof fn law_shift_undone(a: i64, count: i64)
    requires
        count >= 0,
        i64::MIN <= a * pow2(count as nat) <= i64::MAX,
    ensures
        bitwise::shifted_right(
            bitwise::shifted_left(Operand::Integer(a), Operand::Integer(count)).operand_spec(),
            Operand::Integer(count),
        ) == OwnedValue::Integer(a),
{
    lemma_pow2_pos(count as nat);
    let p = pow2(count as nat) as int;
    lemma_fundamental_div_mod_converse(a * p, p, a as int, 0);
    if count == 0 {
        lemma2_to64();
    }
}

/// The logical operations give one, zero or NULL.
pub proof fn law_truth_values(a: OwnedValue, b: OwnedValue)
    ensures
        logic::is_truth_value(logic::conjunction(a, b)),
        logic::is_truth_value(logic::disjunction(a.operand_spec(), b.operand_spec())),
        logic::is_truth_value(logic::complemented(a.operand_spec())),
{
}

/// The logical AND and OR do not depend on the order of the operands.
pub proof fn law_logic_commutes(a: OwnedValue, b: OwnedValue)
    ensures
        logic::conjunction(a, b) == logic::conjunction(b, a),
        logic::disjunction(a.operand_spec(), b.operand_spec()) == logic::disjunction(
            b.operand_spec(),
            a.operand_spec(),
        ),
{
}

/// The complement of an OR is the AND of the complements. The complement of an AND is the OR of the
/// complements, except where a text that reads as zero stands beside NULL.
pub proof fn law_logic_complement(a: OwnedValue, b: OwnedValue)
    requires
        !(a is Blob),
        !(b is Blob),
    ensures
        logic::complemented(
            logic::disjunction(a.operand_spec(), b.operand_spec()).operand_spec(),
        ) == logic::conjunction(
            logic::complemented(a.operand_spec()),
            logic::complemented(b.operand_spec()),
        ),
        !(a is Text && a.operand_spec().is_zero_spec() && b is Null) && !(b is Text
            && b.operand_spec().is_zero_spec() && a is Null) ==> logic::complemented(
            logic::conjunction(a, b).operand_spec(),
        ) == logic::disjunction(
            logic::complemented(a.operand_spec()).operand_spec(),
            logic::complemented(b.operand_spec()).operand_spec(),
        ),
{
}

/// The complement of the complement is the truth of a value.
pub proof fn law_complement_twice(a: Operand)
    requires
        !(a is Null),
    ensures
        logic::complemented(logic::complemented(a).operand_spec()) == logic::truth(
            !a.is_zero_spec(),
        ),
{
}

/// Joining is associative: the text of three joined values does not depend on which two are joined
/// first.
pub proof fn law_concat_associates(
    a: OwnedValue,
    b: OwnedValue,
    c: OwnedValue,
    first: OwnedValue,
    last: OwnedValue,
)
    requires
        concat::joins(a, b, first),
        concat::joins(b, c, last),
        !(a is Null || b is Null || c is Null),
    ensures
        concat::text_of(first) + concat::text_of(c) == concat::text_of(a) + concat::text_of(last),
{
    assert(concat::text_of(first) + concat::text_of(c) =~= concat::text_of(a) + concat::text_of(
        last,
    ));
}

/// Equality of values is symmetric, and every value but a NaN equals itself.
pub proof fn law_equality(a: OwnedValue, b: OwnedValue)
    ensures
        value::same_value(a, b) == value::same_value(b, a),
        value::same_value(a, a) <==> !(a matches OwnedValue::Float(f) && f.nan()),
{
}

} // verus!
