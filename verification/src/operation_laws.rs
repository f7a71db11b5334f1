use crate::arith;
use crate::binary64;
use crate::binary64::Real;
use crate::bitwise;
use crate::concat;
use crate::logic;
use crate::numeric_text;
use crate::real_arith;
use crate::real_laws;
use crate::render;
use crate::rounding;
use crate::value;
use crate::value::{Operand, OwnedValue, Text};
use vstd::arithmetic::div_mod::*;
use vstd::arithmetic::power2::*;
use vstd::math::abs;
use vstd::prelude::*;
use vstd::std_specs::cmp::PartialEqSpec;

verus! {

/// What an operation sees of a value: NULL, a number or a blob as such, and a text as the number
/// that it reads as.
pub proof fn law_operand_of_value(value: OwnedValue)
    ensures
        value is Null <==> value.operand_spec() is Null,
        value is Blob <==> value.operand_spec() is Blob,
        value matches OwnedValue::Integer(i) ==> value.operand_spec() == Operand::Integer(i),
        value matches OwnedValue::Float(f) ==> value.operand_spec() == Operand::Float(f),
        value matches OwnedValue::Text(text) ==> {
            ||| numeric_text::numeric_value(text@) matches OwnedValue::Integer(i)
                && value.operand_spec() == Operand::Integer(i)
            ||| numeric_text::numeric_value(text@) matches OwnedValue::Float(f)
                && value.operand_spec() == Operand::Float(f)
        },
{
}

/// A number as a real number, as an integer, and compared with zero.
pub proof fn law_readings_of_number(operand: Operand)
    ensures
        operand matches Operand::Integer(i) ==> {
            &&& operand.real_spec() == real_arith::of_integer(i as int)
            &&& operand.integer_spec() == i
            &&& operand.is_zero_spec() <==> i == 0
        },
        operand matches Operand::Float(f) ==> {
            &&& operand.real_spec() == f
            &&& operand.integer_spec() == real_arith::integer_part(f)
            &&& operand.is_zero_spec() <==> f.magnitude() == 0
        },
        operand is Null || operand is Blob ==> !operand.is_zero_spec() && !operand.is_number(),
        operand is Integer || operand is Float ==> operand.is_number(),
{
}

/// Two integers whose sum, difference or product is an integer in range give that integer.
pub proof fn law_integer_results(a: i64, b: i64)
    ensures
        i64::MIN <= a + b <= i64::MAX ==> (arith::added(Operand::Integer(a), Operand::Integer(b))
            matches OwnedValue::Integer(n) && n == a + b),
        i64::MIN <= a - b <= i64::MAX ==> (arith::subtracted(
            Operand::Integer(a),
            Operand::Integer(b),
        ) matches OwnedValue::Integer(n) && n == a - b),
        i64::MIN <= a * b <= i64::MAX ==> (arith::multiplied(
            Operand::Integer(a),
            Operand::Integer(b),
        ) matches OwnedValue::Integer(n) && n == a * b),
{
}

/// Where no integer is the sum, the sum is the real number nearest to the sum of the two numbers as
/// reals, with the sign of that sum. An infinite summand decides, and NULL stands for no number.
pub proof fn law_real_sums(a: Operand, b: Operand)
    requires
        a.is_number(),
        b.is_number(),
        !(a matches Operand::Integer(i) && b matches Operand::Integer(j) && i64::MIN <= i + j
            <= i64::MAX),
    ensures
        ({
            let x = a.real_spec();
            let y = b.real_spec();
            let total = x.signed_units() + y.signed_units();
            let invalid = x.nan() || y.nan() || x.infinite() && y.infinite() && x.negative()
                != y.negative();
            &&& invalid ==> arith::added(a, b) is Null
            &&& !invalid && x.infinite() ==> arith::added(a, b) == OwnedValue::Float(x)
            &&& !invalid && y.infinite() ==> arith::added(a, b) == OwnedValue::Float(y)
            &&& x.finite() && y.finite() ==> (arith::added(a, b) matches OwnedValue::Float(f) && {
                &&& rounding::rounds_to(abs(total), 1, f.magnitude())
                &&& total < 0 ==> f.negative()
                &&& total > 0 ==> !f.negative()
                &&& total == 0 ==> f.negative() == (x.negative() && y.negative())
            })
        }),
{
    real_laws::law_sum(a.real_spec(), b.real_spec());
}

/// Where no integer is the difference, the difference is the real number nearest to the difference
/// of the two numbers as reals, with the sign of that difference, whatever the signs of the two.
pub proof fn law_real_differences(a: Operand, b: Operand)
    requires
        a.is_number(),
        b.is_number(),
        !(a matches Operand::Integer(i) && b matches Operand::Integer(j) && i64::MIN <= i - j
            <= i64::MAX),
    ensures
        ({
            let x = a.real_spec();
            let y = b.real_spec();
            let total = x.signed_units() - y.signed_units();
            let invalid = x.nan() || y.nan() || x.infinite() && y.infinite() && x.negative()
                == y.negative();
            &&& invalid ==> arith::subtracted(a, b) is Null
            &&& !invalid && x.infinite() ==> arith::subtracted(a, b) == OwnedValue::Float(x)
            &&& !invalid && y.infinite() ==> (arith::subtracted(a, b) matches OwnedValue::Float(f)
                && f.infinite() && f.negative() == !y.negative())
            &&& x.finite() && y.finite() ==> (arith::subtracted(a, b) matches OwnedValue::Float(f)
                && {
                &&& rounding::rounds_to(abs(total), 1, f.magnitude())
                &&& total < 0 ==> f.negative()
                &&& total > 0 ==> !f.negative()
                &&& total == 0 ==> f.negative() == (x.negative() && !y.negative())
            })
        }),
{
    real_laws::law_difference(a.real_spec(), b.real_spec());
}

/// Subtracting a real number is adding its opposite, and exchanging two numbers of which one is real
/// turns the sign of a difference that is not zero.
pub proof fn law_subtract_is_add_opposite(a: Operand, f: Real)
    requires
        a.is_number(),
    ensures
        arith::subtracted(a, Operand::Float(f)) == arith::added(a, Operand::Float(f.opposite())),
        a.real_spec().finite() && f.finite() && a.real_spec().signed_units() != f.signed_units()
            ==> (arith::subtracted(a, Operand::Float(f)) matches OwnedValue::Float(g)
            && arith::subtracted(Operand::Float(f), a) == OwnedValue::Float(g.opposite())),
{
    real_laws::law_difference(a.real_spec(), f);
    real_laws::law_difference(f, a.real_spec());
    real_laws::law_opposite(real_arith::difference_of(a.real_spec(), f));
}

/// Where no integer is the product, the product is the real number nearest to the product of the two
/// numbers as reals, and negative where their signs differ.
pub proof fn law_real_products(a: Operand, b: Operand)
    requires
        a.is_number(),
        b.is_number(),
        !(a matches Operand::Integer(i) && b matches Operand::Integer(j) && i64::MIN <= i * j
            <= i64::MAX),
    ensures
        ({
            let x = a.real_spec();
            let y = b.real_spec();
            let invalid = x.nan() || y.nan() || x.infinite() && y.zero() || x.zero()
                && y.infinite();
            &&& invalid ==> arith::multiplied(a, b) is Null
            &&& !invalid ==> (arith::multiplied(a, b) matches OwnedValue::Float(f) && {
                &&& f.negative() == (x.negative() != y.negative())
                &&& x.infinite() || y.infinite() ==> f.infinite()
                &&& x.finite() && y.finite() ==> rounding::rounds_to(
                    binary64::units(x.magnitude()) * binary64::units(y.magnitude()),
                    binary64::one_in_units(),
                    f.magnitude(),
                )
            })
        }),
{
    real_laws::law_product(a.real_spec(), b.real_spec());
}

/// Where the divisor is not zero and the two are not integers with an integer quotient, the quotient
/// is the real number nearest to the quotient of the two numbers as reals, and negative where their
/// signs differ.
pub proof fn law_real_quotients(a: Operand, b: Operand)
    requires
        a.is_number(),
        b.is_number(),
        !b.is_zero_spec(),
        !(a is Integer && b is Integer) || a == Operand::Integer(i64::MIN) && b
            == Operand::Integer((-1) as i64),
    ensures
        ({
            let x = a.real_spec();
            let y = b.real_spec();
            let invalid = x.nan() || y.nan() || x.infinite() && y.infinite() || x.zero()
                && y.zero();
            &&& invalid ==> arith::divided(a, b) is Null
            &&& !invalid ==> (arith::divided(a, b) matches OwnedValue::Float(f) && {
                &&& f.negative() == (x.negative() != y.negative())
                &&& x.infinite() ==> f.infinite()
                &&& x.finite() && y.infinite() ==> f.zero()
                &&& x.finite() && y.finite() && !y.zero() ==> rounding::rounds_to(
                    binary64::units(x.magnitude()) * binary64::one_in_units(),
                    binary64::units(y.magnitude()),
                    f.magnitude(),
                )
            })
        }),
{
    real_laws::law_quotient(a.real_spec(), b.real_spec());
    if a is Integer {
        assert(0x8000_0000_0000_0000int / (-1int) == -0x8000_0000_0000_0000int);
    }
}

/// Turning the sign of a real dividend or of a real divisor turns the sign of the quotient.
pub proof fn law_quotient_of_opposite(f: Real, b: Operand)
    requires
        b.is_number(),
        !f.zero(),
    ensures
        arith::divided(Operand::Float(f), b) matches OwnedValue::Float(q) ==> arith::divided(
            Operand::Float(f.opposite()),
            b,
        ) == OwnedValue::Float(q.opposite()),
        arith::divided(Operand::Float(f), b) is Null ==> arith::divided(
            Operand::Float(f.opposite()),
            b,
        ) is Null,
        arith::divided(b, Operand::Float(f)) matches OwnedValue::Float(q) ==> arith::divided(
            b,
            Operand::Float(f.opposite()),
        ) == OwnedValue::Float(q.opposite()),
{
    real_laws::law_opposite(f);
    real_laws::law_quotient(f, b.real_spec());
    real_laws::law_quotient(f.opposite(), b.real_spec());
    real_laws::law_quotient(b.real_spec(), f);
    real_laws::law_quotient(b.real_spec(), f.opposite());
}

/// The remainder of two integers has the sign of the dividend, is smaller in size than the divisor,
/// and leaves a multiple of the divisor when it is taken from the dividend.
pub proof fn law_integer_remainders(a: i64, b: i64)
    requires
        b != 0,
    ensures
        arith::remaindered(Operand::Integer(a), Operand::Integer(b)) matches OwnedValue::Integer(r)
            && {
            &&& (a - r) % (b as int) == 0
            &&& abs(r as int) < abs(b as int)
            &&& a >= 0 ==> r >= 0
            &&& a <= 0 ==> r <= 0
        },
{
    let x = abs(a as int) as int;
    let d = abs(b as int) as int;
    let r = if a >= 0 {
        x % d
    } else {
        -(x % d)
    };
    arith::lemma_opposite_divisor(x, d);
    lemma_fundamental_div_mod(x, d);
    lemma_mod_bound(x, d);
    let q = x / d;
    let k = if a >= 0 {
        q
    } else {
        -q
    };
    assert(a - r == k * d) by (nonlinear_arith)
        requires
            a as int == if a >= 0 {
                x
            } else {
                -x
            },
            x == d * q + x % d,
            r == if a >= 0 {
                x % d
            } else {
                -(x % d)
            },
            k == if a >= 0 {
                q
            } else {
                -q
            },
    ;
    lemma_mod_multiples_basic(k, d);
    arith::lemma_opposite_divisor(a - r, d);
}

/// The remainder of two numbers of which one is real is the remainder of their integer parts, as a
/// real number; NULL where the integer part of the divisor is zero.
pub proof fn law_real_remainders(a: Operand, b: Operand)
    requires
        a.is_number(),
        b.is_number(),
        a is Float || b is Float,
    ensures
        b.integer_spec() == 0 ==> arith::remaindered(a, b) is Null,
        b.integer_spec() != 0 ==> (arith::remaindered(
            Operand::Integer(a.integer_spec()),
            Operand::Integer(b.integer_spec()),
        ) matches OwnedValue::Integer(r) && arith::remaindered(a, b) == OwnedValue::Float(
            real_arith::of_integer(r as int),
        )),
{
    if let Operand::Float(f) = b {
        if f.zero() {
            real_laws::law_values_of_magnitudes(0);
            lemma_pow2_pos(binary64::UNIT_EXPONENT as nat);
            lemma_div_basics(binary64::one_in_units() as int);
        }
    }
    if b.integer_spec() != 0 {
        law_integer_remainders(a.integer_spec(), b.integer_spec());
    }
}

/// The bitwise operations on numbers are those of the machine on their integers.
pub proof fn law_bits_of_numbers(a: Operand, b: Operand)
    requires
        a.is_number(),
        b.is_number(),
    ensures
        bitwise::bits_in_both(a, b) == OwnedValue::Integer(a.integer_spec() & b.integer_spec()),
        bitwise::bits_in_either(a, b) == OwnedValue::Integer(a.integer_spec() | b.integer_spec()),
        bitwise::bits_inverted(a) == OwnedValue::Integer(!a.integer_spec()),
{
    let x = a.integer_spec();
    let y = b.integer_spec();
    real_laws::law_values_of_magnitudes(0);
    lemma_pow2_pos(binary64::UNIT_EXPONENT as nat);
    lemma_div_basics(binary64::one_in_units() as int);
    assert(0i64 & y == 0 && x & 0i64 == 0 && !x == -1 - x) by (bit_vector);
}

/// Zero makes the bitwise AND zero, also beside a blob.
pub proof fn law_zero_clears_bits(a: Operand, b: Operand)
    requires
        !(a is Null || b is Null),
        a.is_zero_spec() || b.is_zero_spec(),
    ensures
        bitwise::bits_in_both(a, b) == OwnedValue::Integer(0),
{
}

/// A shift of an integer by fewer places than a word has is the shift of the machine. To the left,
/// the result is the integer times a power of two, as far as that fits; to the right, it is the
/// integer divided by that power and rounded down, also where bits are lost.
pub proof fn law_shifts_within_a_word(a: i64, count: i64)
    requires
        0 <= count < 64,
    ensures
        bitwise::shifted_left(Operand::Integer(a), Operand::Integer(count)) == OwnedValue::Integer(
            a << (count as u32),
        ),
        i64::MIN <= a * pow2(count as nat) <= i64::MAX ==> (bitwise::shifted_left(
            Operand::Integer(a),
            Operand::Integer(count),
        ) matches OwnedValue::Integer(r) && r == a * pow2(count as nat)),
        bitwise::shifted_right(Operand::Integer(a), Operand::Integer(count))
            == OwnedValue::Integer(a >> (count as u32)),
        bitwise::shifted_right(Operand::Integer(a), Operand::Integer(count)) matches
            OwnedValue::Integer(r) && r * pow2(count as nat) <= a < (r + 1) * pow2(count as nat),
{
    bitwise::lemma_left_shift(a, count as nat);
    bitwise::lemma_right_shift(a, count as nat);
    let p = pow2(count as nat) as int;
    lemma_pow2_pos(count as nat);
    lemma_fundamental_div_mod(a as int, p);
    lemma_mod_bound(a as int, p);
    let r = a as int / p;
    assert(r * p <= a < (r + 1) * p) by (nonlinear_arith)
        requires
            a == p * r + a as int % p,
            0 <= a as int % p < p,
    ;
    if count == 0 {
        lemma2_to64();
        assert(a * 1 == a && a as int / 1 == a);
    }
}

/// A shift by the width of a word or more leaves no bit to the left and the sign to the right, and
/// a negative count shifts the other way.
pub proof fn law_shifts_beyond_a_word(a: i64, count: i64)
    ensures
        count >= 64 ==> bitwise::shifted_left(Operand::Integer(a), Operand::Integer(count))
            == OwnedValue::Integer(0),
        count >= 64 ==> (bitwise::shifted_right(Operand::Integer(a), Operand::Integer(count))
            matches OwnedValue::Integer(r) && r == if a < 0 {
            -1int
        } else {
            0
        }),
        count <= -64 ==> bitwise::shifted_right(Operand::Integer(a), Operand::Integer(count))
            == OwnedValue::Integer(0),
        count <= -64 ==> (bitwise::shifted_left(Operand::Integer(a), Operand::Integer(count))
            matches OwnedValue::Integer(r) && r == if a < 0 {
            -1int
        } else {
            0
        }),
        -64 < count < 0 ==> bitwise::shifted_right(Operand::Integer(a), Operand::Integer(count))
            == OwnedValue::Integer(a << (-count as u32)),
        -64 < count < 0 ==> bitwise::shifted_left(Operand::Integer(a), Operand::Integer(count))
            == OwnedValue::Integer(a >> (-count as u32)),
{
    if count >= 64 {
        bitwise::lemma_wide_left_shift(a as int, count as nat);
        bitwise::lemma_wide_right_shift(a, count as nat);
    } else if count <= -64 {
        bitwise::lemma_wide_left_shift(a as int, -count as nat);
        bitwise::lemma_wide_right_shift(a, -count as nat);
    } else if count < 0 {
        bitwise::lemma_left_shift(a, -count as nat);
        bitwise::lemma_right_shift(a, -count as nat);
    }
}

/// Numbers are shifted by their integers.
pub proof fn law_shifts_of_numbers(a: Operand, b: Operand)
    requires
        a.is_number(),
        b.is_number(),
    ensures
        bitwise::shifted_left(a, b) == bitwise::shifted_left(
            Operand::Integer(a.integer_spec()),
            Operand::Integer(b.integer_spec()),
        ),
        bitwise::shifted_right(a, b) == bitwise::shifted_right(
            Operand::Integer(a.integer_spec()),
            Operand::Integer(b.integer_spec()),
        ),
{
}

/// The complement: one for a number that is zero, zero for any other number.
pub proof fn law_complement_of_number(a: Operand)
    ensures
        a matches Operand::Integer(i) ==> logic::complemented(a) == OwnedValue::Integer(
            if i == 0 {
                1
            } else {
                0
            },
        ),
        a matches Operand::Float(f) ==> logic::complemented(a) == OwnedValue::Integer(
            if f.magnitude() == 0 {
                1
            } else {
                0
            },
        ),
{
}

/// The logical AND. Zero makes it zero; without a zero, NULL makes it NULL; and otherwise it is one
/// unless a text reads as zero.
pub proof fn law_conjunction(a: OwnedValue, b: OwnedValue)
    ensures
        ({
            let zero = |v: OwnedValue|
                {
                    ||| v matches OwnedValue::Integer(i) && i == 0
                    ||| v matches OwnedValue::Float(f) && f.magnitude() == 0
                };
            let reads_zero = |v: OwnedValue|
                {
                    ||| zero(v)
                    ||| v matches OwnedValue::Text(text) && zero(
                        numeric_text::numeric_value(text@),
                    )
                };
            &&& zero(a) || zero(b) ==> logic::conjunction(a, b) == OwnedValue::Integer(0)
            &&& !zero(a) && !zero(b) && (a is Null || b is Null) ==> logic::conjunction(
                a,
                b,
            ) is Null
            &&& !(a is Null) && !(b is Null) && (reads_zero(a) || reads_zero(b))
                ==> logic::conjunction(a, b) == OwnedValue::Integer(0)
            &&& !(a is Null) && !(b is Null) && !reads_zero(a) && !reads_zero(b)
                ==> logic::conjunction(a, b) == OwnedValue::Integer(1)
        }),
{
}

/// The logical OR. A value that is neither NULL nor reads as zero makes it one; otherwise NULL makes
/// it NULL, and two zeros make it zero.
pub proof fn law_disjunction(a: OwnedValue, b: OwnedValue)
    ensures
        ({
            let zero = |v: OwnedValue|
                {
                    ||| v matches OwnedValue::Integer(i) && i == 0
                    ||| v matches OwnedValue::Float(f) && f.magnitude() == 0
                };
            let reads_zero = |v: OwnedValue|
                {
                    ||| zero(v)
                    ||| v matches OwnedValue::Text(text) && zero(
                        numeric_text::numeric_value(text@),
                    )
                };
            let result = logic::disjunction(a.operand_spec(), b.operand_spec());
            let holds = |v: OwnedValue| !(v is Null) && !reads_zero(v);
            &&& holds(a) || holds(b) ==> result == OwnedValue::Integer(1)
            &&& !holds(a) && !holds(b) && (a is Null || b is Null) ==> result is Null
            &&& reads_zero(a) && reads_zero(b) ==> result == OwnedValue::Integer(0)
        }),
{
}

/// Values of one kind are equal if what they hold is, an integer equals a real number if the real
/// number nearest to it does, and other values are not equal.
pub proof fn law_equal_values(a: OwnedValue, b: OwnedValue)
    ensures
        a is Null && b is Null ==> value::same_value(a, b),
        a matches OwnedValue::Integer(i) ==> {
            &&& b matches OwnedValue::Integer(j) ==> (value::same_value(a, b) <==> i == j)
            &&& b matches OwnedValue::Float(g) ==> (value::same_value(a, b)
                <==> real_arith::of_integer(i as int).equals(g))
        },
        a matches OwnedValue::Float(f) ==> {
            &&& b matches OwnedValue::Integer(j) ==> (value::same_value(a, b) <==> f.equals(
                real_arith::of_integer(j as int),
            ))
            &&& b matches OwnedValue::Float(g) ==> (value::same_value(a, b) <==> f.equals(g))
        },
        a matches OwnedValue::Text(s) ==> (b matches OwnedValue::Text(t) ==> (value::same_value(a, b)
            <==> s@ == t@)),
        a matches OwnedValue::Blob(s) ==> (b matches OwnedValue::Blob(t) ==> (value::same_value(a, b)
            <==> s@ == t@)),
        a is Null != b is Null || a is Text != b is Text || a is Blob != b is Blob
            ==> !value::same_value(a, b),
{
}

/// The operations take all values but blobs. A blob is taken beside NULL; as a dividend also above a
/// zero; and by the bitwise AND also beside a zero.
pub proof fn law_accepted_operands(a: OwnedValue, b: OwnedValue)
    ensures
        !(a is Blob) && !(b is Blob) ==> {
            &&& arith::blob_meets_null(a, b)
            &&& arith::can_divide(a.operand_spec(), b.operand_spec())
            &&& bitwise::can_intersect(a.operand_spec(), b.operand_spec())
        },
        !(a is Blob) && !(b is Blob) && !(a.operand_spec().is_number()
            && b.operand_spec().is_number() && a.operand_spec().integer_spec() == i64::MIN
            && b.operand_spec().integer_spec() == -1) ==> arith::has_remainder(a, b),
        a is Null || b is Null ==> {
            &&& arith::blob_meets_null(a, b)
            &&& arith::can_divide(a.operand_spec(), b.operand_spec())
            &&& arith::has_remainder(a, b)
            &&& bitwise::can_intersect(a.operand_spec(), b.operand_spec())
        },
        a is Blob && b.operand_spec().is_zero_spec() ==> {
            &&& arith::can_divide(a.operand_spec(), b.operand_spec())
            &&& bitwise::can_intersect(a.operand_spec(), b.operand_spec())
            &&& bitwise::can_intersect(b.operand_spec(), a.operand_spec())
        },
        a is Blob && b.operand_spec().is_zero_spec() && !(b is Text) ==> arith::has_remainder(
            a,
            b,
        ),
{
}

/// Joined values: NULL beside NULL; otherwise the two texts one after the other, where a text stands
/// for itself and a number for its decimal notation.
pub proof fn law_joined_values(a: OwnedValue, b: OwnedValue, joined: OwnedValue)
    requires
        concat::joins(a, b, joined),
    ensures
        a is Null || b is Null <==> joined is Null,
        !(a is Null || b is Null) ==> (joined matches OwnedValue::Text(text) && text@
            == concat::text_of(a) + concat::text_of(b)),
        a matches OwnedValue::Text(own) ==> concat::text_of(a) == own@,
        a matches OwnedValue::Integer(i) ==> concat::text_of(a) == render::integer_text(i as int),
        a matches OwnedValue::Float(f) ==> concat::text_of(a) == render::real_text(f),
        b matches OwnedValue::Text(own) ==> concat::text_of(b) == own@,
        b matches OwnedValue::Integer(i) ==> concat::text_of(b) == render::integer_text(i as int),
        b matches OwnedValue::Float(f) ==> concat::text_of(b) == render::real_text(f),
{
}

/// The operator for equality is the equality of values, and of real numbers the numeric one.
pub proof fn law_equality_operator(a: OwnedValue, b: OwnedValue, x: Real, y: Real)
    ensures
        PartialEqSpec::eq_spec(&a, &b) == value::same_value(a, b),
        PartialEqSpec::eq_spec(&x, &y) == x.equals(y),
{
}

/// A text is the characters of its string.
pub proof fn law_characters_of_text(text: Text)
    ensures
        text@ == text.value@,
{
}

} // verus!
