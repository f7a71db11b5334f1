use crate::binary64;
use crate::binary64::Real;
use crate::real_arith;
use crate::real_laws;
use crate::rounding;
use crate::value::{Operand, OwnedValue};
use vstd::arithmetic::div_mod::*;
use vstd::math::abs;
use vstd::pervasive::unreached;
use vstd::prelude::*;

verus! {

/// A blob takes part in an operation only beside NULL.
pub open spec fn blob_meets_null(lhs: OwnedValue, rhs: OwnedValue) -> bool {
    lhs is Blob || rhs is Blob ==> lhs is Null || rhs is Null
}

/// A real result; one that is not a number becomes NULL.
pub open spec fn real_or_null(value: Real) -> OwnedValue {
    if value.nan() {
        OwnedValue::Null
    } else {
        OwnedValue::Float(value)
    }
}

/// An integer result if it fits, and otherwise the given real one.
pub open spec fn integer_or_real(value: int, otherwise: Real) -> OwnedValue {
    if i64::MIN <= value <= i64::MAX {
        OwnedValue::Integer(value as i64)
    } else {
        real_or_null(otherwise)
    }
}

/// The sum of two operands: NULL beside NULL, an integer where two integers have a sum that fits,
/// and a real number otherwise.
pub open spec fn added(lhs: Operand, rhs: Operand) -> OwnedValue {
    let in_reals = real_arith::sum_of(lhs.real_spec(), rhs.real_spec());
    match (lhs, rhs) {
        (Operand::Null, _) => OwnedValue::Null,
        (_, Operand::Null) => OwnedValue::Null,
        (Operand::Integer(a), Operand::Integer(b)) => integer_or_real(a + b, in_reals),
        _ => real_or_null(in_reals),
    }
}

/// The difference of two operands, in the same way.
pub open spec fn subtracted(lhs: Operand, rhs: Operand) -> OwnedValue {
    let in_reals = real_arith::difference_of(lhs.real_spec(), rhs.real_spec());
    match (lhs, rhs) {
        (Operand::Null, _) => OwnedValue::Null,
        (_, Operand::Null) => OwnedValue::Null,
        (Operand::Integer(a), Operand::Integer(b)) => integer_or_real(a - b, in_reals),
        _ => real_or_null(in_reals),
    }
}

/// The product of two operands, in the same way.
pub open spec fn multiplied(lhs: Operand, rhs: Operand) -> OwnedValue {
    let in_reals = real_arith::product_of(lhs.real_spec(), rhs.real_spec());
    match (lhs, rhs) {
        (Operand::Null, _) => OwnedValue::Null,
        (_, Operand::Null) => OwnedValue::Null,
        (Operand::Integer(a), Operand::Integer(b)) => integer_or_real(a * b, in_reals),
        _ => real_or_null(in_reals),
    }
}

/// The quotient of two integers, rounded towards zero.
pub open spec fn truncated_quotient(a: int, b: int) -> int {
    if a >= 0 {
        a / b
    } else {
        -((-a) / b)
    }
}

/// What that division leaves.
pub open spec fn truncated_remainder(a: int, b: int) -> int {
    if a >= 0 {
        a % b
    } else {
        -((-a) % b)
    }
}

pub open spec fn absolute(value: int) -> int {
    if value < 0 {
        -value
    } else {
        value
    }
}

/// Turning the sign of the divisor turns the sign of the quotient and keeps the remainder.
pub proof fn lemma_opposite_divisor(x: int, d: int)
    requires
        d > 0,
    ensures
        x / (-d) == -(x / d),
        x % (-d) == x % d,
{
    let q = x / (-d);
    let r = x % (-d);
    lemma_fundamental_div_mod(x, -d);
    assert(0 <= x % (-d) < d) by (nonlinear_arith)
        requires
            d > 0,
    ;
    assert((-d) * q == (-q) * d) by (nonlinear_arith);
    lemma_fundamental_div_mod_converse(x, d, -q, r);
}

/// The quotient of two operands: NULL beside NULL and where the divisor is zero, the truncated
/// quotient of two integers if it fits, and a real number otherwise.
pub open spec fn divided(lhs: Operand, rhs: Operand) -> OwnedValue {
    let in_reals = real_arith::quotient_of(lhs.real_spec(), rhs.real_spec());
    if rhs.is_zero_spec() {
        OwnedValue::Null
    } else {
        match (lhs, rhs) {
            (Operand::Null, _) => OwnedValue::Null,
            (_, Operand::Null) => OwnedValue::Null,
            (Operand::Integer(a), Operand::Integer(b)) => integer_or_real(
                truncated_quotient(a as int, b as int),
                in_reals,
            ),
            _ => real_or_null(in_reals),
        }
    }
}

/// A blob can be divided by NULL or zero only, and only NULL by a blob.
pub open spec fn can_divide(lhs: Operand, rhs: Operand) -> bool {
    &&& lhs is Blob ==> rhs is Null || rhs.is_zero_spec()
    &&& rhs is Blob ==> lhs is Null
}

/// The remainder of dividing one operand by the other, both taken as integers: NULL beside NULL and
/// where the divisor is zero, and a real number unless both operands are integers.
pub open spec fn remaindered(lhs: Operand, rhs: Operand) -> OwnedValue {
    let a = lhs.integer_spec();
    let b = rhs.integer_spec();
    if lhs is Null || rhs is Null || rhs.is_zero_spec() || b == 0 {
        OwnedValue::Null
    } else {
        let remainder = truncated_remainder(a as int, b as int);
        if lhs is Integer && rhs is Integer {
            OwnedValue::Integer(remainder as i64)
        } else {
            OwnedValue::Float(real_arith::of_integer(remainder))
        }
    }
}

/// Beside a blob a remainder is defined only where NULL or a zero that is no text decides. The
/// smallest integer is not divided by minus one, unless a number is divided by a text.
pub open spec fn has_remainder(lhs: OwnedValue, rhs: OwnedValue) -> bool {
    let a = lhs.operand_spec();
    let b = rhs.operand_spec();
    &&& lhs is Blob ==> rhs is Null || !(rhs is Text) && b.is_zero_spec()
    &&& rhs is Blob ==> lhs is Null
    &&& a.is_number() && b.is_number() && a.integer_spec() == i64::MIN && b.integer_spec() == -1
        ==> rhs is Text && !(lhs is Text)
}

/// A real result; one that is not a number becomes NULL.
fn keep_number(value: Real) -> (result: OwnedValue)
    ensures
        result == real_or_null(value),
{
    if value.is_nan() {
        OwnedValue::Null
    } else {
        OwnedValue::Float(value)
    }
}

/// Adds two values.
pub fn exec_add(lhs: &OwnedValue, rhs: &OwnedValue) -> (result: OwnedValue)
    requires
        blob_meets_null(*lhs, *rhs),
    ensures
        result == added(lhs.operand_spec(), rhs.operand_spec()),
        !(result matches OwnedValue::Float(f) && f.nan()),
        *lhs matches OwnedValue::Integer(i) ==> (*rhs matches OwnedValue::Integer(j) ==> (i64::MIN
            <= i + j <= i64::MAX ==> (result matches OwnedValue::Integer(n) && n == i + j))),
        *lhs matches OwnedValue::Float(x) ==> (*rhs matches OwnedValue::Float(y) ==> (x.finite()
            && y.finite() ==> (result matches OwnedValue::Float(f) && {
            let total = x.signed_units() + y.signed_units();
            &&& rounding::rounds_to(abs(total), 1, f.magnitude())
            &&& total < 0 ==> f.negative()
            &&& total > 0 ==> !f.negative()
            &&& total == 0 ==> f.negative() == (x.negative() && y.negative())
        }))),
{
    let left: Operand = lhs.operand();
    let right: Operand = rhs.operand();
    proof {
        if let (Operand::Float(x), Operand::Float(y)) = (left, right) {
            real_laws::law_sum(x, y);
        }
    }
    match (left, right) {
        (Operand::Null, _) | (_, Operand::Null) => OwnedValue::Null,
        (Operand::Integer(a), Operand::Integer(b)) => match a.checked_add(b) {
            Some(sum) => OwnedValue::Integer(sum),
            None => keep_number(left.to_real().sum(&right.to_real())),
        },
        (Operand::Blob, _) | (_, Operand::Blob) => unreached(),
        _ => keep_number(left.to_real().sum(&right.to_real())),
    }
}

/// Subtracts the second value from the first.
pub fn exec_subtract(lhs: &OwnedValue, rhs: &OwnedValue) -> (result: OwnedValue)
    requires
        blob_meets_null(*lhs, *rhs),
    ensures
        result == subtracted(lhs.operand_spec(), rhs.operand_spec()),
        !(result matches OwnedValue::Float(f) && f.nan()),
        *lhs matches OwnedValue::Integer(i) ==> (*rhs matches OwnedValue::Integer(j) ==> (i64::MIN
            <= i - j <= i64::MAX ==> (result matches OwnedValue::Integer(n) && n == i - j))),
        *lhs matches OwnedValue::Float(x) ==> (*rhs matches OwnedValue::Float(y) ==> (x.finite()
            && y.finite() ==> (result matches OwnedValue::Float(f) && {
            let total = x.signed_units() - y.signed_units();
            &&& rounding::rounds_to(abs(total), 1, f.magnitude())
            &&& total < 0 ==> f.negative()
            &&& total > 0 ==> !f.negative()
            &&& total == 0 ==> f.negative() == (x.negative() && !y.negative())
        }))),
{
    let left: Operand = lhs.operand();
    let right: Operand = rhs.operand();
    proof {
        if let (Operand::Float(x), Operand::Float(y)) = (left, right) {
            real_laws::law_difference(x, y);
        }
    }
    match (left, right) {
        (Operand::Null, _) | (_, Operand::Null) => OwnedValue::Null,
        (Operand::Integer(a), Operand::Integer(b)) => match a.checked_sub(b) {
            Some(difference) => OwnedValue::Integer(difference),
            None => keep_number(left.to_real().difference(&right.to_real())),
        },
        (Operand::Blob, _) | (_, Operand::Blob) => unreached(),
        _ => keep_number(left.to_real().difference(&right.to_real())),
    }
}

/// Multiplies two values.
pub fn exec_multiply(lhs: &OwnedValue, rhs: &OwnedValue) -> (result: OwnedValue)
    requires
        blob_meets_null(*lhs, *rhs),
    ensures
        result == multiplied(lhs.operand_spec(), rhs.operand_spec()),
        !(result matches OwnedValue::Float(f) && f.nan()),
        *lhs matches OwnedValue::Integer(i) ==> (*rhs matches OwnedValue::Integer(j) ==> (i64::MIN
            <= i * j <= i64::MAX ==> (result matches OwnedValue::Integer(n) && n == i * j))),
        *lhs matches OwnedValue::Float(x) ==> (*rhs matches OwnedValue::Float(y) ==> (x.finite()
            && y.finite() ==> (result matches OwnedValue::Float(f) && {
            &&& f.negative() == (x.negative() != y.negative())
            &&& rounding::rounds_to(
                binary64::units(x.magnitude()) * binary64::units(y.magnitude()),
                binary64::one_in_units(),
                f.magnitude(),
            )
        }))),
{
    let left: Operand = lhs.operand();
    let right: Operand = rhs.operand();
    proof {
        if let (Operand::Float(x), Operand::Float(y)) = (left, right) {
            real_laws::law_product(x, y);
        }
    }
    match (left, right) {
        (Operand::Null, _) | (_, Operand::Null) => OwnedValue::Null,
        (Operand::Integer(a), Operand::Integer(b)) => match a.checked_mul(b) {
            Some(product) => OwnedValue::Integer(product),
            None => keep_number(left.to_real().product(&right.to_real())),
        },
        (Operand::Blob, _) | (_, Operand::Blob) => unreached(),
        _ => keep_number(left.to_real().product(&right.to_real())),
    }
}

/// Divides the first value by the second.
pub fn exec_divide(lhs: &OwnedValue, rhs: &OwnedValue) -> (result: OwnedValue)
    requires
        can_divide(lhs.operand_spec(), rhs.operand_spec()),
    ensures
        result == divided(lhs.operand_spec(), rhs.operand_spec()),
        !(result matches OwnedValue::Float(f) && f.nan()),
        *lhs matches OwnedValue::Float(x) ==> (*rhs matches OwnedValue::Float(y) ==> (x.finite()
            && y.finite() && !y.zero() ==> (result matches OwnedValue::Float(f) && {
            &&& f.negative() == (x.negative() != y.negative())
            &&& rounding::rounds_to(
                binary64::units(x.magnitude()) * binary64::one_in_units(),
                binary64::units(y.magnitude()),
                f.magnitude(),
            )
        }))),
{
    let left: Operand = lhs.operand();
    let right: Operand = rhs.operand();
    proof {
        if let (Operand::Float(x), Operand::Float(y)) = (left, right) {
            real_laws::law_quotient(x, y);
        }
    }
    if right.is_zero() {
        return OwnedValue::Null;
    }
    match (left, right) {
        (Operand::Null, _) | (_, Operand::Null) => OwnedValue::Null,
        (Operand::Integer(a), Operand::Integer(b)) => {
            proof {
                lemma_opposite_divisor(absolute(a as int), absolute(b as int));
            }
            match a.checked_div(b) {
                Some(quotient) => OwnedValue::Integer(quotient),
                None => keep_number(left.to_real().quotient(&right.to_real())),
            }
        },
        (Operand::Blob, _) | (_, Operand::Blob) => unreached(),
        _ => keep_number(left.to_real().quotient(&right.to_real())),
    }
}

/// The remainder of an integer division.
fn integer_remainder(a: i64, b: i64) -> (remainder: i64)
    requires
        b != 0,
    ensures
        remainder == truncated_remainder(a as int, b as int),
{
    proof {
        let x = absolute(a as int);
        let d = absolute(b as int);
        lemma_opposite_divisor(x, d);
        lemma_mod_bound(x, d);
        if d == 1 {
            assert(x % 1 == 0);
        }
    }
    match a.checked_rem(b) {
        Some(remainder) => remainder,
        None => 0,
    }
}

/// The remainder of dividing the first value by the second.
pub fn exec_remainder(lhs: &OwnedValue, rhs: &OwnedValue) -> (result: OwnedValue)
    requires
        has_remainder(*lhs, *rhs),
    ensures
        result == remaindered(lhs.operand_spec(), rhs.operand_spec()),
        !(result matches OwnedValue::Float(f) && f.nan()),
{
    let left: Operand = lhs.operand();
    let right: Operand = rhs.operand();
    if right.is_zero() {
        return OwnedValue::Null;
    }
    match (left, right) {
        (Operand::Null, _) | (_, Operand::Null) => OwnedValue::Null,
        (Operand::Integer(a), Operand::Integer(b)) => OwnedValue::Integer(
            integer_remainder(a, b),
        ),
        (Operand::Blob, _) | (_, Operand::Blob) => unreached(),
        _ => {
            let a: i64 = left.to_integer();
            let b: i64 = right.to_integer();
            if b == 0 {
                OwnedValue::Null
            } else {
                OwnedValue::Float(Real::from_integer(integer_remainder(a, b)))
            }
        },
    }
}

} // verus!
