use crate::arith;
use crate::operation_laws;
use crate::value::{Operand, OwnedValue};
use vstd::arithmetic::div_mod::*;
use vstd::arithmetic::power2::*;
use vstd::prelude::*;

verus! {

/// The bitwise AND of two operands, taken as integers. Zero decides also beside a blob.
pub open spec fn bits_in_both(lhs: Operand, rhs: Operand) -> OwnedValue {
    if lhs is Null || rhs is Null {
        OwnedValue::Null
    } else if lhs.is_zero_spec() || rhs.is_zero_spec() {
        OwnedValue::Integer(0)
    } else {
        OwnedValue::Integer(lhs.integer_spec() & rhs.integer_spec())
    }
}

/// A blob has a bitwise AND with NULL or zero only.
pub open spec fn can_intersect(lhs: Operand, rhs: Operand) -> bool {
    &&& lhs is Blob ==> rhs is Null || rhs.is_zero_spec()
    &&& rhs is Blob ==> lhs is Null || lhs.is_zero_spec()
}

/// The bitwise OR of two operands, taken as integers.
pub open spec fn bits_in_either(lhs: Operand, rhs: Operand) -> OwnedValue {
    if lhs is Null || rhs is Null {
        OwnedValue::Null
    } else {
        OwnedValue::Integer(lhs.integer_spec() | rhs.integer_spec())
    }
}

/// The bitwise complement of an operand, taken as an integer.
pub open spec fn bits_inverted(operand: Operand) -> OwnedValue {
    if operand is Null {
        OwnedValue::Null
    } else {
        OwnedValue::Integer((-1 - operand.integer_spec()) as i64)
    }
}

/// The integer in the 64-bit range that is congruent to `value`.
pub open spec fn wrapped(value: int) -> int {
    (value + 0x8000_0000_0000_0000) % 0x1_0000_0000_0000_0000 - 0x8000_0000_0000_0000
}

/// `value` times two to the power of `count`, wrapped; or, where `count` is negative, divided by
/// that power and rounded down.
pub open spec fn shifted(value: int, count: int) -> int {
    if count >= 0 {
        wrapped(value * pow2(count as nat))
    } else {
        value / (pow2(-count as nat) as int)
    }
}

/// The first operand shifted left by the second, both taken as integers.
pub open spec fn shifted_left(lhs: Operand, rhs: Operand) -> OwnedValue {
    if lhs is Null || rhs is Null {
        OwnedValue::Null
    } else {
        OwnedValue::Integer(
            shifted(lhs.integer_spec() as int, rhs.integer_spec() as int) as i64,
        )
    }
}

/// The first operand shifted right by the second, both taken as integers.
pub open spec fn shifted_right(lhs: Operand, rhs: Operand) -> OwnedValue {
    if lhs is Null || rhs is Null {
        OwnedValue::Null
    } else {
        OwnedValue::Integer(
            shifted(lhs.integer_spec() as int, -(rhs.integer_spec() as int)) as i64,
        )
    }
}

/// Wrapping before doubling does not change the wrapped result.
proof fn lemma_wrapped_twice(value: int)
    ensures
        wrapped(2 * wrapped(value)) == wrapped(2 * value),
{
    let half: int = 0x8000_0000_0000_0000;
    let full: int = 0x1_0000_0000_0000_0000;
    let quotient = (value + half) / full;
    lemma_fundamental_div_mod(value + half, full);
    assert(2 * wrapped(value) + half == full * (-2 * quotient) + (2 * value + half));
    lemma_mod_multiples_vanish(-2 * quotient, 2 * value + half, full);
}

/// A left shift multiplies by a power of two and wraps.
pub proof fn lemma_left_shift(value: i64, count: nat)
    requires
        count < 64,
    ensures
        (value << (count as u32)) == wrapped(value * pow2(count)),
    decreases count,
{
    if count == 0 {
        lemma2_to64();
        assert(value << 0u32 == value) by (bit_vector);
        assert(value * pow2(0) == value);
    } else {
        let fewer = (count - 1) as nat;
        lemma_left_shift(value, fewer);
        let places = fewer as u32;
        let part = value << places;
        assert(value << ((places + 1) as u32) == (value << places) << 1u32) by (bit_vector)
            requires
                0 <= places < 63,
        ;
        assert((places + 1) as u32 == count as u32);
        assert(part << 1u32 == if part >= 0x4000_0000_0000_0000 {
            2 * part - 0x1_0000_0000_0000_0000
        } else if part < -0x4000_0000_0000_0000 {
            2 * part + 0x1_0000_0000_0000_0000
        } else {
            2 * part
        }) by (bit_vector);
        lemma_pow2_unfold(count);
        assert(value * pow2(count) == 2 * (value * pow2(fewer))) by (nonlinear_arith)
            requires
                pow2(count) == 2 * pow2(fewer),
        ;
        lemma_wrapped_twice(value * pow2(fewer));
    }
}

/// A shift by the width of a word or more leaves no bit.
pub proof fn lemma_wide_left_shift(value: int, count: nat)
    requires
        count >= 64,
    ensures
        wrapped(value * pow2(count)) == 0,
{
    let half: int = 0x8000_0000_0000_0000;
    let full: int = 0x1_0000_0000_0000_0000;
    let rest = pow2((count - 64) as nat);
    lemma2_to64();
    lemma_pow2_adds(64, (count - 64) as nat);
    assert(value * (full * rest) == full * (value * rest)) by (nonlinear_arith);
    lemma_mod_multiples_vanish(value * rest, half, full);
}

/// A right shift that keeps the sign divides by a power of two and rounds down.
pub proof fn lemma_right_shift(value: i64, count: nat)
    requires
        count < 64,
    ensures
        (value >> (count as u32)) == value as int / pow2(count) as int,
    decreases count,
{
    if count == 0 {
        lemma2_to64();
        assert(value >> 0u32 == value) by (bit_vector);
        assert(value as int / pow2(0) as int == value);
    } else {
        let fewer = (count - 1) as nat;
        lemma_right_shift(value, fewer);
        let places = fewer as u32;
        let part = value >> places;
        assert(value >> ((places + 1) as u32) == (value >> places) >> 1u32) by (bit_vector)
            requires
                0 <= places < 63,
        ;
        assert((places + 1) as u32 == count as u32);
        let result = part >> 1u32;
        assert(2 * (part >> 1u32) <= part <= 2 * (part >> 1u32) + 1) by (bit_vector);
        let p = pow2(fewer) as int;
        lemma_pow2_pos(fewer);
        lemma_pow2_unfold(count);
        lemma_fundamental_div_mod(value as int, p);
        lemma_mod_bound(value as int, p);
        let remainder = value - 2 * p * result;
        assert(0 <= value - 2 * p * result < 2 * p) by (nonlinear_arith)
            requires
                p > 0,
                p * part <= value < p * part + p,
                2 * result <= part <= 2 * result + 1,
        ;
        assert(value == result * (2 * p) + remainder) by (nonlinear_arith)
            requires
                remainder == value - 2 * p * result,
        ;
        lemma_fundamental_div_mod_converse(value as int, 2 * p, result as int, remainder);
    }
}

/// A right shift by the width of a word or more leaves only the sign.
pub proof fn lemma_wide_right_shift(value: i64, count: nat)
    requires
        count >= 64,
    ensures
        value as int / pow2(count) as int == if value < 0 {
            -1int
        } else {
            0
        },
{
    let p = pow2(count) as int;
    lemma2_to64();
    if count > 64 {
        lemma_pow2_strictly_increases(64, count);
    }
    if value < 0 {
        lemma_fundamental_div_mod_converse(value as int, p, -1, value + p);
    } else {
        lemma_fundamental_div_mod_converse(value as int, p, 0, value as int);
    }
}

/// The bitwise AND of two values.
pub fn exec_bit_and(lhs: &OwnedValue, rhs: &OwnedValue) -> (result: OwnedValue)
    requires
        can_intersect(lhs.operand_spec(), rhs.operand_spec()),
    ensures
        result == bits_in_both(lhs.operand_spec(), rhs.operand_spec()),
{
    let left: Operand = lhs.operand();
    let right: Operand = rhs.operand();
    match (left, right) {
        (Operand::Null, _) | (_, Operand::Null) => OwnedValue::Null,
        _ => {
            if left.is_zero() || right.is_zero() {
                OwnedValue::Integer(0)
            } else {
                OwnedValue::Integer(left.to_integer() & right.to_integer())
            }
        },
    }
}

/// The bitwise OR of two values.
pub fn exec_bit_or(lhs: &OwnedValue, rhs: &OwnedValue) -> (result: OwnedValue)
    requires
        arith::blob_meets_null(*lhs, *rhs),
    ensures
        result == bits_in_either(lhs.operand_spec(), rhs.operand_spec()),
{
    let left: Operand = lhs.operand();
    let right: Operand = rhs.operand();
    match (left, right) {
        (Operand::Null, _) | (_, Operand::Null) => OwnedValue::Null,
        _ => OwnedValue::Integer(left.to_integer() | right.to_integer()),
    }
}

/// The bitwise complement of a value.
pub fn exec_bit_not(reg: &OwnedValue) -> (result: OwnedValue)
    requires
        !(reg is Blob),
    ensures
        result == bits_inverted(reg.operand_spec()),
{
    let operand: Operand = reg.operand();
    match operand {
        Operand::Null => OwnedValue::Null,
        _ => {
            let value: i64 = operand.to_integer();
            assert(!value == -1 - value) by (bit_vector);
            OwnedValue::Integer(!value)
        },
    }
}

/// Shifts the value left by a count of bits, or right where the count is negative. A right shift
/// keeps the sign.
fn compute_shl(lhs: i64, rhs: i64) -> (result: i64)
    ensures
        result == shifted(lhs as int, rhs as int),
{
    if rhs >= 64 {
        proof {
            lemma_wide_left_shift(lhs as int, rhs as nat);
        }
        0
    } else if rhs >= 0 {
        proof {
            lemma_left_shift(lhs, rhs as nat);
        }
        lhs << (rhs as u32)
    } else if rhs > -64 {
        proof {
            lemma_right_shift(lhs, -rhs as nat);
        }
        lhs >> (-rhs as u32)
    } else {
        proof {
            lemma_wide_right_shift(lhs, -rhs as nat);
        }
        if lhs < 0 {
            -1
        } else {
            0
        }
    }
}

/// Shifts the value right by a count of bits, or left where the count is negative. A right shift
/// keeps the sign.
fn compute_shr(lhs: i64, rhs: i64) -> (result: i64)
    ensures
        result == shifted(lhs as int, -rhs as int),
{
    if rhs == i64::MIN {
        proof {
            lemma_wide_left_shift(lhs as int, -rhs as nat);
        }
        0
    } else {
        compute_shl(lhs, -rhs)
    }
}

/// Shifts the first value left by the second.
pub fn exec_shift_left(lhs: &OwnedValue, rhs: &OwnedValue) -> (result: OwnedValue)
    requires
        arith::blob_meets_null(*lhs, *rhs),
    ensures
        result == shifted_left(lhs.operand_spec(), rhs.operand_spec()),
        *lhs matches OwnedValue::Integer(a) ==> (*rhs matches OwnedValue::Integer(n) ==> (0 <= n < 64
            ==> result == OwnedValue::Integer(a << (n as u32)))),
        *lhs matches OwnedValue::Integer(a) ==> (*rhs matches OwnedValue::Integer(n) ==> (-64 < n < 0
            ==> result == OwnedValue::Integer(a >> (-n as u32)))),
{
    let left: Operand = lhs.operand();
    let right: Operand = rhs.operand();
    proof {
        if let (Operand::Integer(a), Operand::Integer(n)) = (left, right) {
            if 0 <= n < 64 {
                operation_laws::law_shifts_within_a_word(a, n);
            } else {
                operation_laws::law_shifts_beyond_a_word(a, n);
            }
        }
    }
    match (left, right) {
        (Operand::Null, _) | (_, Operand::Null) => OwnedValue::Null,
        _ => OwnedValue::Integer(compute_shl(left.to_integer(), right.to_integer())),
    }
}

/// Shifts the first value right by the second.
pub fn exec_shift_right(lhs: &OwnedValue, rhs: &OwnedValue) -> (result: OwnedValue)
    requires
        arith::blob_meets_null(*lhs, *rhs),
    ensures
        result == shifted_right(lhs.operand_spec(), rhs.operand_spec()),
        *lhs matches OwnedValue::Integer(a) ==> (*rhs matches OwnedValue::Integer(n) ==> (0 <= n < 64
            ==> result == OwnedValue::Integer(a >> (n as u32)))),
        *lhs matches OwnedValue::Integer(a) ==> (*rhs matches OwnedValue::Integer(n) ==> (-64 < n < 0
            ==> result == OwnedValue::Integer(a << (-n as u32)))),
        *lhs matches OwnedValue::Integer(a) ==> (*rhs matches OwnedValue::Integer(n) ==> (0 <= n < 64
            ==> (result matches OwnedValue::Integer(r) && r * pow2(n as nat) <= a < (r + 1) * pow2(
            n as nat,
        )))),
{
    let left: Operand = lhs.operand();
    let right: Operand = rhs.operand();
    proof {
        if let (Operand::Integer(a), Operand::Integer(n)) = (left, right) {
            if 0 <= n < 64 {
                operation_laws::law_shifts_within_a_word(a, n);
            } else {
                operation_laws::law_shifts_beyond_a_word(a, n);
            }
        }
    }
    match (left, right) {
        (Operand::Null, _) | (_, Operand::Null) => OwnedValue::Null,
        _ => OwnedValue::Integer(compute_shr(left.to_integer(), right.to_integer())),
    }
}

} // verus!
