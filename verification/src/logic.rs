use crate::value::{Operand, OwnedValue};
use vstd::pervasive::unreached;
use vstd::prelude::*;

verus! {

/// One for true and zero for false.
pub open spec fn truth(value: bool) -> OwnedValue {
    OwnedValue::Integer(if value { 1 } else { 0 })
}

/// One, zero or NULL.
pub open spec fn is_truth_value(value: OwnedValue) -> bool {
    value is Null || value == truth(true) || value == truth(false)
}

/// A number that equals zero; a text is not read.
pub open spec fn is_zero_number(value: OwnedValue) -> bool {
    match value {
        OwnedValue::Integer(i) => i == 0,
        OwnedValue::Float(f) => f.zero(),
        _ => false,
    }
}

/// The complement of an operand: whether it is zero, or NULL for NULL.
pub open spec fn complemented(operand: Operand) -> OwnedValue {
    if operand is Null {
        OwnedValue::Null
    } else {
        truth(operand.is_zero_spec())
    }
}

/// The logical AND of two values. A number that is zero decides first, then NULL, then a text that
/// reads as zero.
pub open spec fn conjunction(lhs: OwnedValue, rhs: OwnedValue) -> OwnedValue {
    if is_zero_number(lhs) || is_zero_number(rhs) {
        truth(false)
    } else if lhs is Null || rhs is Null {
        OwnedValue::Null
    } else {
        truth(!lhs.operand_spec().is_zero_spec() && !rhs.operand_spec().is_zero_spec())
    }
}

/// The logical OR of two operands: true if either is neither zero nor NULL, otherwise NULL if
/// either is NULL, otherwise false.
pub open spec fn disjunction(lhs: Operand, rhs: Operand) -> OwnedValue {
    if !(lhs is Null || lhs.is_zero_spec()) || !(rhs is Null || rhs.is_zero_spec()) {
        truth(true)
    } else if lhs is Null || rhs is Null {
        OwnedValue::Null
    } else {
        truth(false)
    }
}

fn truth_value(value: bool) -> (result: OwnedValue)
    ensures
        result == truth(value),
{
    OwnedValue::Integer(
        if value {
            1
        } else {
            0
        },
    )
}

fn test_zero_number(value: &OwnedValue) -> (result: bool)
    ensures
        result == is_zero_number(*value),
{
    match value {
        OwnedValue::Integer(i) => *i == 0,
        OwnedValue::Float(f) => f.is_zero(),
        _ => false,
    }
}

/// Takes the value as a boolean and gives its complement.
pub fn exec_boolean_not(reg: &OwnedValue) -> (result: OwnedValue)
    requires
        !(reg is Blob),
    ensures
        result == complemented(reg.operand_spec()),
{
    let operand: Operand = reg.operand();
    match operand {
        Operand::Null => OwnedValue::Null,
        Operand::Blob => unreached(),
        _ => truth_value(operand.is_zero()),
    }
}

/// The logical AND of two values.
pub fn exec_and(lhs: &OwnedValue, rhs: &OwnedValue) -> (result: OwnedValue)
    ensures
        result == conjunction(*lhs, *rhs),
{
    if test_zero_number(lhs) || test_zero_number(rhs) {
        return truth_value(false);
    }
    match (lhs, rhs) {
        (OwnedValue::Null, _) | (_, OwnedValue::Null) => OwnedValue::Null,
        _ => truth_value(!lhs.operand().is_zero() && !rhs.operand().is_zero()),
    }
}

/// The logical OR of two values.
pub fn exec_or(lhs: &OwnedValue, rhs: &OwnedValue) -> (result: OwnedValue)
    ensures
        result == disjunction(lhs.operand_spec(), rhs.operand_spec()),
{
    let left: Operand = lhs.operand();
    let right: Operand = rhs.operand();
    match (left, right) {
        (Operand::Null, Operand::Null) => OwnedValue::Null,
        (Operand::Null, other) | (other, Operand::Null) => {
            if other.is_zero() {
                OwnedValue::Null
            } else {
                truth_value(true)
            }
        },
        _ => truth_value(!left.is_zero() || !right.is_zero()),
    }
}

} // verus!
