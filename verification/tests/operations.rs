use vdbe::arith::{exec_add, exec_divide, exec_multiply, exec_remainder, exec_subtract};
use vdbe::binary64::Real;
use vdbe::logic::{exec_and, exec_or};
use vdbe::value::{OwnedValue, Text};

fn float(value: f64) -> OwnedValue {
    OwnedValue::Float(Real::from_bits(value.to_bits()))
}

#[test]
fn test_exec_add() {
    let inputs = vec![
        (OwnedValue::Integer(3), OwnedValue::Integer(1)),
        (float(3.0), float(1.0)),
        (float(3.0), OwnedValue::Integer(1)),
        (OwnedValue::Integer(3), float(1.0)),
        (OwnedValue::Null, OwnedValue::Null),
        (OwnedValue::Null, OwnedValue::Integer(1)),
        (OwnedValue::Null, float(1.0)),
        (OwnedValue::Null, OwnedValue::Text(Text::from_str("2"))),
        (OwnedValue::Integer(1), OwnedValue::Null),
        (float(1.0), OwnedValue::Null),
        (OwnedValue::Text(Text::from_str("1")), OwnedValue::Null),
        (
            OwnedValue::Text(Text::from_str("1")),
            OwnedValue::Text(Text::from_str("3")),
        ),
        (
            OwnedValue::Text(Text::from_str("1.0")),
            OwnedValue::Text(Text::from_str("3.0")),
        ),
        (
            OwnedValue::Text(Text::from_str("1.0")),
            float(3.0),
        ),
        (
            OwnedValue::Text(Text::from_str("1.0")),
            OwnedValue::Integer(3),
        ),
        (
            float(1.0),
            OwnedValue::Text(Text::from_str("3.0")),
        ),
        (
            OwnedValue::Integer(1),
            OwnedValue::Text(Text::from_str("3")),
        ),
    ];

    let outputs = [
        OwnedValue::Integer(4),
        float(4.0),
        float(4.0),
        float(4.0),
        OwnedValue::Null,
        OwnedValue::Null,
        OwnedValue::Null,
        OwnedValue::Null,
        OwnedValue::Null,
        OwnedValue::Null,
        OwnedValue::Null,
        OwnedValue::Integer(4),
        float(4.0),
        float(4.0),
        float(4.0),
        float(4.0),
        float(4.0),
    ];

    assert_eq!(
        inputs.len(),
        outputs.len(),
        "Inputs and Outputs should have same size"
    );
    for (i, (lhs, rhs)) in inputs.iter().enumerate() {
        assert_eq!(
            exec_add(lhs, rhs),
            outputs[i],
            "Wrong ADD for lhs: {:?}, rhs: {:?}",
            lhs,
            rhs
        );
    }
}

#[test]
fn test_exec_subtract() {
    let inputs = vec![
        (OwnedValue::Integer(3), OwnedValue::Integer(1)),
        (float(3.0), float(1.0)),
        (float(3.0), OwnedValue::Integer(1)),
        (OwnedValue::Integer(3), float(1.0)),
        (OwnedValue::Null, OwnedValue::Null),
        (OwnedValue::Null, OwnedValue::Integer(1)),
        (OwnedValue::Null, float(1.0)),
        (OwnedValue::Null, OwnedValue::Text(Text::from_str("1"))),
        (OwnedValue::Integer(1), OwnedValue::Null),
        (float(1.0), OwnedValue::Null),
        (OwnedValue::Text(Text::from_str("4")), OwnedValue::Null),
        (
            OwnedValue::Text(Text::from_str("1")),
            OwnedValue::Text(Text::from_str("3")),
        ),
        (
            OwnedValue::Text(Text::from_str("1.0")),
            OwnedValue::Text(Text::from_str("3.0")),
        ),
        (
            OwnedValue::Text(Text::from_str("1.0")),
            float(3.0),
        ),
        (
            OwnedValue::Text(Text::from_str("1.0")),
            OwnedValue::Integer(3),
        ),
        (
            float(1.0),
            OwnedValue::Text(Text::from_str("3.0")),
        ),
        (
            OwnedValue::Integer(1),
            OwnedValue::Text(Text::from_str("3")),
        ),
    ];

    let outputs = [
        OwnedValue::Integer(2),
        float(2.0),
        float(2.0),
        float(2.0),
        OwnedValue::Null,
        OwnedValue::Null,
        OwnedValue::Null,
        OwnedValue::Null,
        OwnedValue::Null,
        OwnedValue::Null,
        OwnedValue::Null,
        OwnedValue::Integer(-2),
        float(-2.0),
        float(-2.0),
        float(-2.0),
        float(-2.0),
        float(-2.0),
    ];

    assert_eq!(
        inputs.len(),
        outputs.len(),
        "Inputs and Outputs should have same size"
    );
    for (i, (lhs, rhs)) in inputs.iter().enumerate() {
        assert_eq!(
            exec_subtract(lhs, rhs),
            outputs[i],
            "Wrong subtract for lhs: {:?}, rhs: {:?}",
            lhs,
            rhs
        );
    }
}
#[test]
fn test_exec_multiply() {
    let inputs = vec![
        (OwnedValue::Integer(3), OwnedValue::Integer(2)),
        (float(3.0), float(2.0)),
        (float(3.0), OwnedValue::Integer(2)),
        (OwnedValue::Integer(3), float(2.0)),
        (OwnedValue::Null, OwnedValue::Null),
        (OwnedValue::Null, OwnedValue::Integer(1)),
        (OwnedValue::Null, float(1.0)),
        (OwnedValue::Null, OwnedValue::Text(Text::from_str("1"))),
        (OwnedValue::Integer(1), OwnedValue::Null),
        (float(1.0), OwnedValue::Null),
        (OwnedValue::Text(Text::from_str("4")), OwnedValue::Null),
        (
            OwnedValue::Text(Text::from_str("2")),
            OwnedValue::Text(Text::from_str("3")),
        ),
        (
            OwnedValue::Text(Text::from_str("2.0")),
            OwnedValue::Text(Text::from_str("3.0")),
        ),
        (
            OwnedValue::Text(Text::from_str("2.0")),
            float(3.0),
        ),
        (
            OwnedValue::Text(Text::from_str("2.0")),
            OwnedValue::Integer(3),
        ),
        (
            float(2.0),
            OwnedValue::Text(Text::from_str("3.0")),
        ),
        (
            OwnedValue::Integer(2),
            OwnedValue::Text(Text::from_str("3.0")),
        ),
    ];

    let outputs = [
        OwnedValue::Integer(6),
        float(6.0),
        float(6.0),
        float(6.0),
        OwnedValue::Null,
        OwnedValue::Null,
        OwnedValue::Null,
        OwnedValue::Null,
        OwnedValue::Null,
        OwnedValue::Null,
        OwnedValue::Null,
        OwnedValue::Integer(6),
        float(6.0),
        float(6.0),
        float(6.0),
        float(6.0),
        float(6.0),
    ];

    assert_eq!(
        inputs.len(),
        outputs.len(),
        "Inputs and Outputs should have same size"
    );
    for (i, (lhs, rhs)) in inputs.iter().enumerate() {
        assert_eq!(
            exec_multiply(lhs, rhs),
            outputs[i],
            "Wrong multiply for lhs: {:?}, rhs: {:?}",
            lhs,
            rhs
        );
    }
}
#[test]
fn test_exec_divide() {
    let inputs = vec![
        (OwnedValue::Integer(1), OwnedValue::Integer(0)),
        (float(1.0), float(0.0)),
        (OwnedValue::Integer(i64::MIN), OwnedValue::Integer(-1)),
        (float(6.0), float(2.0)),
        (float(6.0), OwnedValue::Integer(2)),
        (OwnedValue::Integer(6), OwnedValue::Integer(2)),
        (OwnedValue::Null, OwnedValue::Integer(2)),
        (OwnedValue::Integer(2), OwnedValue::Null),
        (OwnedValue::Null, OwnedValue::Null),
        (
            OwnedValue::Text(Text::from_str("6")),
            OwnedValue::Text(Text::from_str("2")),
        ),
        (
            OwnedValue::Text(Text::from_str("6")),
            OwnedValue::Integer(2),
        ),
    ];

    let outputs = [
        OwnedValue::Null,
        OwnedValue::Null,
        float(9.223372036854776e18),
        float(3.0),
        float(3.0),
        float(3.0),
        OwnedValue::Null,
        OwnedValue::Null,
        OwnedValue::Null,
        float(3.0),
        float(3.0),
    ];

    assert_eq!(
        inputs.len(),
        outputs.len(),
        "Inputs and Outputs should have same size"
    );
    for (i, (lhs, rhs)) in inputs.iter().enumerate() {
        assert_eq!(
            exec_divide(lhs, rhs),
            outputs[i],
            "Wrong divide for lhs: {:?}, rhs: {:?}",
            lhs,
            rhs
        );
    }
}

#[test]
fn test_exec_remainder() {
    let inputs = vec![
        (OwnedValue::Null, OwnedValue::Null),
        (OwnedValue::Null, float(1.0)),
        (OwnedValue::Null, OwnedValue::Integer(1)),
        (OwnedValue::Null, OwnedValue::Text(Text::from_str("1"))),
        (float(1.0), OwnedValue::Null),
        (OwnedValue::Integer(1), OwnedValue::Null),
        (OwnedValue::Integer(12), OwnedValue::Integer(0)),
        (float(12.0), float(0.0)),
        (float(12.0), OwnedValue::Integer(0)),
        (OwnedValue::Integer(12), float(0.0)),
        (OwnedValue::Integer(12), OwnedValue::Integer(3)),
        (float(12.0), float(3.0)),
        (float(12.0), OwnedValue::Integer(3)),
        (OwnedValue::Integer(12), float(3.0)),
        (
            OwnedValue::Text(Text::from_str("12.0")),
            OwnedValue::Text(Text::from_str("3.0")),
        ),
        (
            OwnedValue::Text(Text::from_str("12.0")),
            float(3.0),
        ),
        (
            float(12.0),
            OwnedValue::Text(Text::from_str("12.0")),
        ),
    ];
    let outputs = vec![
        OwnedValue::Null,
        OwnedValue::Null,
        OwnedValue::Null,
        OwnedValue::Null,
        OwnedValue::Null,
        OwnedValue::Null,
        OwnedValue::Null,
        OwnedValue::Null,
        OwnedValue::Null,
        OwnedValue::Null,
        OwnedValue::Integer(0),
        float(0.0),
        float(0.0),
        float(0.0),
        float(0.0),
        float(0.0),
        float(0.0),
    ];

    assert_eq!(
        inputs.len(),
        outputs.len(),
        "Inputs and Outputs should have same size"
    );

    for (i, (lhs, rhs)) in inputs.iter().enumerate() {
        assert_eq!(
            exec_remainder(lhs, rhs),
            outputs[i],
            "Wrong remainder for lhs: {:?}, rhs: {:?}",
            lhs,
            rhs
        );
    }
}

#[test]
fn test_exec_and() {
    let inputs = vec![
        (OwnedValue::Integer(0), OwnedValue::Null),
        (OwnedValue::Null, OwnedValue::Integer(1)),
        (OwnedValue::Null, OwnedValue::Null),
        (float(0.0), OwnedValue::Null),
        (OwnedValue::Integer(1), float(2.2)),
        (
            OwnedValue::Integer(0),
            OwnedValue::Text(Text::from_str("string")),
        ),
        (
            OwnedValue::Integer(0),
            OwnedValue::Text(Text::from_str("1")),
        ),
        (
            OwnedValue::Integer(1),
            OwnedValue::Text(Text::from_str("1")),
        ),
    ];
    let outputs = [
        OwnedValue::Integer(0),
        OwnedValue::Null,
        OwnedValue::Null,
        OwnedValue::Integer(0),
        OwnedValue::Integer(1),
        OwnedValue::Integer(0),
        OwnedValue::Integer(0),
        OwnedValue::Integer(1),
    ];

    assert_eq!(
        inputs.len(),
        outputs.len(),
        "Inputs and Outputs should have same size"
    );
    for (i, (lhs, rhs)) in inputs.iter().enumerate() {
        assert_eq!(
            exec_and(lhs, rhs),
            outputs[i],
            "Wrong AND for lhs: {:?}, rhs: {:?}",
            lhs,
            rhs
        );
    }
}

#[test]
fn test_exec_or() {
    let inputs = vec![
        (OwnedValue::Integer(0), OwnedValue::Null),
        (OwnedValue::Null, OwnedValue::Integer(1)),
        (OwnedValue::Null, OwnedValue::Null),
        (float(0.0), OwnedValue::Null),
        (OwnedValue::Integer(1), float(2.2)),
        (float(0.0), OwnedValue::Integer(0)),
        (
            OwnedValue::Integer(0),
            OwnedValue::Text(Text::from_str("string")),
        ),
        (
            OwnedValue::Integer(0),
            OwnedValue::Text(Text::from_str("1")),
        ),
        (OwnedValue::Integer(0), OwnedValue::Text(Text::from_str(""))),
    ];
    let outputs = [
        OwnedValue::Null,
        OwnedValue::Integer(1),
        OwnedValue::Null,
        OwnedValue::Null,
        OwnedValue::Integer(1),
        OwnedValue::Integer(0),
        OwnedValue::Integer(0),
        OwnedValue::Integer(1),
        OwnedValue::Integer(0),
    ];

    assert_eq!(
        inputs.len(),
        outputs.len(),
        "Inputs and Outputs should have same size"
    );
    for (i, (lhs, rhs)) in inputs.iter().enumerate() {
        assert_eq!(
            exec_or(lhs, rhs),
            outputs[i],
            "Wrong OR for lhs: {:?}, rhs: {:?}",
            lhs,
            rhs
        );
    }
}
