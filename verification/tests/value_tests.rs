use librvm::value::Value;
use librvm::vm::VmError;

#[test]
fn test_value_serialization() {
    // Int serialization/deserialization
    let int_value = Value::Int(42);
    let bytes = int_value.to_vec();
    assert_eq!(Value::from_bytes(bytes.as_slice()).unwrap(), int_value);

    // Float serialization/deserialization
    let float_value = Value::Float((3.11f64).to_bits());
    let bytes = float_value.to_vec();
    assert_eq!(Value::from_bytes(bytes.as_slice()).unwrap(), float_value);
}

#[test]
fn test_serialized_layout() {
    // tag byte 0, then the big-endian two's-complement payload
    assert_eq!(Value::Int(1).to_vec(), vec![0, 0, 0, 0, 0, 0, 0, 0, 1]);
    assert_eq!(
        Value::Int(-1).to_vec(),
        vec![0, 0xFF, 0xFF, 0xFF, 0xFF, 0xFF, 0xFF, 0xFF, 0xFF]
    );
    // tag byte 1, then the big-endian IEEE-754 bit pattern
    let two = Value::Float((2.0f64).to_bits());
    assert_eq!(two.to_vec(), vec![1, 0x40, 0, 0, 0, 0, 0, 0, 0]);
    assert_eq!(Value::Int(0).size(), 9);
    assert_eq!(two.size(), 9);
}

#[test]
fn test_invalid_deserialization_rejected() {
    // too short
    assert_eq!(Value::from_bytes(&[0, 1, 2]), None);
    // unknown type tag
    assert_eq!(Value::from_bytes(&[2, 0, 0, 0, 0, 0, 0, 0, 0]), None);
}

#[test]
fn test_value_addition() {
    let cases = [
        (Value::Int(5), Value::Int(3), Value::Int(8)),
        (
            Value::Float(5.0f64.to_bits()),
            Value::Float(3.0f64.to_bits()),
            Value::Float(8.0f64.to_bits()),
        ),
        (
            Value::Int(5),
            Value::Float(3.0f64.to_bits()),
            Value::Float(8.0f64.to_bits()),
        ),
        (
            Value::Float(5.0f64.to_bits()),
            Value::Int(3),
            Value::Float(8.0f64.to_bits()),
        ),
        (Value::Int(-5), Value::Int(3), Value::Int(-2)),
        (
            Value::Float((-5.0f64).to_bits()),
            Value::Float(3.0f64.to_bits()),
            Value::Float((-2.0f64).to_bits()),
        ),
    ];
    for (a, b, expected) in cases {
        assert_eq!(a.add(b).unwrap(), expected);
    }
}

#[test]
fn test_value_subtraction() {
    let cases = [
        (Value::Int(5), Value::Int(3), Value::Int(2)),
        (
            Value::Float(5.0f64.to_bits()),
            Value::Float(3.0f64.to_bits()),
            Value::Float(2.0f64.to_bits()),
        ),
        (
            Value::Int(5),
            Value::Float(3.0f64.to_bits()),
            Value::Float(2.0f64.to_bits()),
        ),
        (
            Value::Float(5.0f64.to_bits()),
            Value::Int(3),
            Value::Float(2.0f64.to_bits()),
        ),
        (Value::Int(-5), Value::Int(-3), Value::Int(-2)),
        (
            Value::Float((-5.0f64).to_bits()),
            Value::Float((-3.0f64).to_bits()),
            Value::Float((-2.0f64).to_bits()),
        ),
    ];
    for (a, b, expected) in cases {
        assert_eq!(a.sub(b).unwrap(), expected);
    }
}

#[test]
fn test_value_multiplication() {
    let cases = [
        (Value::Int(5), Value::Int(3), Value::Int(15)),
        (
            Value::Float(5.0f64.to_bits()),
            Value::Float(3.0f64.to_bits()),
            Value::Float(15.0f64.to_bits()),
        ),
        (
            Value::Int(5),
            Value::Float(3.0f64.to_bits()),
            Value::Float(15.0f64.to_bits()),
        ),
        (
            Value::Float(5.0f64.to_bits()),
            Value::Int(3),
            Value::Float(15.0f64.to_bits()),
        ),
        (Value::Int(-5), Value::Int(-3), Value::Int(15)),
    ];
    for (a, b, expected) in cases {
        assert_eq!(a.mul(b).unwrap(), expected);
    }
}

#[test]
fn test_value_division() {
    let cases = [
        (Value::Int(6), Value::Int(2), Value::Int(3)),
        (
            Value::Float(6.0f64.to_bits()),
            Value::Float(2.0f64.to_bits()),
            Value::Float(3.0f64.to_bits()),
        ),
        (
            Value::Int(6),
            Value::Float(2.0f64.to_bits()),
            Value::Float(3.0f64.to_bits()),
        ),
        (
            Value::Float(6.0f64.to_bits()),
            Value::Int(2),
            Value::Float(3.0f64.to_bits()),
        ),
        // truncating division
        (Value::Int(5), Value::Int(2), Value::Int(2)),
        (Value::Int(-6), Value::Int(-2), Value::Int(3)),
        (Value::Int(-7), Value::Int(2), Value::Int(-3)),
        (
            Value::Int(5),
            Value::Float(2.0f64.to_bits()),
            Value::Float(2.5f64.to_bits()),
        ),
    ];
    for (a, b, expected) in cases {
        assert_eq!(a.div(b).unwrap(), expected);
    }
}

#[test]
fn test_value_remainder() {
    let cases = [
        (Value::Int(7), Value::Int(3), Value::Int(1)),
        (
            Value::Float(7.0f64.to_bits()),
            Value::Float(3.0f64.to_bits()),
            Value::Float(1.0f64.to_bits()),
        ),
        (
            Value::Int(7),
            Value::Float(3.0f64.to_bits()),
            Value::Float(1.0f64.to_bits()),
        ),
        (
            Value::Float(7.0f64.to_bits()),
            Value::Int(3),
            Value::Float(1.0f64.to_bits()),
        ),
        // the remainder carries the dividend's sign
        (Value::Int(-7), Value::Int(3), Value::Int(-1)),
        (Value::Int(7), Value::Int(-3), Value::Int(1)),
        (
            Value::Float((-7.0f64).to_bits()),
            Value::Float(3.0f64.to_bits()),
            Value::Float((-7.0f64 % 3.0f64).to_bits()),
        ),
    ];
    for (a, b, expected) in cases {
        assert_eq!(a.rem(b).unwrap(), expected);
    }
}

#[test]
fn test_value_arithmetic_errors() {
    assert_eq!(Value::Int(1).div(Value::Int(0)), Err(VmError::DivisionByZero));
    assert_eq!(Value::Int(1).rem(Value::Int(0)), Err(VmError::DivisionByZero));
    assert_eq!(
        Value::Int(i64::MAX).add(Value::Int(1)),
        Err(VmError::IntegerOverflow)
    );
    assert_eq!(
        Value::Int(i64::MIN).sub(Value::Int(1)),
        Err(VmError::IntegerOverflow)
    );
    assert_eq!(
        Value::Int(i64::MIN).div(Value::Int(-1)),
        Err(VmError::IntegerOverflow)
    );
    assert_eq!(
        Value::Int(i64::MIN).rem(Value::Int(-1)),
        Err(VmError::IntegerOverflow)
    );
    // float division by zero follows IEEE-754, it is not an error
    let inf = Value::Float(1.0f64.to_bits())
        .div(Value::Float(0.0f64.to_bits()))
        .unwrap();
    assert_eq!(inf, Value::Float(f64::INFINITY.to_bits()));
}
