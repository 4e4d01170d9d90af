use librvm::compiler::compile;
use librvm::value::Value;
use librvm::vm::{Vm, VmError};

fn eval(input: &str) -> Value {
    let bytecode = compile(input).unwrap();
    let mut vm = Vm::new(bytecode, 32);
    vm.run().unwrap().unwrap()
}

fn fl(x: f64) -> Value {
    Value::Float(x.to_bits())
}

#[test]
fn test_integer_operations() {
    assert_eq!(eval("1 + 2"), Value::Int(3));
    assert_eq!(eval("2 * (3 + 4)"), Value::Int(14));
    assert_eq!(eval("1 + (2 * 3)"), Value::Int(7));
    assert_eq!(eval("7 % 3"), Value::Int(1));
    assert_eq!(eval("7 / 2"), Value::Int(3));
    assert_eq!(eval("-7 / 2"), Value::Int(-3));
    assert_eq!(eval("-7 % 3"), Value::Int(-1));
}

#[test]
fn test_left_associative_single_tier() {
    // no precedence between operators: the fold is strictly left-to-right
    assert_eq!(eval("1 + 2 * 3"), Value::Int(9));
    assert_eq!(eval("1 + (2 * 3)"), Value::Int(7));
    assert_eq!(eval("10 - 2 - 3"), Value::Int(5));
}

#[test]
fn test_basic_float_operations() {
    assert_eq!(eval("2.5 + 1.5"), fl(4.0));
    assert_eq!(eval("2.5 + 3"), fl(5.5));
    assert_eq!(eval("5 + 2.5"), fl(7.5));
    assert_eq!(eval("2 * 3.5"), fl(7.0));
    assert_eq!(eval("3.0 * 2"), fl(6.0));
}

#[test]
fn test_complex_float_operations() {
    assert_eq!(eval("2.5 + (3 * 2)"), fl(8.5));
    assert_eq!(eval("(5 - 2.5) * 3"), fl(7.5));
    assert_eq!(eval("10 / 2.5"), fl(4.0));
    assert_eq!(eval("2.5 * (3 + 4.5)"), fl(18.75));
    assert_eq!(eval("7.5 % 2"), fl(7.5 % 2.0));
}

#[test]
fn test_negative_numbers() {
    assert_eq!(eval("-2.5 + 3"), fl(0.5));
    assert_eq!(eval("5 + -2.5"), fl(2.5));
    assert_eq!(eval("-2.5 * -2"), fl(5.0));
    assert_eq!(eval("-10 / 2.5"), fl(-4.0));
}

#[test]
fn test_precedence() {
    assert_eq!(eval("1 + (2 * 3.5)"), fl(8.0));
    assert_eq!(eval("2.5 * 3 + 1"), fl(8.5));
    assert_eq!(eval("(1 + 2) * 3.5"), fl(10.5));
    assert_eq!(eval("10 / 2 + 1.5"), fl(6.5));
}

#[test]
fn test_factorial_operations() {
    assert_eq!(eval("5!"), Value::Int(120));
    assert_eq!(eval("(2 + 3)!"), Value::Int(120));
    assert_eq!(eval("0!"), Value::Int(1));
    assert_eq!(eval("3!"), Value::Int(6));
    assert_eq!(eval("20!"), Value::Int(2432902008176640000));
    // the ascending product over an empty range is 1
    assert_eq!(eval("-3!"), Value::Int(1));
}

#[test]
fn test_sqrt_operations() {
    assert_eq!(eval("4√"), fl(2.0));
    assert_eq!(eval("16√"), fl(4.0));
    assert_eq!(eval("2√"), fl(1.4142135623730951));
    assert_eq!(eval("(2 + 2)√"), fl(2.0));
}

#[test]
fn test_sqrt_with_expressions() {
    assert_eq!(eval("(4 + 5)√"), fl(3.0));
    assert_eq!(eval("2 * 16√"), fl(8.0));
    assert_eq!(eval("(3 * 3)√"), fl(3.0));
    assert_eq!(eval("2.25√"), fl(1.5));
}

#[test]
fn test_whitespace_insignificant() {
    assert_eq!(eval("  1+2  "), Value::Int(3));
    assert_eq!(eval("( 1 + 2 ) * 3"), Value::Int(9));
    assert_eq!(eval("4 √"), fl(2.0));
    assert_eq!(eval("4√ "), fl(2.0));
}

#[test]
fn test_whitespace_before_closing_paren() {
    assert_eq!(eval("(4√)"), fl(2.0));
    assert_eq!(eval("(4√ )"), fl(2.0));
    assert_eq!(eval("( 4 √ )"), fl(2.0));
    assert_eq!(eval("( 5! )"), Value::Int(120));
    assert_eq!(eval("(2 * (3 + 4) )"), Value::Int(14));
}

#[test]
fn test_int_literal_bounds() {
    assert_eq!(eval("9223372036854775807"), Value::Int(i64::MAX));
    assert_eq!(eval("-9223372036854775808"), Value::Int(i64::MIN));
    assert!(compile("9223372036854775808").is_err());
}

#[test]
fn test_malformed_input_rejected() {
    assert!(compile("1 +").is_err());
    assert!(compile("(1 + 2").is_err());
    assert!(compile("abc").is_err());
    assert!(compile("").is_err());
    assert!(compile("2.").is_err());
    assert!(compile("1 2").is_err());
    assert!(compile("5!!").is_err());
    assert_eq!(compile("1 +"), Err("Failed to parse expression"));
}

#[test]
fn test_bytecode_layout() {
    // one literal per operand, the operator, then Return
    let code = compile("1 + 2").unwrap();
    let mut expected = vec![0x00u8, 0, 0, 0, 0, 0, 0, 0, 0, 1];
    expected.extend([0x00, 0, 0, 0, 0, 0, 0, 0, 0, 2]);
    expected.push(0x01);
    expected.push(0x06);
    assert_eq!(code, expected);

    let code = compile("4√").unwrap();
    assert_eq!(code[10], 0x08);
    assert_eq!(code[11], 0x06);
}

#[test]
fn test_runtime_errors() {
    let run = |input: &str| {
        let bytecode = compile(input).unwrap();
        let mut vm = Vm::new(bytecode, 32);
        vm.run()
    };
    assert_eq!(run("1 / 0"), Err(VmError::DivisionByZero));
    assert_eq!(run("1 % 0"), Err(VmError::DivisionByZero));
    assert_eq!(run("9223372036854775807 + 1"), Err(VmError::IntegerOverflow));
    assert_eq!(run("21!"), Err(VmError::IntegerOverflow));
    assert_eq!(run("2.5!"), Err(VmError::TypeMismatch));
}

#[test]
fn test_stack_depth_enforced() {
    // needs two simultaneous operands; a one-slot stack must overflow
    let bytecode = compile("1 + 2").unwrap();
    let mut vm = Vm::new(bytecode.clone(), 1);
    assert_eq!(vm.run(), Err(VmError::StackOverflow));
    let mut vm = Vm::new(bytecode, 2);
    assert_eq!(vm.run(), Ok(Some(Value::Int(3))));
}

#[test]
fn test_corrupt_bytecode_rejected() {
    // an unknown instruction byte
    let mut vm = Vm::new(vec![0xFF], 8);
    assert_eq!(vm.run(), Err(VmError::InvalidOpcode));
    // a truncated literal payload
    let mut vm = Vm::new(vec![0x00, 0x00, 0x01], 8);
    assert_eq!(vm.run(), Err(VmError::InvalidLiteral));
    // a literal payload with an unknown type tag
    let mut vm = Vm::new(vec![0x00, 0x07, 0, 0, 0, 0, 0, 0, 0, 0, 0x06], 8);
    assert_eq!(vm.run(), Err(VmError::InvalidLiteral));
    // a binary instruction on an empty stack
    let mut vm = Vm::new(vec![0x01, 0x06], 8);
    assert_eq!(vm.run(), Err(VmError::StackUnderflow));
}

#[test]
fn test_no_return_yields_no_value() {
    // a lone literal, never returned
    let mut bytecode = vec![0x00u8];
    bytecode.extend(Value::Int(7).to_vec());
    let mut vm = Vm::new(bytecode, 8);
    assert_eq!(vm.run(), Ok(None));
    // the empty program
    let mut vm = Vm::new(Vec::new(), 8);
    assert_eq!(vm.run(), Ok(None));
}
