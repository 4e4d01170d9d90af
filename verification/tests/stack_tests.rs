use librvm::stack::Stack;
use librvm::value::Value;
use librvm::vm::VmError;

#[test]
fn test_new_stack() {
    let stack = Stack::new(5);
    assert_eq!(stack.len(), 0);
    assert_eq!(stack.capacity(), 5);
}

#[test]
fn test_push_and_pop() {
    let mut stack = Stack::new(2);
    stack.push(Value::Int(1)).unwrap();
    stack.push(Value::Int(2)).unwrap();
    assert_eq!(stack.pop().unwrap(), Value::Int(2));
    assert_eq!(stack.pop().unwrap(), Value::Int(1));
}

#[test]
fn test_stack_overflow_reported() {
    let mut stack = Stack::new(2);
    stack.push(Value::Int(1)).unwrap();
    stack.push(Value::Int(2)).unwrap();
    assert_eq!(stack.push(Value::Int(3)), Err(VmError::StackOverflow));
    // the failed push leaves the stack unchanged
    assert_eq!(stack.len(), 2);
    assert_eq!(stack.pop().unwrap(), Value::Int(2));
}

#[test]
fn test_stack_underflow_reported() {
    let mut stack = Stack::new(2);
    assert_eq!(stack.pop(), Err(VmError::StackUnderflow));
}

#[test]
fn test_multiple_operations() {
    let mut stack = Stack::new(3);

    // Push some values
    stack.push(Value::Int(1)).unwrap();
    stack.push(Value::Int(2)).unwrap();

    // Pop one and verify
    assert_eq!(stack.pop().unwrap(), Value::Int(2));

    // Push more
    stack.push(Value::Int(3)).unwrap();
    stack.push(Value::Int(4)).unwrap();

    // Verify final state
    assert_eq!(stack.pop().unwrap(), Value::Int(4));
    assert_eq!(stack.pop().unwrap(), Value::Int(3));
    assert_eq!(stack.pop().unwrap(), Value::Int(1));
}
