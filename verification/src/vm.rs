//! The stack virtual machine: a single pass over a bytecode stream with
//! one cursor and no jumps. `spec_run` is the machine's meaning — what a
//! program denotes for a given operand stack and depth bound — and
//! `Vm::run` is proved to return exactly that.

use crate::float::{float_of_int, float_sqrt, int_to_float, sqrt_bits};
use crate::opcode::{spec_opcode_of, Opcode};
use crate::stack::Stack;
use crate::value::{spec_add, spec_decode, spec_div, spec_mul, spec_rem, spec_sub, Value};
use vstd::prelude::*;
use vstd::slice::slice_subrange;

verus! {

/// A fatal condition met while executing a bytecode program. Programs
/// produced by the compiler from well-formed source only ever report the
/// arithmetic conditions; the others indicate a corrupted stream.
#[derive(Clone, Copy, Debug, PartialEq, Eq, Structural)]
pub enum VmError {
    /// A push would exceed the configured maximum stack depth.
    StackOverflow,
    /// A pop found the operand stack empty.
    StackUnderflow,
    /// An instruction byte outside the opcode set.
    InvalidOpcode,
    /// A literal payload that is truncated or carries an unknown type tag.
    InvalidLiteral,
    /// Integer division or remainder by zero.
    DivisionByZero,
    /// An integer result outside the 64-bit signed range.
    IntegerOverflow,
    /// Factorial applied to a floating-point operand.
    TypeMismatch,
}

/// The product of the integers from 1 through `n`. An empty range
/// (`n <= 0`) yields the multiplicative identity, so the factorial of
/// zero — and of a negative number — is 1.
pub open spec fn fact(n: int) -> int
    decreases n,
{
    if n <= 0 {
        1
    } else {
        n * fact(n - 1)
    }
}

pub proof fn lemma_fact_at_least_one(n: int)
    ensures
        fact(n) >= 1,
    decreases n,
{
    if n > 0 {
        lemma_fact_at_least_one(n - 1);
        assert(n * fact(n - 1) >= fact(n - 1)) by (nonlinear_arith)
            requires
                n >= 1,
                fact(n - 1) >= 1,
        ;
    }
}

pub proof fn lemma_fact_monotonic(a: int, b: int)
    requires
        a <= b,
    ensures
        fact(a) <= fact(b),
    decreases b - a,
{
    if a < b {
        lemma_fact_monotonic(a, b - 1);
        lemma_fact_at_least_one(b - 1);
        if b > 0 {
            assert(b * fact(b - 1) >= fact(b - 1)) by (nonlinear_arith)
                requires
                    b >= 1,
                    fact(b - 1) >= 1,
            ;
        }
    }
}

/// Factorial of a value: defined for integer operands, rejecting results
/// beyond the 64-bit range; a float operand is a type error.
pub open spec fn spec_factorial(v: Value) -> Result<Value, VmError> {
    match v {
        Value::Int(n) => if fact(n as int) <= i64::MAX {
            Ok(Value::Int(fact(n as int) as i64))
        } else {
            Err(VmError::IntegerOverflow)
        },
        Value::Float(_) => Err(VmError::TypeMismatch),
    }
}

/// Square root of a value: an integer operand is widened to float first;
/// the result is always a float.
pub open spec fn spec_sqrt(v: Value) -> Value {
    match v {
        Value::Int(n) => Value::Float(sqrt_bits(float_of_int(n))),
        Value::Float(b) => Value::Float(sqrt_bits(b)),
    }
}

/// The instructions that pop two operands and push one result.
pub open spec fn is_binary_opcode(op: Opcode) -> bool {
    op == Opcode::Addition || op == Opcode::Subtract || op == Opcode::Multiply || op
        == Opcode::Divide || op == Opcode::Modulo
}

/// The value operation a binary instruction performs.
pub open spec fn spec_binop(op: Opcode, a: Value, b: Value) -> Result<Value, VmError>
    recommends
        is_binary_opcode(op),
{
    match op {
        Opcode::Addition => spec_add(a, b),
        Opcode::Subtract => spec_sub(a, b),
        Opcode::Multiply => spec_mul(a, b),
        Opcode::Divide => spec_div(a, b),
        _ => spec_rem(a, b),
    }
}

/// What a binary instruction does to the operand stack: pop the right
/// operand, then the left, and push the operation's result.
pub open spec fn spec_binop_step(op: Opcode, stack: Seq<Value>) -> Result<Seq<Value>, VmError>
    recommends
        is_binary_opcode(op),
{
    if stack.len() < 2 {
        Err(VmError::StackUnderflow)
    } else {
        match spec_binop(op, stack[stack.len() - 2], stack.last()) {
            Ok(v) => Ok(stack.drop_last().drop_last().push(v)),
            Err(e) => Err(e),
        }
    }
}

/// The meaning of a bytecode program: one pass over `code` from `pos`
/// against the operand stack `stack` (bottom first), bounded at `max`
/// values. Execution ends at a `Return` (yielding the value on top of
/// the stack), at the end of the stream (yielding no value), or at the
/// first fatal condition.
pub open spec fn spec_run(code: Seq<u8>, pos: int, stack: Seq<Value>, max: nat) -> Result<
    Option<Value>,
    VmError,
>
    decreases code.len() - pos,
{
    if pos < 0 || pos >= code.len() {
        Ok(None)
    } else {
        match spec_opcode_of(code[pos]) {
            None => Err(VmError::InvalidOpcode),
            Some(Opcode::Literal) => match spec_decode(code.subrange(pos + 1, code.len() as int)) {
                Some(v) => if stack.len() < max {
                    spec_run(code, pos + 10, stack.push(v), max)
                } else {
                    Err(VmError::StackOverflow)
                },
                None => Err(VmError::InvalidLiteral),
            },
            Some(Opcode::Return) => if stack.len() > 0 {
                Ok(Some(stack.last()))
            } else {
                Err(VmError::StackUnderflow)
            },
            Some(Opcode::Factorial) => if stack.len() > 0 {
                match spec_factorial(stack.last()) {
                    Ok(v) => spec_run(code, pos + 1, stack.drop_last().push(v), max),
                    Err(e) => Err(e),
                }
            } else {
                Err(VmError::StackUnderflow)
            },
            Some(Opcode::Sqrt) => if stack.len() > 0 {
                spec_run(code, pos + 1, stack.drop_last().push(spec_sqrt(stack.last())), max)
            } else {
                Err(VmError::StackUnderflow)
            },
            Some(op) => match spec_binop_step(op, stack) {
                Ok(s) => spec_run(code, pos + 1, s, max),
                Err(e) => Err(e),
            },
        }
    }
}

/// Compute the factorial of `n` as the ascending product, reporting
/// overflow past the 64-bit range.
fn factorial(n: i64) -> (r: Result<i64, VmError>)
    ensures
        fact(n as int) <= i64::MAX ==> r == Ok::<i64, VmError>(fact(n as int) as i64),
        fact(n as int) > i64::MAX ==> r == Err::<i64, VmError>(VmError::IntegerOverflow),
{
    if n < 1 {
        return Ok(1);
    }
    let mut acc: i64 = 1;
    let mut i: i64 = 1;
    proof {
        assert(fact(0) == 1);
        assert(fact(1) == 1);
    }
    while i < n
        invariant
            1 <= i <= n,
            acc == fact(i as int),
        decreases n - i,
    {
        i = i + 1;
        proof {
            lemma_fact_at_least_one(i as int - 1);
            assert(fact(i as int) == i as int * fact(i as int - 1));
        }
        match acc.checked_mul(i) {
            Some(v) => {
                proof {
                    assert(v as int == fact(i as int)) by (nonlinear_arith)
                        requires
                            v as int == acc as int * i as int,
                            acc as int == fact(i as int - 1),
                            fact(i as int) == i as int * fact(i as int - 1),
                    ;
                }
                acc = v;
            },
            None => {
                proof {
                    let prod: int = acc as int * i as int;
                    assert(prod >= acc as int) by (nonlinear_arith)
                        requires
                            acc >= 1,
                            i >= 1,
                            prod == acc as int * i as int,
                    ;
                    assert(prod > i64::MAX);
                    assert(fact(i as int) == prod) by (nonlinear_arith)
                        requires
                            prod == acc as int * i as int,
                            acc as int == fact(i as int - 1),
                            fact(i as int) == i as int * fact(i as int - 1),
                    ;
                    lemma_fact_monotonic(i as int, n as int);
                }
                return Err(VmError::IntegerOverflow);
            },
        }
    }
    Ok(acc)
}

/// A virtual machine instance: one read-only bytecode program and one
/// operand stack with a caller-chosen depth bound.
pub struct Vm {
    stack: Stack,
    bytecode: Vec<u8>,
}

impl Vm {
    /// The program this machine executes.
    pub closed spec fn code(self) -> Seq<u8> {
        self.bytecode@
    }

    /// The operand stack's current contents, bottom first.
    pub closed spec fn operands(self) -> Seq<Value> {
        self.stack@
    }

    /// The operand stack's depth bound.
    pub closed spec fn max_depth(self) -> nat {
        self.stack.max_depth()
    }

    /// The operand stack never holds more than its bound.
    pub open spec fn wf(self) -> bool {
        self.operands().len() <= self.max_depth()
    }

    /// A machine for `bytecode` with an empty stack bounded at
    /// `stack_size` values.
    pub fn new(bytecode: Vec<u8>, stack_size: usize) -> (vm: Vm)
        ensures
            vm.code() == bytecode@,
            vm.operands() == Seq::<Value>::empty(),
            vm.max_depth() == stack_size,
            vm.wf(),
    {
        Vm { stack: Stack::new(stack_size), bytecode }
    }

    /// Pop the two operands (right one on top), apply `op`, and push the
    /// result.
    fn execute_binary_op(&mut self, op: Opcode) -> (r: Result<(), VmError>)
        requires
            is_binary_opcode(op),
            old(self).wf(),
        ensures
            final(self).code() == old(self).code(),
            final(self).max_depth() == old(self).max_depth(),
            final(self).wf(),
            (spec_binop_step(op, old(self).operands()) matches Ok(s) ==> r is Ok
                && final(self).operands() == s),
            (spec_binop_step(op, old(self).operands()) matches Err(e)
                ==> r == Err::<(), VmError>(e)),
    {
        let rhs = match self.stack.pop() {
            Ok(v) => v,
            Err(e) => {
                return Err(e);
            },
        };
        let lhs = match self.stack.pop() {
            Ok(v) => v,
            Err(e) => {
                return Err(e);
            },
        };
        let result = match op {
            Opcode::Addition => lhs.add(rhs),
            Opcode::Subtract => lhs.sub(rhs),
            Opcode::Multiply => lhs.mul(rhs),
            Opcode::Divide => lhs.div(rhs),
            _ => lhs.rem(rhs),
        };
        match result {
            Ok(v) => match self.stack.push(v) {
                Ok(_) => Ok(()),
                Err(e) => {
                    proof {
                        assert(false);
                    }
                    Err(e)
                },
            },
            Err(e) => Err(e),
        }
    }

    /// Execute the program: read one instruction at the cursor, perform
    /// it, and continue until a `Return` yields a value, the stream is
    /// exhausted (no value), or a fatal condition stops execution.
    #[verifier::loop_isolation(false)]
    pub fn run(&mut self) -> (r: Result<Option<Value>, VmError>)
        requires
            old(self).wf(),
        ensures
            r == spec_run(old(self).code(), 0, old(self).operands(), old(self).max_depth()),
            final(self).code() == old(self).code(),
            final(self).max_depth() == old(self).max_depth(),
            final(self).wf(),
    {
        let ghost code = self.bytecode@;
        let ghost s0 = self.stack@;
        let ghost max = self.stack.max_depth();
        let mut position: usize = 0;
        while position < self.bytecode.len()
            invariant
                self.bytecode@ == code,
                self.stack.max_depth() == max,
                self.stack@.len() <= max,
                position <= code.len(),
                spec_run(code, 0, s0, max) == spec_run(code, position as int, self.stack@, max),
            decreases code.len() - position,
        {
            let ghost p0 = position as int;
            let ghost st0 = self.stack@;
            let opcode = self.bytecode[position];
            position = position + 1;
            match Opcode::from_u8(opcode) {
                None => {
                    proof {
                        assert(spec_run(code, p0, st0, max) == Err::<Option<Value>, VmError>(
                            VmError::InvalidOpcode,
                        ));
                    }
                    return Err(VmError::InvalidOpcode);
                },
                Some(Opcode::Literal) => {
                    let sl = slice_subrange(
                        self.bytecode.as_slice(),
                        position,
                        self.bytecode.len(),
                    );
                    proof {
                        assert(sl@ == code.subrange(p0 + 1, code.len() as int));
                    }
                    match Value::from_bytes(sl) {
                        None => {
                            proof {
                                assert(spec_run(code, p0, st0, max) == Err::<
                                    Option<Value>,
                                    VmError,
                                >(VmError::InvalidLiteral));
                            }
                            return Err(VmError::InvalidLiteral);
                        },
                        Some(v) => {
                            proof {
                                assert(sl@.len() >= 9);
                            }
                            match self.stack.push(v) {
                                Ok(_) => {
                                    proof {
                                        assert(self.stack@ == st0.push(v));
                                        assert(spec_run(code, p0, st0, max) == spec_run(
                                            code,
                                            p0 + 10,
                                            st0.push(v),
                                            max,
                                        ));
                                    }
                                },
                                Err(e) => {
                                    proof {
                                        assert(spec_run(code, p0, st0, max) == Err::<
                                            Option<Value>,
                                            VmError,
                                        >(VmError::StackOverflow));
                                    }
                                    return Err(e);
                                },
                            }
                            position = position + 9;
                        },
                    }
                },
                Some(Opcode::Return) => {
                    match self.stack.pop() {
                        Ok(v) => {
                            proof {
                                assert(spec_run(code, p0, st0, max) == Ok::<
                                    Option<Value>,
                                    VmError,
                                >(Some(st0.last())));
                            }
                            return Ok(Some(v));
                        },
                        Err(e) => {
                            proof {
                                assert(spec_run(code, p0, st0, max) == Err::<
                                    Option<Value>,
                                    VmError,
                                >(VmError::StackUnderflow));
                            }
                            return Err(e);
                        },
                    }
                },
                Some(Opcode::Factorial) => {
                    match self.stack.pop() {
                        Err(e) => {
                            proof {
                                assert(spec_run(code, p0, st0, max) == Err::<
                                    Option<Value>,
                                    VmError,
                                >(VmError::StackUnderflow));
                            }
                            return Err(e);
                        },
                        Ok(Value::Int(n)) => {
                            match factorial(n) {
                                Ok(f) => {
                                    match self.stack.push(Value::Int(f)) {
                                        Ok(_) => {
                                            proof {
                                                assert(self.stack@ == st0.drop_last().push(
                                                    Value::Int(f),
                                                ));
                                                assert(spec_run(code, p0, st0, max) == spec_run(
                                                    code,
                                                    p0 + 1,
                                                    st0.drop_last().push(Value::Int(f)),
                                                    max,
                                                ));
                                            }
                                        },
                                        Err(e) => {
                                            proof {
                                                assert(false);
                                            }
                                            return Err(e);
                                        },
                                    }
                                },
                                Err(e) => {
                                    proof {
                                        assert(spec_run(code, p0, st0, max) == Err::<
                                            Option<Value>,
                                            VmError,
                                        >(VmError::IntegerOverflow));
                                    }
                                    return Err(e);
                                },
                            }
                        },
                        Ok(Value::Float(_)) => {
                            proof {
                                assert(spec_run(code, p0, st0, max) == Err::<
                                    Option<Value>,
                                    VmError,
                                >(VmError::TypeMismatch));
                            }
                            return Err(VmError::TypeMismatch);
                        },
                    }
                },
                Some(Opcode::Sqrt) => {
                    match self.stack.pop() {
                        Err(e) => {
                            proof {
                                assert(spec_run(code, p0, st0, max) == Err::<
                                    Option<Value>,
                                    VmError,
                                >(VmError::StackUnderflow));
                            }
                            return Err(e);
                        },
                        Ok(v) => {
                            let b = match v {
                                Value::Int(n) => float_sqrt(int_to_float(n)),
                                Value::Float(fb) => float_sqrt(fb),
                            };
                            proof {
                                assert(Value::Float(b) == spec_sqrt(st0.last()));
                            }
                            match self.stack.push(Value::Float(b)) {
                                Ok(_) => {
                                    proof {
                                        assert(spec_run(code, p0, st0, max) == spec_run(
                                            code,
                                            p0 + 1,
                                            st0.drop_last().push(spec_sqrt(st0.last())),
                                            max,
                                        ));
                                    }
                                },
                                Err(e) => {
                                    proof {
                                        assert(false);
                                    }
                                    return Err(e);
                                },
                            }
                        },
                    }
                },
                Some(op) => {
                    proof {
                        assert(is_binary_opcode(op));
                    }
                    match self.execute_binary_op(op) {
                        Ok(_) => {
                            proof {
                                assert(spec_binop_step(op, st0) matches Ok(s) && self.stack@ == s);
                                assert(spec_run(code, p0, st0, max) == spec_run(
                                    code,
                                    p0 + 1,
                                    self.stack@,
                                    max,
                                ));
                            }
                        },
                        Err(e) => {
                            proof {
                                assert(spec_run(code, p0, st0, max) == Err::<
                                    Option<Value>,
                                    VmError,
                                >(e));
                            }
                            return Err(e);
                        },
                    }
                },
            }
            proof {
                assert(spec_run(code, p0, st0, max) == spec_run(
                    code,
                    position as int,
                    self.stack@,
                    max,
                ));
            }
        }
        Ok(None)
    }
}

} // verus!
