//! The meaning of an expression tree, and the proof that the compiler
//! and the virtual machine realize it: running the compiled bytecode of
//! a well-formed expression computes exactly the expression's value.

use crate::compiler::{binop_code, compiled, is_binop_char, wf_expr, Expr};
use crate::opcode::{lemma_opcode_roundtrip, opcode_value, spec_opcode_of, Opcode};
use crate::value::{
    lemma_codec_roundtrip, spec_add, spec_div, spec_mul, spec_rem, spec_sub, trunc_div, trunc_rem,
    Value,
};
use crate::vm::{spec_binop, spec_binop_step, spec_factorial, spec_run, spec_sqrt, VmError};
use vstd::prelude::*;

verus! {

/// The value operation a binary operator symbol denotes.
pub open spec fn char_binop(c: char, a: Value, b: Value) -> Result<Value, VmError> {
    if c == '+' {
        spec_add(a, b)
    } else if c == '-' {
        spec_sub(a, b)
    } else if c == '*' {
        spec_mul(a, b)
    } else if c == '/' {
        spec_div(a, b)
    } else {
        spec_rem(a, b)
    }
}

/// The value of an expression tree: a literal denotes itself, and each
/// operator applies its value operation to its operand values, left
/// operand first; the first failing operation decides the error.
pub open spec fn eval_expr(e: Expr) -> Result<Value, VmError>
    decreases e,
{
    match e {
        Expr::Number(v) => Ok(v),
        Expr::UnaryOp(c, a) => match eval_expr(*a) {
            Ok(v) => if c == '!' {
                spec_factorial(v)
            } else {
                Ok(spec_sqrt(v))
            },
            Err(err) => Err(err),
        },
        Expr::BinOp(l, c, r) => match eval_expr(*l) {
            Ok(lv) => match eval_expr(*r) {
                Ok(rv) => char_binop(c, lv, rv),
                Err(err) => Err(err),
            },
            Err(err) => Err(err),
        },
    }
}

/// The operand-stack depth the compiled form of an expression needs: a
/// literal occupies one slot, and a binary operator holds its left
/// value while the right side is computed.
pub open spec fn depth(e: Expr) -> int
    decreases e,
{
    match e {
        Expr::Number(_) => 1,
        Expr::UnaryOp(_, a) => depth(*a),
        Expr::BinOp(l, _, r) => {
            let dl = depth(*l);
            let dr = 1 + depth(*r);
            if dl >= dr {
                dl
            } else {
                dr
            }
        },
    }
}

/// A compiled fragment behaves as one push of the expression's value:
/// wherever the bytecode of a well-formed expression `e` stands in a
/// program, if `e` evaluates to `v` and the stack has room for the
/// fragment's working values, execution from the fragment's start is
/// execution from its end with `v` pushed.
pub proof fn lemma_compiled_runs(
    e: Expr,
    v: Value,
    code: Seq<u8>,
    pos: int,
    stack: Seq<Value>,
    max: nat,
)
    requires
        wf_expr(e),
        eval_expr(e) == Ok::<Value, VmError>(v),
        0 <= pos,
        pos + compiled(e).len() <= code.len(),
        forall|i: int| 0 <= i < compiled(e).len() ==> code[pos + i] == compiled(e)[i],
        stack.len() + depth(e) <= max,
    ensures
        spec_run(code, pos, stack, max) == spec_run(
            code,
            pos + compiled(e).len(),
            stack.push(v),
            max,
        ),
    decreases e,
{
    let ce = compiled(e);
    match e {
        Expr::Number(val) => {
            assert(val.enc().len() == 9);
            assert(ce[0] == opcode_value(Opcode::Literal));
            assert(code[pos] == opcode_value(Opcode::Literal));
            lemma_opcode_roundtrip(Opcode::Literal);
            let rest = code.subrange(pos + 10, code.len() as int);
            let payload = code.subrange(pos + 1, code.len() as int);
            assert forall|i: int| 0 <= i < payload.len() implies payload[i] == (val.enc()
                + rest)[i] by {
                if i < 9 {
                    assert(ce[1 + i] == val.enc()[i]);
                    assert(code[pos + 1 + i] == ce[1 + i]);
                } else {
                    assert(rest[i - 9] == code[pos + 10 + (i - 9)]);
                }
            }
            assert(payload =~= val.enc() + rest);
            lemma_codec_roundtrip(val, rest);
            assert(v == val);
        },
        Expr::UnaryOp(c, a) => {
            let ca = compiled(*a);
            let opb = if c == '!' {
                opcode_value(Opcode::Factorial)
            } else {
                opcode_value(Opcode::Sqrt)
            };
            assert(ce == ca + seq![opb]);
            assert forall|i: int| 0 <= i < ca.len() implies code[pos + i] == ca[i] by {
                assert(ce[i] == ca[i]);
                assert(code[pos + i] == ce[i]);
            }
            match eval_expr(*a) {
                Ok(va) => {
                    lemma_compiled_runs(*a, va, code, pos, stack, max);
                    let mid = pos + ca.len() as int;
                    assert(ce[ca.len() as int] == opb);
                    assert(code[mid] == opb);
                    if c == '!' {
                        lemma_opcode_roundtrip(Opcode::Factorial);
                        assert(spec_factorial(va) == Ok::<Value, VmError>(v));
                    } else {
                        lemma_opcode_roundtrip(Opcode::Sqrt);
                        assert(spec_sqrt(va) == v);
                    }
                    assert(stack.push(va).last() == va);
                    assert(stack.push(va).drop_last().push(v) =~= stack.push(v));
                },
                Err(_) => {
                    assert(false);
                },
            }
        },
        Expr::BinOp(l, c, r) => {
            let cl = compiled(*l);
            let cr = compiled(*r);
            assert(ce == cl + cr + seq![binop_code(c)]);
            assert forall|i: int| 0 <= i < cl.len() implies code[pos + i] == cl[i] by {
                assert(ce[i] == (cl + cr)[i]);
                assert((cl + cr)[i] == cl[i]);
                assert(code[pos + i] == ce[i]);
            }
            assert forall|i: int| 0 <= i < cr.len() implies code[pos + cl.len() + i] == cr[i] by {
                assert(ce[cl.len() + i] == (cl + cr)[cl.len() + i]);
                assert((cl + cr)[cl.len() + i] == cr[i]);
                assert(code[pos + (cl.len() + i)] == ce[cl.len() + i]);
            }
            match eval_expr(*l) {
                Ok(vl) => {
                    match eval_expr(*r) {
                        Ok(vr) => {
                            lemma_compiled_runs(*l, vl, code, pos, stack, max);
                            lemma_compiled_runs(
                                *r,
                                vr,
                                code,
                                pos + cl.len() as int,
                                stack.push(vl),
                                max,
                            );
                            let mid = pos + cl.len() + cr.len();
                            assert(ce[(cl.len() + cr.len()) as int] == binop_code(c));
                            assert(code[mid as int] == binop_code(c));
                            let opc = binop_opcode(c);
                            lemma_opcode_of_binop(c);
                            let st2 = stack.push(vl).push(vr);
                            assert(st2.last() == vr);
                            assert(st2[st2.len() - 2] == vl);
                            assert(spec_binop(opc, vl, vr) == char_binop(c, vl, vr));
                            assert(char_binop(c, vl, vr) == Ok::<Value, VmError>(v));
                            assert(st2.drop_last().drop_last().push(v) =~= stack.push(v));
                            assert(spec_binop_step(opc, st2) == Ok::<Seq<Value>, VmError>(
                                stack.push(v),
                            ));
                        },
                        Err(_) => {
                            assert(false);
                        },
                    }
                },
                Err(_) => {
                    assert(false);
                },
            }
        },
    }
}

/// The instruction a binary operator symbol compiles to.
pub open spec fn binop_opcode(c: char) -> Opcode {
    if c == '+' {
        Opcode::Addition
    } else if c == '-' {
        Opcode::Subtract
    } else if c == '*' {
        Opcode::Multiply
    } else if c == '/' {
        Opcode::Divide
    } else {
        Opcode::Modulo
    }
}

proof fn lemma_opcode_of_binop(c: char)
    ensures
        spec_opcode_of(binop_code(c)) == Some(binop_opcode(c)),
{
}

/// Soundness of the pipeline: running the bytecode of a well-formed
/// expression — its compiled form followed by one `Return` — on an
/// empty operand stack of sufficient depth yields exactly the
/// expression's value.
pub proof fn theorem_compiled_program_runs(e: Expr, v: Value, max: nat)
    requires
        wf_expr(e),
        eval_expr(e) == Ok::<Value, VmError>(v),
        depth(e) <= max,
    ensures
        spec_run(
            compiled(e) + seq![opcode_value(Opcode::Return)],
            0,
            Seq::<Value>::empty(),
            max,
        ) == Ok::<Option<Value>, VmError>(Some(v)),
{
    let code = compiled(e) + seq![opcode_value(Opcode::Return)];
    assert(forall|i: int| 0 <= i < compiled(e).len() ==> code[0 + i] == compiled(e)[i]);
    lemma_compiled_runs(e, v, code, 0, Seq::<Value>::empty(), max);
    let end = compiled(e).len() as int;
    assert(code[end] == opcode_value(Opcode::Return));
    lemma_opcode_roundtrip(Opcode::Return);
    assert(Seq::<Value>::empty().push(v).last() == v);
}

/// Whether a float literal occurs anywhere in the tree.
pub open spec fn has_float(e: Expr) -> bool
    decreases e,
{
    match e {
        Expr::Number(v) => v is Float,
        Expr::UnaryOp(_, a) => has_float(*a),
        Expr::BinOp(l, _, r) => has_float(*l) || has_float(*r),
    }
}

/// Mixed-type promotion: an expression in which any float literal
/// occurs, if it evaluates at all, evaluates to a float.
pub proof fn lemma_float_promotes(e: Expr, v: Value)
    requires
        wf_expr(e),
        has_float(e),
        eval_expr(e) == Ok::<Value, VmError>(v),
    ensures
        v is Float,
    decreases e,
{
    match e {
        Expr::Number(_) => {},
        Expr::UnaryOp(c, a) => {
            match eval_expr(*a) {
                Ok(va) => {
                    if c == '!' {
                        lemma_float_promotes(*a, va);
                        assert(false);
                    }
                },
                Err(_) => {
                    assert(false);
                },
            }
        },
        Expr::BinOp(l, c, r) => {
            match eval_expr(*l) {
                Ok(vl) => {
                    match eval_expr(*r) {
                        Ok(vr) => {
                            if has_float(*l) {
                                lemma_float_promotes(*l, vl);
                            }
                            if has_float(*r) {
                                lemma_float_promotes(*r, vr);
                            }
                        },
                        Err(_) => {
                            assert(false);
                        },
                    }
                },
                Err(_) => {
                    assert(false);
                },
            }
        },
    }
}

/// The native truncating 64-bit result of an integer operator.
pub open spec fn int_binop_result(c: char, a: i64, b: i64) -> int {
    if c == '+' {
        a + b
    } else if c == '-' {
        a - b
    } else if c == '*' {
        a * b
    } else if c == '/' {
        trunc_div(a as int, b as int)
    } else {
        trunc_rem(a as int, b as int)
    }
}

/// Integer arithmetic runs natively: compiling the application of any
/// of the five binary operators to two integer literals and executing
/// the program yields native truncating 64-bit integer arithmetic, for
/// every pair of operands on which that arithmetic is defined (a
/// nonzero divisor) and representable in 64 bits.
pub proof fn theorem_int_binop_runs(e: Expr, a: i64, b: i64, c: char, max: nat)
    requires
        e == Expr::BinOp(
            Box::new(Expr::Number(Value::Int(a))),
            c,
            Box::new(Expr::Number(Value::Int(b))),
        ),
        is_binop_char(c),
        (c == '/' || c == '%') ==> b != 0 && !(a == i64::MIN && b == -1),
        i64::MIN <= int_binop_result(c, a, b) <= i64::MAX,
        max >= 2,
    ensures
        spec_run(
            compiled(e) + seq![opcode_value(Opcode::Return)],
            0,
            Seq::<Value>::empty(),
            max,
        ) == Ok::<Option<Value>, VmError>(Some(Value::Int(int_binop_result(c, a, b) as i64))),
{
    let lhs = Expr::Number(Value::Int(a));
    let rhs = Expr::Number(Value::Int(b));
    assert(wf_expr(lhs) && wf_expr(rhs));
    assert(wf_expr(e));
    assert(depth(lhs) == 1 && depth(rhs) == 1);
    assert(depth(e) == 2);
    let v = Value::Int(int_binop_result(c, a, b) as i64);
    assert(eval_expr(lhs) == Ok::<Value, VmError>(Value::Int(a)));
    assert(eval_expr(rhs) == Ok::<Value, VmError>(Value::Int(b)));
    assert(eval_expr(e) == char_binop(c, Value::Int(a), Value::Int(b)));
    assert(eval_expr(e) == Ok::<Value, VmError>(v));
    theorem_compiled_program_runs(e, v, max);
}

/// Mixed-type promotion, end to end: the compiled program of a
/// well-formed expression in which a float literal occurs, when it runs
/// to a value at all, runs to a float.
pub proof fn theorem_mixed_program_runs_to_float(e: Expr, v: Value, max: nat)
    requires
        wf_expr(e),
        has_float(e),
        eval_expr(e) == Ok::<Value, VmError>(v),
        depth(e) <= max,
    ensures
        spec_run(
            compiled(e) + seq![opcode_value(Opcode::Return)],
            0,
            Seq::<Value>::empty(),
            max,
        ) == Ok::<Option<Value>, VmError>(Some(v)),
        v is Float,
{
    theorem_compiled_program_runs(e, v, max);
    lemma_float_promotes(e, v);
}

/// A compiled fragment fails as the expression does: wherever the
/// bytecode of a well-formed expression `e` stands in a program, if the
/// evaluation of `e` fails, execution from the fragment's start stops
/// with exactly the evaluation's first error.
pub proof fn lemma_compiled_errs(
    e: Expr,
    err: VmError,
    code: Seq<u8>,
    pos: int,
    stack: Seq<Value>,
    max: nat,
)
    requires
        wf_expr(e),
        eval_expr(e) == Err::<Value, VmError>(err),
        0 <= pos,
        pos + compiled(e).len() <= code.len(),
        forall|i: int| 0 <= i < compiled(e).len() ==> code[pos + i] == compiled(e)[i],
        stack.len() + depth(e) <= max,
    ensures
        spec_run(code, pos, stack, max) == Err::<Option<Value>, VmError>(err),
    decreases e,
{
    let ce = compiled(e);
    match e {
        Expr::Number(_) => {
            assert(false);
        },
        Expr::UnaryOp(c, a) => {
            let ca = compiled(*a);
            let opb = if c == '!' {
                opcode_value(Opcode::Factorial)
            } else {
                opcode_value(Opcode::Sqrt)
            };
            assert(ce == ca + seq![opb]);
            assert forall|i: int| 0 <= i < ca.len() implies code[pos + i] == ca[i] by {
                assert(ce[i] == ca[i]);
                assert(code[pos + i] == ce[i]);
            }
            match eval_expr(*a) {
                Ok(va) => {
                    lemma_compiled_runs(*a, va, code, pos, stack, max);
                    let mid = pos + ca.len() as int;
                    assert(ce[ca.len() as int] == opb);
                    assert(code[mid] == opb);
                    assert(c == '!' && spec_factorial(va) == Err::<Value, VmError>(err));
                    lemma_opcode_roundtrip(Opcode::Factorial);
                    assert(stack.push(va).last() == va);
                },
                Err(_) => {
                    lemma_compiled_errs(*a, err, code, pos, stack, max);
                },
            }
        },
        Expr::BinOp(l, c, r) => {
            let cl = compiled(*l);
            let cr = compiled(*r);
            assert(ce == cl + cr + seq![binop_code(c)]);
            assert forall|i: int| 0 <= i < cl.len() implies code[pos + i] == cl[i] by {
                assert(ce[i] == (cl + cr)[i]);
                assert((cl + cr)[i] == cl[i]);
                assert(code[pos + i] == ce[i]);
            }
            assert forall|i: int| 0 <= i < cr.len() implies code[pos + cl.len() + i] == cr[i] by {
                assert(ce[cl.len() + i] == (cl + cr)[cl.len() + i]);
                assert((cl + cr)[cl.len() + i] == cr[i]);
                assert(code[pos + (cl.len() + i)] == ce[cl.len() + i]);
            }
            match eval_expr(*l) {
                Ok(vl) => {
                    lemma_compiled_runs(*l, vl, code, pos, stack, max);
                    match eval_expr(*r) {
                        Ok(vr) => {
                            lemma_compiled_runs(
                                *r,
                                vr,
                                code,
                                pos + cl.len() as int,
                                stack.push(vl),
                                max,
                            );
                            let mid = pos + cl.len() + cr.len();
                            assert(ce[(cl.len() + cr.len()) as int] == binop_code(c));
                            assert(code[mid as int] == binop_code(c));
                            let opc = binop_opcode(c);
                            lemma_opcode_of_binop(c);
                            let st2 = stack.push(vl).push(vr);
                            assert(st2.last() == vr);
                            assert(st2[st2.len() - 2] == vl);
                            assert(spec_binop(opc, vl, vr) == char_binop(c, vl, vr));
                            assert(char_binop(c, vl, vr) == Err::<Value, VmError>(err));
                        },
                        Err(_) => {
                            lemma_compiled_errs(
                                *r,
                                err,
                                code,
                                pos + cl.len() as int,
                                stack.push(vl),
                                max,
                            );
                        },
                    }
                },
                Err(_) => {
                    lemma_compiled_errs(*l, err, code, pos, stack, max);
                },
            }
        },
    }
}

/// Failure of the pipeline, end to end: running the bytecode of a
/// well-formed expression whose evaluation fails — its compiled form
/// followed by one `Return` — stops with exactly the evaluation's
/// first error.
pub proof fn theorem_compiled_program_errs(e: Expr, err: VmError, max: nat)
    requires
        wf_expr(e),
        eval_expr(e) == Err::<Value, VmError>(err),
        depth(e) <= max,
    ensures
        spec_run(
            compiled(e) + seq![opcode_value(Opcode::Return)],
            0,
            Seq::<Value>::empty(),
            max,
        ) == Err::<Option<Value>, VmError>(err),
{
    let code = compiled(e) + seq![opcode_value(Opcode::Return)];
    assert(forall|i: int| 0 <= i < compiled(e).len() ==> code[0 + i] == compiled(e)[i]);
    lemma_compiled_errs(e, err, code, 0, Seq::<Value>::empty(), max);
}

/// A compiled fragment that needs more operand slots than remain must
/// overflow: wherever the bytecode of a well-formed expression `e`
/// stands in a program, if the evaluation of `e` succeeds but the stack
/// lacks room for the fragment's working values, execution from the
/// fragment's start stops with a stack overflow.
pub proof fn lemma_compiled_overflows(
    e: Expr,
    code: Seq<u8>,
    pos: int,
    stack: Seq<Value>,
    max: nat,
)
    requires
        wf_expr(e),
        eval_expr(e) is Ok,
        0 <= pos,
        pos + compiled(e).len() <= code.len(),
        forall|i: int| 0 <= i < compiled(e).len() ==> code[pos + i] == compiled(e)[i],
        stack.len() + depth(e) > max,
    ensures
        spec_run(code, pos, stack, max) == Err::<Option<Value>, VmError>(VmError::StackOverflow),
    decreases e,
{
    let ce = compiled(e);
    match e {
        Expr::Number(val) => {
            assert(val.enc().len() == 9);
            assert(ce[0] == opcode_value(Opcode::Literal));
            assert(code[pos] == opcode_value(Opcode::Literal));
            lemma_opcode_roundtrip(Opcode::Literal);
            let rest = code.subrange(pos + 10, code.len() as int);
            let payload = code.subrange(pos + 1, code.len() as int);
            assert forall|i: int| 0 <= i < payload.len() implies payload[i] == (val.enc()
                + rest)[i] by {
                if i < 9 {
                    assert(ce[1 + i] == val.enc()[i]);
                    assert(code[pos + 1 + i] == ce[1 + i]);
                } else {
                    assert(rest[i - 9] == code[pos + 10 + (i - 9)]);
                }
            }
            assert(payload =~= val.enc() + rest);
            lemma_codec_roundtrip(val, rest);
        },
        Expr::UnaryOp(c, a) => {
            let ca = compiled(*a);
            assert(ce == ca + seq![
                if c == '!' {
                    opcode_value(Opcode::Factorial)
                } else {
                    opcode_value(Opcode::Sqrt)
                },
            ]);
            assert forall|i: int| 0 <= i < ca.len() implies code[pos + i] == ca[i] by {
                assert(ce[i] == ca[i]);
                assert(code[pos + i] == ce[i]);
            }
            lemma_compiled_overflows(*a, code, pos, stack, max);
        },
        Expr::BinOp(l, c, r) => {
            let cl = compiled(*l);
            let cr = compiled(*r);
            assert(ce == cl + cr + seq![binop_code(c)]);
            assert forall|i: int| 0 <= i < cl.len() implies code[pos + i] == cl[i] by {
                assert(ce[i] == (cl + cr)[i]);
                assert((cl + cr)[i] == cl[i]);
                assert(code[pos + i] == ce[i]);
            }
            assert forall|i: int| 0 <= i < cr.len() implies code[pos + cl.len() + i] == cr[i] by {
                assert(ce[cl.len() + i] == (cl + cr)[cl.len() + i]);
                assert((cl + cr)[cl.len() + i] == cr[i]);
                assert(code[pos + (cl.len() + i)] == ce[cl.len() + i]);
            }
            if stack.len() + depth(*l) > max {
                lemma_compiled_overflows(*l, code, pos, stack, max);
            } else {
                match eval_expr(*l) {
                    Ok(vl) => {
                        lemma_compiled_runs(*l, vl, code, pos, stack, max);
                        lemma_compiled_overflows(
                            *r,
                            code,
                            pos + cl.len() as int,
                            stack.push(vl),
                            max,
                        );
                    },
                    Err(_) => {
                        assert(false);
                    },
                }
            }
        },
    }
}

/// Stack discipline, end to end: a program that needs more simultaneous
/// operands than the configured maximum depth fails with the overflow
/// condition — it never silently truncates or corrupts the result.
pub proof fn theorem_compiled_program_overflows(e: Expr, max: nat)
    requires
        wf_expr(e),
        eval_expr(e) is Ok,
        max < depth(e),
    ensures
        spec_run(
            compiled(e) + seq![opcode_value(Opcode::Return)],
            0,
            Seq::<Value>::empty(),
            max,
        ) == Err::<Option<Value>, VmError>(VmError::StackOverflow),
{
    let code = compiled(e) + seq![opcode_value(Opcode::Return)];
    assert(forall|i: int| 0 <= i < compiled(e).len() ==> code[0 + i] == compiled(e)[i]);
    lemma_compiled_overflows(e, code, 0, Seq::<Value>::empty(), max);
}

} // verus!
