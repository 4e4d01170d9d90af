//! The expression parser and bytecode compiler.
//!
//! The grammar is a single-tier, left-associative expression language:
//!
//! ```text
//! expr   := term (binop term)*
//! term   := (number | '(' expr ')') unop?
//! binop  := '+' | '-' | '*' | '/' | '%'
//! unop   := '!' | '√'
//! number := '-'? digits ('.' digits)?
//! ```
//!
//! Whitespace may appear between any two tokens. There is no operator
//! precedence beyond grouping: binary operators fold left-to-right.
//! The `spec_*` functions state the grammar mathematically over the
//! character sequence; each executable parser function is proved to
//! return exactly what its spec counterpart denotes. `compile` turns the
//! parsed tree into a bytecode stream by a post-order walk and appends a
//! final `Return` instruction.

use crate::float::{float_of_dec, parse_float};
use crate::opcode::{opcode_value, Opcode};
use crate::value::Value;
use vstd::prelude::*;
use vstd::string::StrSliceExecFns;

verus! {

/// An expression tree. Each node owns its children; the tree is
/// discarded once compiled.
pub enum Expr {
    Number(Value),
    BinOp(Box<Expr>, char, Box<Expr>),
    UnaryOp(char, Box<Expr>),
}

/// Every operator symbol in the tree belongs to the closed operator set.
pub open spec fn wf_expr(e: Expr) -> bool
    decreases e,
{
    match e {
        Expr::Number(_) => true,
        Expr::UnaryOp(c, a) => (c == '!' || c == '√') && wf_expr(*a),
        Expr::BinOp(l, c, r) => (c == '+' || c == '-' || c == '*' || c == '/' || c == '%')
            && wf_expr(*l) && wf_expr(*r),
    }
}

pub open spec fn is_space(c: char) -> bool {
    c == ' ' || c == '\t' || c == '\r' || c == '\n'
}

pub open spec fn is_digit(c: char) -> bool {
    48 <= c as u32 <= 57
}

pub open spec fn digit_val(c: char) -> int {
    c as u32 - 48
}

pub open spec fn is_binop_char(c: char) -> bool {
    c == '+' || c == '-' || c == '*' || c == '/' || c == '%'
}

/// The first position at or after `pos` that does not hold whitespace.
pub open spec fn spec_ws_end(s: Seq<char>, pos: int) -> int
    decreases s.len() - pos,
{
    if 0 <= pos < s.len() && is_space(s[pos]) {
        spec_ws_end(s, pos + 1)
    } else {
        pos
    }
}

/// The first position at or after `pos` that does not hold a digit.
pub open spec fn spec_digits_end(s: Seq<char>, pos: int) -> int
    decreases s.len() - pos,
{
    if 0 <= pos < s.len() && is_digit(s[pos]) {
        spec_digits_end(s, pos + 1)
    } else {
        pos
    }
}

/// The decimal value of the digit run `s[pos..end)`.
pub open spec fn spec_digits_val(s: Seq<char>, pos: int, end: int) -> int
    decreases end - pos,
{
    if pos < end {
        spec_digits_val(s, pos, end - 1) * 10 + digit_val(s[end - 1])
    } else {
        0
    }
}

/// A numeric literal at `pos`: an optional minus sign, digits, and — if a
/// decimal point with at least one further digit follows — a fractional
/// part, making the literal a float. An integer literal outside the
/// signed 64-bit range is rejected, as is a float literal the decimal
/// parser rejects.
pub open spec fn spec_number(s: Seq<char>, pos: int) -> Option<(Expr, int)> {
    let neg = 0 <= pos < s.len() && s[pos] == '-';
    let dstart = if neg {
        pos + 1
    } else {
        pos
    };
    if 0 <= dstart < s.len() && is_digit(s[dstart]) {
        let dend = spec_digits_end(s, dstart);
        if dend < s.len() && s[dend] == '.' && dend + 1 < s.len() && is_digit(s[dend + 1]) {
            let fend = spec_digits_end(s, dend + 1);
            match float_of_dec(s.subrange(pos, fend)) {
                Some(bits) => Some((Expr::Number(Value::Float(bits)), fend)),
                None => None,
            }
        } else {
            let mag = spec_digits_val(s, dstart, dend);
            let bound: int = if neg {
                0x8000_0000_0000_0000
            } else {
                0x7fff_ffff_ffff_ffff
            };
            if mag <= bound {
                let v = if neg {
                    -mag
                } else {
                    mag
                };
                Some((Expr::Number(Value::Int(v as i64)), dend))
            } else {
                None
            }
        }
    } else {
        None
    }
}

/// A binary operator token at `pos`, with surrounding whitespace
/// consumed.
pub open spec fn spec_op(s: Seq<char>, pos: int) -> Option<(char, int)> {
    let p = spec_ws_end(s, pos);
    if 0 <= p < s.len() && is_binop_char(s[p]) {
        Some((s[p], spec_ws_end(s, p + 1)))
    } else {
        None
    }
}

/// A parenthesized subexpression at `pos`: whitespace may stand between
/// the inner expression and the closing parenthesis.
pub open spec fn spec_parens(s: Seq<char>, pos: int) -> Option<(Expr, int)>
    decreases s.len() - pos, 0int,
{
    if 0 <= pos < s.len() && s[pos] == '(' {
        match spec_expr(s, pos + 1) {
            Some((e, p)) => {
                let q = spec_ws_end(s, p);
                if 0 <= q < s.len() && s[q] == ')' {
                    Some((e, q + 1))
                } else {
                    None
                }
            },
            None => None,
        }
    } else {
        None
    }
}

/// A term: a numeric literal or parenthesized group, surrounded by
/// whitespace, with at most one postfix unary operator attached. The
/// bound checks on scan positions never fail — the scan only moves
/// forward and never past the end — and make termination evident.
pub open spec fn spec_term(s: Seq<char>, pos: int) -> Option<(Expr, int)>
    decreases s.len() - pos, 1int,
{
    let start0 = spec_ws_end(s, pos);
    let start = if start0 < pos || start0 > s.len() {
        pos
    } else {
        start0
    };
    let base = match spec_number(s, start) {
        Some(x) => Some(x),
        None => spec_parens(s, start),
    };
    match base {
        None => None,
        Some((e, p1)) => {
            let p2 = spec_ws_end(s, p1);
            if 0 <= p2 < s.len() && s[p2] == '!' {
                Some((Expr::UnaryOp('!', Box::new(e)), p2 + 1))
            } else if 0 <= p2 < s.len() && s[p2] == '√' {
                Some((Expr::UnaryOp('√', Box::new(e)), p2 + 1))
            } else {
                Some((e, p2))
            }
        },
    }
}

/// The left-associative fold of `(binop term)*` onto `acc`, starting at
/// `pos`. Where the operator or the following term is missing, folding
/// stops and the input position rewinds to before the operator. The
/// bound checks never fail — operator and term always advance the
/// position — and make termination evident.
pub open spec fn spec_expr_tail(s: Seq<char>, pos: int, acc: Expr) -> (Expr, int)
    decreases s.len() - pos, 2int,
{
    match spec_op(s, pos) {
        None => (acc, pos),
        Some((c, p2raw)) => {
            let p2 = if p2raw < pos || p2raw > s.len() {
                pos
            } else {
                p2raw
            };
            match spec_term(s, p2) {
                None => (acc, pos),
                Some((t, p3)) => {
                    if pos < p3 <= s.len() {
                        spec_expr_tail(s, p3, Expr::BinOp(Box::new(acc), c, Box::new(t)))
                    } else {
                        (acc, pos)
                    }
                },
            }
        },
    }
}

/// A full expression at `pos`: one term, then the left-associative fold
/// of further `binop term` pairs.
pub open spec fn spec_expr(s: Seq<char>, pos: int) -> Option<(Expr, int)>
    decreases s.len() - pos, 3int,
{
    match spec_term(s, pos) {
        None => None,
        Some((t, p1)) => {
            if pos <= p1 <= s.len() {
                let folded = spec_expr_tail(s, p1, t);
                Some((folded.0, folded.1))
            } else {
                Some((t, p1))
            }
        },
    }
}

/// The whole text as one expression: an `expr` followed, up to
/// whitespace, by the end of the input. Trailing characters make the
/// parse fail.
pub open spec fn spec_parse(s: Seq<char>) -> Option<Expr> {
    match spec_expr(s, 0) {
        None => None,
        Some((e, p)) => if spec_ws_end(s, p) == s.len() {
            Some(e)
        } else {
            None
        },
    }
}

/// Skip whitespace from `pos`.
#[verifier::loop_isolation(false)]
fn skip_spaces(s: &str, pos: usize) -> (r: usize)
    requires
        pos <= s@.len(),
    ensures
        r == spec_ws_end(s@, pos as int),
        pos <= r <= s@.len(),
{
    let len = s.unicode_len();
    let mut i = pos;
    let mut stop = false;
    while !stop && i < len
        invariant
            pos <= i <= len,
            !stop ==> spec_ws_end(s@, pos as int) == spec_ws_end(s@, i as int),
            stop ==> spec_ws_end(s@, pos as int) == i,
        decreases len - i + (if stop { 0int } else { 1int }),
    {
        let c = s.get_char(i);
        if c == ' ' || c == '\t' || c == '\r' || c == '\n' {
            i = i + 1;
        } else {
            stop = true;
        }
    }
    i
}

/// Skip a digit run from `pos`.
#[verifier::loop_isolation(false)]
fn scan_digits(s: &str, pos: usize) -> (r: usize)
    requires
        pos <= s@.len(),
    ensures
        r == spec_digits_end(s@, pos as int),
        pos <= r <= s@.len(),
        forall|j: int| pos <= j < r ==> is_digit(s@[j]),
{
    let len = s.unicode_len();
    let mut i = pos;
    let mut stop = false;
    while !stop && i < len
        invariant
            pos <= i <= len,
            !stop ==> spec_digits_end(s@, pos as int) == spec_digits_end(s@, i as int),
            stop ==> spec_digits_end(s@, pos as int) == i,
            forall|j: int| pos <= j < i ==> is_digit(s@[j]),
        decreases len - i + (if stop { 0int } else { 1int }),
    {
        let u = s.get_char(i) as u32;
        if 48 <= u && u <= 57 {
            i = i + 1;
        } else {
            stop = true;
        }
    }
    i
}

/// The numeric value of a digit character.
fn char_digit(c: char) -> (r: u64)
    requires
        is_digit(c),
    ensures
        r == digit_val(c),
        r <= 9,
{
    (c as u32 - 48) as u64
}

/// Parse a numeric literal at `pos`.
#[verifier::loop_isolation(false)]
fn number(s: &str, pos: usize) -> (r: Option<(Expr, usize)>)
    requires
        pos <= s@.len(),
    ensures
        (r is Some <==> spec_number(s@, pos as int) is Some),
        (r matches Some((e, p)) ==> spec_number(s@, pos as int) == Some((e, p as int)) && pos < p
            <= s@.len() && wf_expr(e)),
{
    let len = s.unicode_len();
    let neg = pos < len && s.get_char(pos) == '-';
    let dstart = if neg {
        pos + 1
    } else {
        pos
    };
    if !(dstart < len) {
        return None;
    }
    let d0 = s.get_char(dstart) as u32;
    if !(48 <= d0 && d0 <= 57) {
        return None;
    }
    let dend = scan_digits(s, dstart);
    proof {
        assert(spec_digits_end(s@, dstart as int) == spec_digits_end(s@, dstart + 1));
        lemma_digits_end_bounds(s@, dstart + 1);
    }
    if dend < len && s.get_char(dend) == '.' && dend + 1 < len && {
        let d1 = s.get_char(dend + 1) as u32;
        48 <= d1 && d1 <= 57
    } {
        let fend = scan_digits(s, dend + 1);
        let lit = s.substring_char(pos, fend);
        match parse_float(lit) {
            Some(bits) => Some((Expr::Number(Value::Float(bits)), fend)),
            None => None,
        }
    } else {
        let bound: u64 = if neg {
            9223372036854775808
        } else {
            9223372036854775807
        };
        let mut mag: u64 = 0;
        let mut overflow = false;
        let mut i = dstart;
        while i < dend
            invariant
                dstart <= i <= dend,
                overflow <==> spec_digits_val(s@, dstart as int, i as int) > bound,
                !overflow ==> mag == spec_digits_val(s@, dstart as int, i as int),
                mag <= bound,
            decreases dend - i,
        {
            let c = s.get_char(i);
            let d = char_digit(c);
            proof {
                assert(spec_digits_val(s@, dstart as int, i + 1) == spec_digits_val(
                    s@,
                    dstart as int,
                    i as int,
                ) * 10 + digit_val(s@[i as int]));
                lemma_digits_val_nonneg(s@, dstart as int, i as int);
            }
            if overflow {
                proof {
                    let v = spec_digits_val(s@, dstart as int, i as int);
                    assert(v * 10 + digit_val(s@[i as int]) > bound) by (nonlinear_arith)
                        requires
                            v > bound,
                            bound >= 0,
                            digit_val(s@[i as int]) >= 0,
                    ;
                }
            } else if mag > (bound - d) / 10 {
                overflow = true;
                proof {
                    let bd = (bound - d) as int;
                    assert(bd == 10 * (bd / 10) + bd % 10 && 0 <= bd % 10 < 10);
                    assert(mag * 10 > bd - 9 + 9) by (nonlinear_arith)
                        requires
                            mag >= bd / 10 + 1,
                            bd == 10 * (bd / 10) + bd % 10,
                            0 <= bd % 10 < 10,
                    ;
                }
            } else {
                proof {
                    let bd = (bound - d) as int;
                    assert(bd == 10 * (bd / 10) + bd % 10 && 0 <= bd % 10 < 10);
                    assert(mag * 10 <= bd) by (nonlinear_arith)
                        requires
                            mag <= bd / 10,
                            bd == 10 * (bd / 10) + bd % 10,
                            0 <= bd % 10 < 10,
                    ;
                }
                mag = mag * 10 + d;
            }
            i = i + 1;
        }
        if overflow {
            return None;
        }
        let v: i64 = if neg {
            if mag == 9223372036854775808 {
                i64::MIN
            } else {
                -(mag as i64)
            }
        } else {
            mag as i64
        };
        Some((Expr::Number(Value::Int(v)), dend))
    }
}

/// The value of a digit run is never negative.
pub proof fn lemma_digits_val_nonneg(s: Seq<char>, pos: int, end: int)
    requires
        forall|j: int| pos <= j < end ==> is_digit(s[j]),
    ensures
        spec_digits_val(s, pos, end) >= 0,
    decreases end - pos,
{
    if pos < end {
        lemma_digits_val_nonneg(s, pos, end - 1);
        let v = spec_digits_val(s, pos, end - 1);
        assert(v * 10 >= 0) by (nonlinear_arith)
            requires
                v >= 0,
        ;
    }
}

/// The digit scan moves forward and stays within the input.
pub proof fn lemma_digits_end_bounds(s: Seq<char>, pos: int)
    requires
        0 <= pos <= s.len(),
    ensures
        pos <= spec_digits_end(s, pos) <= s.len(),
    decreases s.len() - pos,
{
    if pos < s.len() && is_digit(s[pos]) {
        lemma_digits_end_bounds(s, pos + 1);
    }
}

/// Parse a binary operator token at `pos`, with surrounding whitespace.
fn op(s: &str, pos: usize) -> (r: Option<(char, usize)>)
    requires
        pos <= s@.len(),
    ensures
        (r is Some <==> spec_op(s@, pos as int) is Some),
        (r matches Some((c, p)) ==> spec_op(s@, pos as int) == Some((c, p as int)) && pos < p
            <= s@.len() && is_binop_char(c)),
{
    let start = skip_spaces(s, pos);
    let len = s.unicode_len();
    if start < len {
        let c = s.get_char(start);
        if c == '+' || c == '-' || c == '*' || c == '/' || c == '%' {
            let after = skip_spaces(s, start + 1);
            return Some((c, after));
        }
    }
    None
}

/// Parse a parenthesized subexpression at `pos`; whitespace may stand
/// between the inner expression and the closing parenthesis.
fn parens(s: &str, pos: usize) -> (r: Option<(Expr, usize)>)
    requires
        pos <= s@.len(),
    ensures
        (r is Some <==> spec_parens(s@, pos as int) is Some),
        (r matches Some((e, p)) ==> spec_parens(s@, pos as int) == Some((e, p as int)) && pos < p
            <= s@.len() && wf_expr(e)),
    decreases s@.len() - pos, 0int,
{
    let len = s.unicode_len();
    if pos < len && s.get_char(pos) == '(' {
        match expr(s, pos + 1) {
            Some((e, p)) => {
                let q = skip_spaces(s, p);
                if q < len && s.get_char(q) == ')' {
                    Some((e, q + 1))
                } else {
                    None
                }
            },
            None => None,
        }
    } else {
        None
    }
}

/// Parse a term at `pos`: a literal or group with an optional postfix
/// unary operator.
fn term(s: &str, pos: usize) -> (r: Option<(Expr, usize)>)
    requires
        pos <= s@.len(),
    ensures
        (r is Some <==> spec_term(s@, pos as int) is Some),
        (r matches Some((e, p)) ==> spec_term(s@, pos as int) == Some((e, p as int)) && pos < p
            <= s@.len() && wf_expr(e)),
    decreases s@.len() - pos, 1int,
{
    let start = skip_spaces(s, pos);
    let base = match number(s, start) {
        Some(x) => Some(x),
        None => parens(s, start),
    };
    match base {
        None => None,
        Some((e, p1)) => {
            let p2 = skip_spaces(s, p1);
            let len = s.unicode_len();
            if p2 < len && s.get_char(p2) == '!' {
                Some((Expr::UnaryOp('!', Box::new(e)), p2 + 1))
            } else if p2 < len && s.get_char(p2) == '√' {
                Some((Expr::UnaryOp('√', Box::new(e)), p2 + 1))
            } else {
                Some((e, p2))
            }
        },
    }
}

/// Parse an expression at `pos`: one term, then a left-associative fold
/// of `binop term` pairs.
#[verifier::loop_isolation(false)]
fn expr(s: &str, pos: usize) -> (r: Option<(Expr, usize)>)
    requires
        pos <= s@.len(),
    ensures
        (r is Some <==> spec_expr(s@, pos as int) is Some),
        (r matches Some((e, p)) ==> spec_expr(s@, pos as int) == Some((e, p as int)) && pos < p
            <= s@.len() && wf_expr(e)),
    decreases s@.len() - pos, 2int,
{
    match term(s, pos) {
        None => None,
        Some((t0, p1)) => {
            let ghost t0g = t0;
            let mut acc = t0;
            let mut p = p1;
            let mut stop = false;
            while !stop
                invariant
                    pos < p <= s@.len(),
                    wf_expr(acc),
                    !stop ==> spec_expr_tail(s@, p1 as int, t0g) == spec_expr_tail(
                        s@,
                        p as int,
                        acc,
                    ),
                    stop ==> spec_expr_tail(s@, p1 as int, t0g) == (acc, p as int),
                decreases s@.len() - p + (if stop {
                    0int
                } else {
                    1int
                }),
            {
                match op(s, p) {
                    None => {
                        stop = true;
                    },
                    Some((c, p2)) => {
                        match term(s, p2) {
                            None => {
                                stop = true;
                            },
                            Some((t, p3)) => {
                                acc = Expr::BinOp(Box::new(acc), c, Box::new(t));
                                p = p3;
                            },
                        }
                    },
                }
            }
            Some((acc, p))
        },
    }
}

/// The byte a binary operator symbol compiles to.
pub open spec fn binop_code(c: char) -> u8 {
    if c == '+' {
        opcode_value(Opcode::Addition)
    } else if c == '-' {
        opcode_value(Opcode::Subtract)
    } else if c == '*' {
        opcode_value(Opcode::Multiply)
    } else if c == '/' {
        opcode_value(Opcode::Divide)
    } else {
        opcode_value(Opcode::Modulo)
    }
}

/// The bytecode a tree compiles to: a post-order walk — children first,
/// then the node's instruction — with each literal carried as its 9-byte
/// encoding behind a `Literal` instruction.
pub open spec fn compiled(e: Expr) -> Seq<u8>
    decreases e,
{
    match e {
        Expr::Number(v) => seq![opcode_value(Opcode::Literal)] + v.enc(),
        Expr::UnaryOp(c, a) => compiled(*a) + seq![
            if c == '!' {
                opcode_value(Opcode::Factorial)
            } else {
                opcode_value(Opcode::Sqrt)
            },
        ],
        Expr::BinOp(l, c, r) => compiled(*l) + compiled(*r) + seq![binop_code(c)],
    }
}

/// Emit the bytecode of `expr` onto `bytecode` by a post-order walk.
fn compile_expr(expr: &Expr, bytecode: &mut Vec<u8>)
    requires
        wf_expr(*expr),
    ensures
        final(bytecode)@ == old(bytecode)@ + compiled(*expr),
    decreases *expr,
{
    match expr {
        Expr::Number(value) => {
            bytecode.push(Opcode::Literal.to_u8());
            let mut enc = value.to_vec();
            bytecode.append(&mut enc);
            proof {
                assert(bytecode@ =~= old(bytecode)@ + compiled(*expr));
            }
        },
        Expr::UnaryOp(c, inner) => {
            compile_expr(inner, bytecode);
            if *c == '!' {
                bytecode.push(Opcode::Factorial.to_u8());
            } else {
                bytecode.push(Opcode::Sqrt.to_u8());
            }
            proof {
                assert(bytecode@ =~= old(bytecode)@ + compiled(*expr));
            }
        },
        Expr::BinOp(l, c, r) => {
            compile_expr(l, bytecode);
            compile_expr(r, bytecode);
            let oc = if *c == '+' {
                Opcode::Addition
            } else if *c == '-' {
                Opcode::Subtract
            } else if *c == '*' {
                Opcode::Multiply
            } else if *c == '/' {
                Opcode::Divide
            } else {
                Opcode::Modulo
            };
            bytecode.push(oc.to_u8());
            proof {
                assert(bytecode@ =~= old(bytecode)@ + compiled(*expr));
            }
        },
    }
}

/// Compile a source text: parse it as one expression and emit its
/// bytecode, terminated by a single `Return` instruction. Malformed
/// text — including trailing characters after the expression — is a
/// syntax error.
pub fn compile(input: &str) -> (r: Result<Vec<u8>, &'static str>)
    ensures
        (r is Ok <==> spec_parse(input@) is Some),
        (spec_parse(input@) matches Some(ast) ==> wf_expr(ast) && (r matches Ok(b) && b@
            == compiled(ast) + seq![opcode_value(Opcode::Return)])),
        (r matches Err(m) ==> m@ == "Failed to parse expression"@),
{
    match expr(input, 0) {
        None => Err("Failed to parse expression"),
        Some((ast, p)) => {
            let rest = skip_spaces(input, p);
            if rest < input.unicode_len() {
                return Err("Failed to parse expression");
            }
            let mut bytecode: Vec<u8> = Vec::new();
            compile_expr(&ast, &mut bytecode);
            bytecode.push(Opcode::Return.to_u8());
            Ok(bytecode)
        },
    }
}


} // verus!
