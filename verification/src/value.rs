//! The tagged numeric value: a 64-bit signed integer or a double-precision
//! float carried as its IEEE-754 bit pattern, with a fixed 9-byte binary
//! encoding and the mixed-type promotion rules for arithmetic.

use crate::float::{
    add_bits, div_bits, float_add, float_div, float_mul, float_of_int, float_rem, float_sub,
    int_to_float, mul_bits, rem_bits, sub_bits,
};
use crate::vm::VmError;
use vstd::prelude::*;

verus! {

/// A runtime value. `Float` holds the IEEE-754 double-precision bit
/// pattern of the number it denotes; all float arithmetic is performed
/// on bit patterns by the wrappers in `crate::float`.
#[derive(Clone, Copy, Debug, PartialEq, Eq, Structural)]
pub enum Value {
    Int(i64),
    Float(u64),
}

/// The big-endian byte decomposition of a 64-bit word.
pub open spec fn u64_be_bytes(x: u64) -> Seq<u8> {
    seq![
        (x >> 56) as u8,
        (x >> 48) as u8,
        (x >> 40) as u8,
        (x >> 32) as u8,
        (x >> 24) as u8,
        (x >> 16) as u8,
        (x >> 8) as u8,
        x as u8,
    ]
}

/// The 64-bit word read from 8 big-endian bytes.
pub open spec fn u64_from_be_bytes(s: Seq<u8>) -> u64
    recommends
        s.len() == 8,
{
    ((s[0] as u64) << 56) | ((s[1] as u64) << 48) | ((s[2] as u64) << 40) | ((s[3] as u64) << 32)
        | ((s[4] as u64) << 24) | ((s[5] as u64) << 16) | ((s[6] as u64) << 8) | (s[7] as u64)
}

pub proof fn lemma_be_bytes_roundtrip(x: u64)
    ensures
        u64_from_be_bytes(u64_be_bytes(x)) == x,
{
    assert((((((x >> 56) as u8) as u64) << 56) | ((((x >> 48) as u8) as u64) << 48) | ((((x
        >> 40) as u8) as u64) << 40) | ((((x >> 32) as u8) as u64) << 32) | ((((x
        >> 24) as u8) as u64) << 24) | ((((x >> 16) as u8) as u64) << 16) | ((((x
        >> 8) as u8) as u64) << 8) | ((x as u8) as u64)) == x) by (bit_vector);
}

/// Decoding the first 9 bytes of `s` as a tagged literal: tag 0 is a
/// signed integer, tag 1 a float bit pattern, each followed by 8
/// big-endian payload bytes. Any other tag, or fewer than 9 bytes,
/// is rejected.
pub open spec fn spec_decode(s: Seq<u8>) -> Option<Value> {
    if s.len() >= 9 {
        if s[0] == 0u8 {
            Some(Value::Int(u64_from_be_bytes(s.subrange(1, 9)) as i64))
        } else if s[0] == 1u8 {
            Some(Value::Float(u64_from_be_bytes(s.subrange(1, 9))))
        } else {
            None
        }
    } else {
        None
    }
}

impl Value {
    /// The 9-byte encoding of this value: a type tag, then the payload
    /// in big-endian order.
    pub open spec fn enc(self) -> Seq<u8> {
        match self {
            Value::Int(i) => seq![0u8] + u64_be_bytes(i as u64),
            Value::Float(b) => seq![1u8] + u64_be_bytes(b),
        }
    }

    /// Serialize this value to its 9-byte encoding.
    pub fn to_vec(&self) -> (r: Vec<u8>)
        ensures
            r@ == self.enc(),
    {
        let mut bytes: Vec<u8> = Vec::new();
        match self {
            Value::Int(v) => {
                bytes.push(0u8);
                push_be_bytes(&mut bytes, *v as u64);
            },
            Value::Float(b) => {
                bytes.push(1u8);
                push_be_bytes(&mut bytes, *b);
            },
        }
        proof {
            assert(bytes@ =~= self.enc());
        }
        bytes
    }

    /// The number of bytes this value's encoding occupies.
    pub fn size(&self) -> (r: usize)
        ensures
            r == self.enc().len(),
    {
        match self {
            Value::Int(_) => 9,
            Value::Float(_) => 9,
        }
    }

    /// Decode a value from the leading bytes of `bytes`; bytes past the
    /// 9-byte encoding are ignored.
    pub fn from_bytes(bytes: &[u8]) -> (r: Option<Value>)
        ensures
            r == spec_decode(bytes@),
    {
        if bytes.len() < 9 {
            return None;
        }
        let tag = bytes[0];
        if tag == 0u8 {
            let w = read_be_bytes(bytes, 1);
            Some(Value::Int(w as i64))
        } else if tag == 1u8 {
            let w = read_be_bytes(bytes, 1);
            Some(Value::Float(w))
        } else {
            None
        }
    }
}

/// Every value decodes back from its own encoding, whatever follows it.
pub proof fn lemma_codec_roundtrip(v: Value, rest: Seq<u8>)
    ensures
        spec_decode(v.enc() + rest) == Some(v),
{
    let s = v.enc() + rest;
    match v {
        Value::Int(i) => {
            assert(s.subrange(1, 9) =~= u64_be_bytes(i as u64));
            lemma_be_bytes_roundtrip(i as u64);
            assert(((i as u64) as i64) == i) by (bit_vector);
        },
        Value::Float(b) => {
            assert(s.subrange(1, 9) =~= u64_be_bytes(b));
            lemma_be_bytes_roundtrip(b);
        },
    }
}

/// Append the big-endian bytes of `x`.
fn push_be_bytes(bytes: &mut Vec<u8>, x: u64)
    ensures
        final(bytes)@ == old(bytes)@ + u64_be_bytes(x),
{
    bytes.push((x >> 56) as u8);
    bytes.push((x >> 48) as u8);
    bytes.push((x >> 40) as u8);
    bytes.push((x >> 32) as u8);
    bytes.push((x >> 24) as u8);
    bytes.push((x >> 16) as u8);
    bytes.push((x >> 8) as u8);
    bytes.push(x as u8);
    proof {
        assert(bytes@ =~= old(bytes)@ + u64_be_bytes(x));
    }
}

/// Read 8 big-endian bytes starting at `pos`.
fn read_be_bytes(bytes: &[u8], pos: usize) -> (r: u64)
    requires
        pos + 8 <= bytes@.len(),
    ensures
        r == u64_from_be_bytes(bytes@.subrange(pos as int, pos + 8)),
{
    let r = ((bytes[pos] as u64) << 56) | ((bytes[pos + 1] as u64) << 48) | ((bytes[pos
        + 2] as u64) << 40) | ((bytes[pos + 3] as u64) << 32) | ((bytes[pos + 4] as u64) << 24) | ((
    bytes[pos + 5] as u64) << 16) | ((bytes[pos + 6] as u64) << 8) | (bytes[pos + 7] as u64);
    proof {
        let s = bytes@.subrange(pos as int, pos + 8);
        assert(s[0] == bytes@[pos as int] && s[1] == bytes@[pos + 1] && s[2] == bytes@[pos + 2]
            && s[3] == bytes@[pos + 3] && s[4] == bytes@[pos + 4] && s[5] == bytes@[pos + 5] && s[6]
            == bytes@[pos + 6] && s[7] == bytes@[pos + 7]);
    }
    r
}

/// Truncating (round-toward-zero) integer division, the native semantics
/// of signed machine division.
pub open spec fn trunc_div(x: int, d: int) -> int
    recommends
        d != 0,
{
    if x >= 0 && d > 0 {
        x / d
    } else if x <= 0 && d < 0 {
        (-x) / (-d)
    } else if x < 0 {
        -((-x) / d)
    } else {
        -(x / (-d))
    }
}

/// Truncating remainder: the leftover of `trunc_div`, carrying the sign
/// of the dividend.
pub open spec fn trunc_rem(x: int, d: int) -> int
    recommends
        d != 0,
{
    if x >= 0 && d > 0 {
        x % d
    } else if x <= 0 && d < 0 {
        -((-x) % (-d))
    } else if x < 0 {
        -((-x) % d)
    } else {
        x % (-d)
    }
}

/// Addition under the promotion rules: integer plus integer stays an
/// integer (rejecting results outside the 64-bit range); any float
/// operand widens the other and yields a float.
pub open spec fn spec_add(a: Value, b: Value) -> Result<Value, VmError> {
    match (a, b) {
        (Value::Int(x), Value::Int(y)) => if x + y > i64::MAX || x + y < i64::MIN {
            Err(VmError::IntegerOverflow)
        } else {
            Ok(Value::Int((x + y) as i64))
        },
        (Value::Float(x), Value::Float(y)) => Ok(Value::Float(add_bits(x, y))),
        (Value::Int(x), Value::Float(y)) => Ok(Value::Float(add_bits(float_of_int(x), y))),
        (Value::Float(x), Value::Int(y)) => Ok(Value::Float(add_bits(x, float_of_int(y)))),
    }
}

pub open spec fn spec_sub(a: Value, b: Value) -> Result<Value, VmError> {
    match (a, b) {
        (Value::Int(x), Value::Int(y)) => if x - y > i64::MAX || x - y < i64::MIN {
            Err(VmError::IntegerOverflow)
        } else {
            Ok(Value::Int((x - y) as i64))
        },
        (Value::Float(x), Value::Float(y)) => Ok(Value::Float(sub_bits(x, y))),
        (Value::Int(x), Value::Float(y)) => Ok(Value::Float(sub_bits(float_of_int(x), y))),
        (Value::Float(x), Value::Int(y)) => Ok(Value::Float(sub_bits(x, float_of_int(y)))),
    }
}

pub open spec fn spec_mul(a: Value, b: Value) -> Result<Value, VmError> {
    match (a, b) {
        (Value::Int(x), Value::Int(y)) => if x * y > i64::MAX || x * y < i64::MIN {
            Err(VmError::IntegerOverflow)
        } else {
            Ok(Value::Int((x * y) as i64))
        },
        (Value::Float(x), Value::Float(y)) => Ok(Value::Float(mul_bits(x, y))),
        (Value::Int(x), Value::Float(y)) => Ok(Value::Float(mul_bits(float_of_int(x), y))),
        (Value::Float(x), Value::Int(y)) => Ok(Value::Float(mul_bits(x, float_of_int(y)))),
    }
}

/// Division: integer division by zero is an error, as is the one
/// quotient outside the 64-bit range; float division follows IEEE-754
/// (a zero divisor yields an infinity or NaN, not an error).
pub open spec fn spec_div(a: Value, b: Value) -> Result<Value, VmError> {
    match (a, b) {
        (Value::Int(x), Value::Int(y)) => if y == 0 {
            Err(VmError::DivisionByZero)
        } else if trunc_div(x as int, y as int) > i64::MAX || trunc_div(x as int, y as int)
            < i64::MIN {
            Err(VmError::IntegerOverflow)
        } else {
            Ok(Value::Int(trunc_div(x as int, y as int) as i64))
        },
        (Value::Float(x), Value::Float(y)) => Ok(Value::Float(div_bits(x, y))),
        (Value::Int(x), Value::Float(y)) => Ok(Value::Float(div_bits(float_of_int(x), y))),
        (Value::Float(x), Value::Int(y)) => Ok(Value::Float(div_bits(x, float_of_int(y)))),
    }
}

pub open spec fn spec_rem(a: Value, b: Value) -> Result<Value, VmError> {
    match (a, b) {
        (Value::Int(x), Value::Int(y)) => if y == 0 {
            Err(VmError::DivisionByZero)
        } else if x == i64::MIN && y == -1 {
            Err(VmError::IntegerOverflow)
        } else {
            Ok(Value::Int(trunc_rem(x as int, y as int) as i64))
        },
        (Value::Float(x), Value::Float(y)) => Ok(Value::Float(rem_bits(x, y))),
        (Value::Int(x), Value::Float(y)) => Ok(Value::Float(rem_bits(float_of_int(x), y))),
        (Value::Float(x), Value::Int(y)) => Ok(Value::Float(rem_bits(x, float_of_int(y)))),
    }
}

impl Value {
    pub fn add(self, rhs: Value) -> (r: Result<Value, VmError>)
        ensures
            r == spec_add(self, rhs),
    {
        match (self, rhs) {
            (Value::Int(x), Value::Int(y)) => match x.checked_add(y) {
                Some(v) => Ok(Value::Int(v)),
                None => Err(VmError::IntegerOverflow),
            },
            (Value::Float(x), Value::Float(y)) => Ok(Value::Float(float_add(x, y))),
            (Value::Int(x), Value::Float(y)) => Ok(Value::Float(float_add(int_to_float(x), y))),
            (Value::Float(x), Value::Int(y)) => Ok(Value::Float(float_add(x, int_to_float(y)))),
        }
    }

    pub fn sub(self, rhs: Value) -> (r: Result<Value, VmError>)
        ensures
            r == spec_sub(self, rhs),
    {
        match (self, rhs) {
            (Value::Int(x), Value::Int(y)) => match x.checked_sub(y) {
                Some(v) => Ok(Value::Int(v)),
                None => Err(VmError::IntegerOverflow),
            },
            (Value::Float(x), Value::Float(y)) => Ok(Value::Float(float_sub(x, y))),
            (Value::Int(x), Value::Float(y)) => Ok(Value::Float(float_sub(int_to_float(x), y))),
            (Value::Float(x), Value::Int(y)) => Ok(Value::Float(float_sub(x, int_to_float(y)))),
        }
    }

    pub fn mul(self, rhs: Value) -> (r: Result<Value, VmError>)
        ensures
            r == spec_mul(self, rhs),
    {
        match (self, rhs) {
            (Value::Int(x), Value::Int(y)) => match x.checked_mul(y) {
                Some(v) => Ok(Value::Int(v)),
                None => Err(VmError::IntegerOverflow),
            },
            (Value::Float(x), Value::Float(y)) => Ok(Value::Float(float_mul(x, y))),
            (Value::Int(x), Value::Float(y)) => Ok(Value::Float(float_mul(int_to_float(x), y))),
            (Value::Float(x), Value::Int(y)) => Ok(Value::Float(float_mul(x, int_to_float(y)))),
        }
    }

    pub fn div(self, rhs: Value) -> (r: Result<Value, VmError>)
        ensures
            r == spec_div(self, rhs),
    {
        match (self, rhs) {
            (Value::Int(x), Value::Int(y)) => if y == 0 {
                Err(VmError::DivisionByZero)
            } else {
                match x.checked_div(y) {
                    Some(v) => Ok(Value::Int(v)),
                    None => Err(VmError::IntegerOverflow),
                }
            },
            (Value::Float(x), Value::Float(y)) => Ok(Value::Float(float_div(x, y))),
            (Value::Int(x), Value::Float(y)) => Ok(Value::Float(float_div(int_to_float(x), y))),
            (Value::Float(x), Value::Int(y)) => Ok(Value::Float(float_div(x, int_to_float(y)))),
        }
    }

    pub fn rem(self, rhs: Value) -> (r: Result<Value, VmError>)
        ensures
            r == spec_rem(self, rhs),
    {
        match (self, rhs) {
            (Value::Int(x), Value::Int(y)) => if y == 0 {
                Err(VmError::DivisionByZero)
            } else {
                proof {
                    let xi = x as int;
                    let yi = y as int;
                    let m = if yi > 0 {
                        yi
                    } else {
                        -yi
                    };
                    let a = if xi >= 0 {
                        xi
                    } else {
                        -xi
                    };
                    assert(0 <= a % m < m && 0int % m == 0) by (nonlinear_arith)
                        requires
                            m > 0,
                            a >= 0,
                    ;
                }
                match x.checked_rem(y) {
                    Some(v) => Ok(Value::Int(v)),
                    None => Err(VmError::IntegerOverflow),
                }
            },
            (Value::Float(x), Value::Float(y)) => Ok(Value::Float(float_rem(x, y))),
            (Value::Int(x), Value::Float(y)) => Ok(Value::Float(float_rem(int_to_float(x), y))),
            (Value::Float(x), Value::Int(y)) => Ok(Value::Float(float_rem(x, int_to_float(y)))),
        }
    }
}

} // verus!
