//! The closed instruction set, with its stable one-byte encoding in each
//! direction. Unknown bytes decode to `None`; the virtual machine treats
//! that as a fatal condition.

use vstd::prelude::*;

verus! {

#[derive(Clone, Copy, Debug, PartialEq, Eq, Structural)]
pub enum Opcode {
    /// Push the 9-byte literal that follows the instruction byte.
    Literal,
    Addition,
    Subtract,
    Multiply,
    Divide,
    Modulo,
    /// Pop the top of the stack and yield it as the program's result.
    Return,
    Factorial,
    Sqrt,
}

/// The stable code of each instruction.
pub open spec fn opcode_value(op: Opcode) -> u8 {
    match op {
        Opcode::Literal => 0x00,
        Opcode::Addition => 0x01,
        Opcode::Subtract => 0x02,
        Opcode::Multiply => 0x03,
        Opcode::Divide => 0x04,
        Opcode::Modulo => 0x05,
        Opcode::Return => 0x06,
        Opcode::Factorial => 0x07,
        Opcode::Sqrt => 0x08,
    }
}

/// The instruction a byte denotes, if any.
pub open spec fn spec_opcode_of(b: u8) -> Option<Opcode> {
    if b == 0x00 {
        Some(Opcode::Literal)
    } else if b == 0x01 {
        Some(Opcode::Addition)
    } else if b == 0x02 {
        Some(Opcode::Subtract)
    } else if b == 0x03 {
        Some(Opcode::Multiply)
    } else if b == 0x04 {
        Some(Opcode::Divide)
    } else if b == 0x05 {
        Some(Opcode::Modulo)
    } else if b == 0x06 {
        Some(Opcode::Return)
    } else if b == 0x07 {
        Some(Opcode::Factorial)
    } else if b == 0x08 {
        Some(Opcode::Sqrt)
    } else {
        None
    }
}

impl Opcode {
    /// The byte this instruction is encoded as.
    pub fn to_u8(self) -> (r: u8)
        ensures
            r == opcode_value(self),
    {
        match self {
            Opcode::Literal => 0x00,
            Opcode::Addition => 0x01,
            Opcode::Subtract => 0x02,
            Opcode::Multiply => 0x03,
            Opcode::Divide => 0x04,
            Opcode::Modulo => 0x05,
            Opcode::Return => 0x06,
            Opcode::Factorial => 0x07,
            Opcode::Sqrt => 0x08,
        }
    }

    /// Decode an instruction byte; bytes outside the set are rejected.
    pub fn from_u8(b: u8) -> (r: Option<Opcode>)
        ensures
            r == spec_opcode_of(b),
    {
        if b == 0x00 {
            Some(Opcode::Literal)
        } else if b == 0x01 {
            Some(Opcode::Addition)
        } else if b == 0x02 {
            Some(Opcode::Subtract)
        } else if b == 0x03 {
            Some(Opcode::Multiply)
        } else if b == 0x04 {
            Some(Opcode::Divide)
        } else if b == 0x05 {
            Some(Opcode::Modulo)
        } else if b == 0x06 {
            Some(Opcode::Return)
        } else if b == 0x07 {
            Some(Opcode::Factorial)
        } else if b == 0x08 {
            Some(Opcode::Sqrt)
        } else {
            None
        }
    }
}

/// Decoding inverts encoding over the whole instruction set.
pub proof fn lemma_opcode_roundtrip(op: Opcode)
    ensures
        spec_opcode_of(opcode_value(op)) == Some(op),
{
}

} // verus!
