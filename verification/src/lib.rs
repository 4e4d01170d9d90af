//! A small expression engine: source text is parsed into an expression tree,
//! compiled to a linear bytecode stream, and executed on a bounded stack
//! machine, yielding a single numeric value (integer or floating point,
//! the latter carried as its IEEE-754 bit pattern).

pub mod compiler;
pub mod eval;
pub mod float;
pub mod opcode;
pub mod stack;
pub mod value;
pub mod vm;
