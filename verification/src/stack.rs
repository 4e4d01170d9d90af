//! The bounded operand stack used by the virtual machine: a last-in
//! first-out sequence of values with a fixed maximum depth. Pushing past
//! the bound and popping an empty stack are reported, never performed.

use crate::value::Value;
use crate::vm::VmError;
use vstd::prelude::*;

verus! {

pub struct Stack {
    max: usize,
    data: Vec<Value>,
}

impl View for Stack {
    type V = Seq<Value>;

    /// The values held, bottom of the stack first.
    closed spec fn view(&self) -> Seq<Value> {
        self.data@
    }
}

impl Stack {
    /// The maximum number of values this stack may hold at once.
    pub closed spec fn max_depth(self) -> nat {
        self.max as nat
    }

    /// An empty stack bounded at `max` values.
    pub fn new(max: usize) -> (s: Stack)
        ensures
            s@ == Seq::<Value>::empty(),
            s.max_depth() == max,
    {
        Stack { max, data: Vec::new() }
    }

    /// Push `value`, or report overflow (leaving the stack unchanged)
    /// when the stack already holds its maximum.
    pub fn push(&mut self, value: Value) -> (r: Result<(), VmError>)
        ensures
            final(self).max_depth() == old(self).max_depth(),
            old(self)@.len() < old(self).max_depth() ==> r is Ok && final(self)@
                == old(self)@.push(value),
            old(self)@.len() >= old(self).max_depth() ==> r == Err::<(), VmError>(
                VmError::StackOverflow,
            ) && final(self)@ == old(self)@,
    {
        if self.data.len() < self.max {
            self.data.push(value);
            Ok(())
        } else {
            Err(VmError::StackOverflow)
        }
    }

    /// Pop the most recently pushed value, or report underflow when the
    /// stack is empty.
    pub fn pop(&mut self) -> (r: Result<Value, VmError>)
        ensures
            final(self).max_depth() == old(self).max_depth(),
            old(self)@.len() > 0 ==> r == Ok::<Value, VmError>(old(self)@.last()) && final(self)@
                == old(self)@.drop_last(),
            old(self)@.len() == 0 ==> r == Err::<Value, VmError>(VmError::StackUnderflow)
                && final(self)@ == old(self)@,
    {
        match self.data.pop() {
            Some(v) => Ok(v),
            None => Err(VmError::StackUnderflow),
        }
    }

    /// The number of values currently held.
    pub fn len(&self) -> (r: usize)
        ensures
            r == self@.len(),
    {
        self.data.len()
    }

    /// The configured maximum depth.
    pub fn capacity(&self) -> (r: usize)
        ensures
            r == self.max_depth(),
    {
        self.max
    }
}

} // verus!
