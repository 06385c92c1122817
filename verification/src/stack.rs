//! The per-frame operand stack: at most 1024 words, top at the end.

use vstd::prelude::*;
use crate::errors::VMError;
use crate::word::U256;

verus! {

pub const STACK_LIMIT: usize = 1024;

pub struct Stack {
    pub values: Vec<U256>,
}

impl View for Stack {
    type V = Seq<U256>;

    open spec fn view(&self) -> Seq<U256> {
        self.values@
    }
}

impl Stack {
    pub open spec fn wf(&self) -> bool {
        self@.len() <= STACK_LIMIT
    }

    pub fn new() -> (r: Stack)
        ensures
            r@ == Seq::<U256>::empty(),
            r.wf(),
    {
        Stack { values: Vec::new() }
    }

    pub fn len(&self) -> (r: usize)
        ensures
            r == self@.len(),
    {
        self.values.len()
    }

    /// Push, or fail with `StackOverflow` at the 1024-word limit.
    pub fn push(&mut self, value: U256) -> (r: Result<(), VMError>)
        requires
            old(self).wf(),
        ensures
            final(self).wf(),
            old(self)@.len() < STACK_LIMIT ==> r is Ok && final(self)@ == old(self)@.push(value),
            old(self)@.len() >= STACK_LIMIT ==> r == Err::<(), VMError>(VMError::StackOverflow)
                && final(self)@ == old(self)@,
    {
        if self.values.len() >= STACK_LIMIT {
            return Err(VMError::StackOverflow);
        }
        self.values.push(value);
        Ok(())
    }

    /// Pop the top word, or fail with `StackUnderflow` on an empty stack.
    pub fn pop(&mut self) -> (r: Result<U256, VMError>)
        requires
            old(self).wf(),
        ensures
            final(self).wf(),
            old(self)@.len() > 0 ==> r == Ok::<U256, VMError>(old(self)@.last())
                && final(self)@ == old(self)@.drop_last(),
            old(self)@.len() == 0 ==> r == Err::<U256, VMError>(VMError::StackUnderflow)
                && final(self)@ == old(self)@,
    {
        match self.values.pop() {
            Some(v) => Ok(v),
            None => Err(VMError::StackUnderflow),
        }
    }

    /// The word `depth` places below the top, without removing it.
    pub fn peek(&self, depth: usize) -> (r: Result<U256, VMError>)
        ensures
            depth < self@.len() ==> r == Ok::<U256, VMError>(self@[self@.len() - 1 - depth]),
            depth >= self@.len() ==> r == Err::<U256, VMError>(VMError::StackUnderflow),
    {
        if depth < self.values.len() {
            Ok(self.values[self.values.len() - 1 - depth])
        } else {
            Err(VMError::StackUnderflow)
        }
    }

    /// Exchange the top word with the one `depth` places below it.
    pub fn swap(&mut self, depth: usize) -> (r: Result<(), VMError>)
        requires
            old(self).wf(),
            depth >= 1,
        ensures
            final(self).wf(),
            depth < old(self)@.len() ==> r is Ok
                && final(self)@ == old(self)@
                    .update(old(self)@.len() - 1, old(self)@[old(self)@.len() - 1 - depth])
                    .update(old(self)@.len() - 1 - depth, old(self)@.last()),
            depth >= old(self)@.len() ==> r == Err::<(), VMError>(VMError::StackUnderflow)
                && final(self)@ == old(self)@,
    {
        let n = self.values.len();
        if depth < n {
            let top = self.values[n - 1];
            let other = self.values[n - 1 - depth];
            self.values[n - 1] = other;
            self.values[n - 1 - depth] = top;
            Ok(())
        } else {
            Err(VMError::StackUnderflow)
        }
    }
}

} // verus!
