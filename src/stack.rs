//! The operand stack: a last-in-first-out sequence of words holding at most 1024.
use crate::status::StatusCode;
use crate::word::U256;
use vstd::prelude::*;

verus! {

/// The most words the stack holds.
pub const STACK_CAPACITY: usize = 1024;

/// The operand stack; its view lists the words from the bottom, the top last.
pub struct Stack {
    items: Vec<U256>,
}

impl View for Stack {
    type V = Seq<U256>;

    closed spec fn view(&self) -> Seq<U256> {
        self.items@
    }
}

impl Stack {
    pub fn new() -> (r: Stack)
        ensures
            r@ == Seq::<U256>::empty(),
    {
        Stack { items: Vec::new() }
    }

    pub fn len(&self) -> (r: usize)
        ensures
            r == self@.len(),
    {
        self.items.len()
    }

    /// Pushes a word; on a full stack it fails with `StackOverflow` and changes nothing.
    pub fn push(&mut self, w: U256) -> (r: Result<(), StatusCode>)
        ensures
            old(self)@.len() < STACK_CAPACITY ==> r.is_ok() && final(self)@ == old(self)@.push(w),
            old(self)@.len() >= STACK_CAPACITY ==> r == Err::<(), StatusCode>(
                StatusCode::StackOverflow,
            ) && final(self)@ == old(self)@,
    {
        if self.items.len() >= STACK_CAPACITY {
            return Err(StatusCode::StackOverflow);
        }
        self.items.push(w);
        Ok(())
    }

    /// Pops the top word; on an empty stack it fails with `StackUnderflow` and
    /// changes nothing.
    pub fn pop(&mut self) -> (r: Result<U256, StatusCode>)
        ensures
            old(self)@.len() > 0 ==> r == Ok::<U256, StatusCode>(old(self)@.last())
                && final(self)@ == old(self)@.drop_last(),
            old(self)@.len() == 0 ==> r == Err::<U256, StatusCode>(StatusCode::StackUnderflow)
                && final(self)@ == old(self)@,
    {
        match self.items.pop() {
            Some(w) => Ok(w),
            None => Err(StatusCode::StackUnderflow),
        }
    }

    /// The word `depth` places below the top (0 is the top).
    pub fn peek(&self, depth: usize) -> (r: Result<U256, StatusCode>)
        ensures
            depth < self@.len() ==> r == Ok::<U256, StatusCode>(
                self@[self@.len() - 1 - depth],
            ),
            depth >= self@.len() ==> r == Err::<U256, StatusCode>(StatusCode::StackUnderflow),
    {
        let n = self.items.len();
        if depth >= n {
            return Err(StatusCode::StackUnderflow);
        }
        Ok(self.items[n - 1 - depth])
    }

    /// Swaps the top word with the word `depth` places below it; fails with
    /// `StackUnderflow` and changes nothing when there is no such word.
    pub fn swap_top_with(&mut self, depth: usize) -> (r: Result<(), StatusCode>)
        ensures
            depth < old(self)@.len() ==> r.is_ok() && final(self)@ == old(self)@.update(
                old(self)@.len() - 1,
                old(self)@[old(self)@.len() - 1 - depth],
            ).update(old(self)@.len() - 1 - depth, old(self)@.last()),
            depth >= old(self)@.len() ==> r == Err::<(), StatusCode>(StatusCode::StackUnderflow)
                && final(self)@ == old(self)@,
    {
        let n = self.items.len();
        if depth >= n {
            return Err(StatusCode::StackUnderflow);
        }
        let top = self.items[n - 1];
        let other = self.items[n - 1 - depth];
        self.items.set(n - 1, other);
        self.items.set(n - 1 - depth, top);
        Ok(())
    }
}

} // verus!
