//! A minimal LIFO container used for the call stack and the operand stack.

use vstd::prelude::*;

verus! {

/// A last-in, first-out stack of values.
///
/// Its view is the sequence of values from bottom (index 0) to top.
pub struct Stack<T>(Vec<T>);

impl<T> View for Stack<T> {
    type V = Seq<T>;

    closed spec fn view(&self) -> Seq<T> {
        self.0@
    }
}

impl<T> Stack<T> {
    /// Create a new, empty stack.
    pub fn new() -> (r: Stack<T>)
        ensures
            r@ == Seq::<T>::empty(),
    {
        Stack(Vec::new())
    }

    /// True exactly when the stack holds no values.
    pub fn is_empty(&self) -> (r: bool)
        ensures
            r <==> self@.len() == 0,
    {
        self.0.is_empty()
    }

    /// Push a value onto the top of the stack.
    pub fn push(&mut self, value: T)
        ensures
            final(self)@ == old(self)@.push(value),
    {
        self.0.push(value);
    }

    /// Pop the top value off the stack.
    pub fn pop(&mut self) -> (r: T)
        requires
            old(self)@.len() > 0,
        ensures
            r == old(self)@.last(),
            final(self)@ == old(self)@.drop_last(),
    {
        let popped = self.0.pop();
        match popped {
            Some(v) => v,
            None => vstd::pervasive::unreached(),
        }
    }

    /// Borrow the top value of the stack.
    pub fn peek(&self) -> (r: &T)
        requires
            self@.len() > 0,
        ensures
            *r == self@.last(),
    {
        let len = self.0.len();
        &self.0[len - 1]
    }

    /// Mutably borrow the top value of the stack.
    ///
    /// When the borrow ends, the stack holds whatever the caller left in
    /// the borrowed slot in place of the old top value.
    pub fn peek_mut(&mut self) -> (r: &mut T)
        requires
            old(self)@.len() > 0,
        ensures
            final(self)@ == old(self)@.drop_last().push(*final(r)),
    {
        let len = self.0.len();
        &mut self.0[len - 1]
    }

    /// The number of values on the stack.
    pub fn len(&self) -> (r: usize)
        ensures
            r == self@.len(),
    {
        self.0.len()
    }

    /// Borrow the value at depth `i`, counted from the bottom.
    pub(crate) fn get<'b>(&'b self, i: usize) -> (r: &'b T)
        requires
            i < self@.len(),
        ensures
            *r == self@[i as int],
    {
        &self.0[i]
    }
}

} // verus!
