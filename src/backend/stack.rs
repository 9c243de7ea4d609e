use vstd::prelude::*;

use super::instruction::Type;
use super::scope::addr;

verus! {

/// One cell of the operand stack: a value, or the heap address of one that is
/// read when it is needed.
#[derive(Debug, PartialEq)]
pub enum StackValue {
    Literal(Type),
    Addr(addr),
}

impl Clone for StackValue {
    fn clone(&self) -> (r: StackValue)
        ensures
            r == *self,
    {
        match self {
            StackValue::Literal(v) => StackValue::Literal(v.clone()),
            StackValue::Addr(a) => StackValue::Addr(*a),
        }
    }
}

/// The operand stack; its view lists the cells bottom first.
pub struct Stack {
    internal: Vec<StackValue>,
}

impl View for Stack {
    type V = Seq<StackValue>;

    closed spec fn view(&self) -> Seq<StackValue> {
        self.internal@
    }
}

impl Stack {
    pub fn new() -> (s: Stack)
        ensures
            s@ == Seq::<StackValue>::empty(),
    {
        Stack { internal: Vec::new() }
    }

    pub fn new_with(first: StackValue) -> (s: Stack)
        ensures
            s@ == seq![first],
    {
        let mut internal = Vec::new();
        internal.push(first);
        Stack { internal }
    }

    pub fn len(&self) -> (n: usize)
        ensures
            n == self@.len(),
    {
        self.internal.len()
    }

    #[inline]
    pub fn push(&mut self, value: StackValue)
        ensures
            final(self)@ == old(self)@.push(value),
    {
        self.internal.push(value);
    }

    /// Removes the top cell; `None`, and no change, on an empty stack.
    #[inline]
    pub fn pop(&mut self) -> (r: Option<StackValue>)
        ensures
            old(self)@.len() == 0 ==> r is None && final(self)@ == old(self)@,
            old(self)@.len() > 0 ==> r == Some(old(self)@.last()) && final(self)@
                == old(self)@.drop_last(),
    {
        self.internal.pop()
    }

    #[inline]
    pub fn peek(&self) -> (r: Option<&StackValue>)
        ensures
            self@.len() == 0 ==> r is None,
            self@.len() > 0 ==> r == Some(&self@.last()),
    {
        let n = self.internal.len();
        if n == 0 {
            None
        } else {
            Some(&self.internal[n - 1])
        }
    }

    #[inline]
    pub fn peek_mut(&mut self) -> (r: &mut StackValue)
        requires
            old(self)@.len() > 0,
        ensures
            *r == old(self)@.last(),
            final(self)@ == old(self)@.update(old(self)@.len() - 1, *final(r)),
    {
        let n = self.internal.len();
        &mut self.internal[n - 1]
    }
}

} // verus!
