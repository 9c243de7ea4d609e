use vstd::prelude::*;

use super::instruction::Type;

verus! {

pub use super::scope::addr;

/// The heap: values addressed by index. Addresses never move.
pub struct Memory(pub Vec<Type>);

/// `h` after writing `v` at `i`, padded with `Null` up to `i` where `i` is past the end.
pub open spec fn stored(h: Seq<Type>, i: int, v: Type) -> Seq<Type> {
    if i < h.len() {
        h.update(i, v)
    } else {
        (h + Seq::new((i - h.len()) as nat, |_j: int| Type::Null)).push(v)
    }
}

/// `h` without its trailing run of `Null` slots.
pub open spec fn trim_nulls(h: Seq<Type>) -> Seq<Type>
    decreases h.len(),
{
    if h.len() > 0 && h.last() is Null {
        trim_nulls(h.drop_last())
    } else {
        h
    }
}

/// `h` with the slot at `i` overwritten by `Null`, if there is such a slot.
pub open spec fn freed(h: Seq<Type>, i: int) -> Seq<Type> {
    if 0 <= i < h.len() {
        h.update(i, Type::Null)
    } else {
        h
    }
}

impl View for Memory {
    type V = Seq<Type>;

    open spec fn view(&self) -> Seq<Type> {
        self.0@
    }
}

impl Memory {
    pub fn new() -> (m: Memory)
        ensures
            m@ == Seq::<Type>::empty(),
    {
        Memory(Vec::new())
    }

    /// Appends `value` and returns its address.
    pub fn add(&mut self, value: Type) -> (a: usize)
        ensures
            a == old(self)@.len(),
            final(self)@ == old(self)@.push(value),
    {
        let next_addr = self.0.len();
        self.0.push(value);
        next_addr
    }

    pub fn get(&self, index: usize) -> (r: &Type)
        requires
            index < self@.len(),
        ensures
            *r == self@[index as int],
    {
        &self.0[index]
    }

    pub fn set(&mut self, index: usize, value: Type)
        ensures
            final(self)@ == stored(old(self)@, index as int, value),
    {
        let ghost h = self@;
        if index >= self.0.len() {
            while self.0.len() < index
                invariant
                    h.len() <= self@.len() <= index,
                    self@ == h + Seq::new((self@.len() - h.len()) as nat, |_j: int| Type::Null),
                decreases index - self@.len(),
            {
                self.0.push(Type::Null);
                assert(self@ =~= h + Seq::new((self@.len() - h.len()) as nat, |_j: int| Type::Null));
            }
            self.0.push(value);
        } else {
            self.0[index] = value;
        }
    }

    /// Drops the trailing run of `Null` slots.
    pub fn cleanup(&mut self)
        ensures
            final(self)@ == trim_nulls(old(self)@),
    {
        while self.0.len() > 0 && matches!(self.0[self.0.len() - 1], Type::Null)
            invariant
                trim_nulls(self@) == trim_nulls(old(self)@),
            decreases self@.len(),
        {
            self.0.pop();
        }
    }

    pub fn free(&mut self, addr: usize)
        ensures
            final(self)@ == freed(old(self)@, addr as int),
    {
        if addr < self.0.len() {
            self.0[addr] = Type::Null;
        }
    }
}

} // verus!
