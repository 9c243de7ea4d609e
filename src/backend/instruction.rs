use vstd::prelude::*;

use super::scope::addr;
use super::scope::id;

pub use super::names::State;
use super::stack::StackValue;
use crate::stdlib::NativeFunction;

verus! {

/// A value of the language. A number is held as the bit pattern of an
/// IEEE-754 double; the host does the floating-point work on it.
#[derive(Debug, PartialEq)]
pub enum Type {
    Number(u64),
    String(String),
    Bool(bool),
    /// The language's `none`.
    Nil,
    /// A heap slot that was never written or has been freed.
    Null,
    Addr(usize),
    FuncPtr(usize),
    Error(String),
}

impl Clone for Type {
    fn clone(&self) -> (r: Type)
        ensures
            r == *self,
    {
        match self {
            Type::Number(n) => Type::Number(*n),
            Type::String(s) => Type::String(s.clone()),
            Type::Bool(b) => Type::Bool(*b),
            Type::Nil => Type::Nil,
            Type::Null => Type::Null,
            Type::Addr(a) => Type::Addr(*a),
            Type::FuncPtr(p) => Type::FuncPtr(*p),
            Type::Error(s) => Type::Error(s.clone()),
        }
    }
}

/// One bytecode instruction.
#[derive(Debug, PartialEq)]
pub enum Instr {
    Noop,
    Halt,
    LoadAddr(addr),
    LoadLocal(id),
    LoadGlobal(id),
    StoreAddr(addr),
    StoreLocal(id),
    StoreGlobal(id),
    Push(StackValue),
    Pop,
    Jump(usize),
    JumpIf(usize),
    JumpIfNot(usize),
    Call,
    Return,
    NativeCall(NativeFunction),
    Add,
    Sub,
    Mul,
    Div,
    Mod,
    Pow,
    Neg,
    Not,
    And,
    Or,
    Lt,
    Gt,
    Lte,
    Gte,
    Eq,
    Neq,
    Index,
    Join,
    JoinMany(usize),
    Print,
}

impl Clone for Instr {
    fn clone(&self) -> (r: Instr)
        ensures
            r == *self,
    {
        match self {
            Instr::Noop => Instr::Noop,
            Instr::Halt => Instr::Halt,
            Instr::LoadAddr(a) => Instr::LoadAddr(*a),
            Instr::LoadLocal(a) => Instr::LoadLocal(*a),
            Instr::LoadGlobal(a) => Instr::LoadGlobal(*a),
            Instr::StoreAddr(a) => Instr::StoreAddr(*a),
            Instr::StoreLocal(a) => Instr::StoreLocal(*a),
            Instr::StoreGlobal(a) => Instr::StoreGlobal(*a),
            Instr::Push(v) => Instr::Push(v.clone()),
            Instr::Pop => Instr::Pop,
            Instr::Jump(t) => Instr::Jump(*t),
            Instr::JumpIf(t) => Instr::JumpIf(*t),
            Instr::JumpIfNot(t) => Instr::JumpIfNot(*t),
            Instr::Call => Instr::Call,
            Instr::Return => Instr::Return,
            Instr::NativeCall(f) => Instr::NativeCall(*f),
            Instr::Add => Instr::Add,
            Instr::Sub => Instr::Sub,
            Instr::Mul => Instr::Mul,
            Instr::Div => Instr::Div,
            Instr::Mod => Instr::Mod,
            Instr::Pow => Instr::Pow,
            Instr::Neg => Instr::Neg,
            Instr::Not => Instr::Not,
            Instr::And => Instr::And,
            Instr::Or => Instr::Or,
            Instr::Lt => Instr::Lt,
            Instr::Gt => Instr::Gt,
            Instr::Lte => Instr::Lte,
            Instr::Gte => Instr::Gte,
            Instr::Eq => Instr::Eq,
            Instr::Neq => Instr::Neq,
            Instr::Index => Instr::Index,
            Instr::Join => Instr::Join,
            Instr::JoinMany(n) => Instr::JoinMany(*n),
            Instr::Print => Instr::Print,
        }
    }
}

/// Whether running `i` leaves a new value on the operand stack; a call counts,
/// since it comes back with the callee's return value.
pub open spec fn spec_pushes_to_stack(i: Instr) -> bool {
    !(i is Halt || i is Jump || i is JumpIf || i is JumpIfNot || i is Pop || i is Print
        || i is StoreAddr || i is StoreGlobal || i is StoreLocal || i is Return || i is Noop)
}

/// The target of a jump, or the entry of a function pointer pushed as a literal.
pub open spec fn code_target(i: Instr) -> Option<usize> {
    match i {
        Instr::Jump(t) => Some(t),
        Instr::JumpIf(t) => Some(t),
        Instr::JumpIfNot(t) => Some(t),
        Instr::Push(StackValue::Literal(Type::FuncPtr(t))) => Some(t),
        _ => None,
    }
}

/// Every jump target and function entry of `p` is at most `bound`.
pub open spec fn targets_within(p: Seq<Instr>, bound: int) -> bool {
    forall|i: int|
        0 <= i < p.len() ==> (#[trigger] code_target(p[i]) matches Some(t) ==> t <= bound)
}

impl Instr {
    pub fn pushes_to_stack(&self) -> (r: bool)
        ensures
            r == spec_pushes_to_stack(*self),
    {
        match self {
            Self::Halt => false,
            Self::Jump(_) => false,
            Self::JumpIf(_) => false,
            Self::JumpIfNot(_) => false,
            Self::Pop => false,
            Self::Print => false,
            Self::StoreAddr(_) => false,
            Self::StoreGlobal(_) => false,
            Self::StoreLocal(_) => false,
            Self::Return => false,
            Self::Noop => false,
            _ => true,
        }
    }
}

} // verus!
