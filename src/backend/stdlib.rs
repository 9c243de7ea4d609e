use vstd::prelude::*;

use super::compiler::{done, emitted, CompileError, CompileFault, Lowering};
use super::instruction::{code_target, targets_within, Instr, Type};
use super::names::{bind, bindings, lookup, Binding, State};
use super::stack::StackValue;
use super::text::push_str;

verus! {

/// The offset of `name`: its existing binding's, or a new one at `depth + next`.
pub open spec fn spec_get_id(
    name: Seq<char>,
    names: Map<Seq<char>, Binding>,
    depth: usize,
    next: usize,
) -> Option<usize> {
    if names.contains_key(name) {
        Some(names[name].0)
    } else if depth + next <= usize::MAX {
        Some((depth + next) as usize)
    } else {
        None
    }
}

fn get_id(name: &str, state: &State, depth: usize, next: usize) -> (r: Option<usize>)
    ensures
        r == spec_get_id(name@, bindings(*state), depth, next),
{
    match lookup(state, name) {
        Some((id, _)) => Some(id),
        None => if next <= usize::MAX - depth {
            Some(depth + next)
        } else {
            None
        },
    }
}

/// The prelude at index `at`: a function `print(x)` that prints `x` and
/// returns `none`, jumped over, then bound to the name `print`.
pub open spec fn prelude(
    names: Map<Seq<char>, Binding>,
    depth: usize,
    next: usize,
    at: int,
) -> Lowering {
    match spec_get_id("print"@, names, depth, next) {
        None => Err(CompileFault::TooManyBindings),
        Some(id) => if next + 1 > usize::MAX || at + 4 > usize::MAX {
            Err(CompileFault::TooManyBindings)
        } else {
            done(
                seq![
                    Instr::Jump((at + 4) as usize),
                    Instr::Print,
                    Instr::Push(StackValue::Literal(Type::Nil)),
                    Instr::Return,
                    Instr::Push(StackValue::Literal(Type::FuncPtr((at + 1) as usize))),
                    if depth == 0 {
                        Instr::StoreGlobal(id)
                    } else {
                        Instr::StoreLocal(id)
                    },
                ],
                names.insert("print"@, (id, depth)),
                (next + 1) as usize,
            )
        },
    }
}

/// Appends the prelude (see [`prelude`]).
pub fn add_std(ins: &mut Vec<Instr>, state: &mut State, depth: usize, next: &mut usize) -> (r:
    Result<(), CompileError>)
    ensures
        match prelude(bindings(*old(state)), depth, *old(next), old(ins)@.len() as int) {
            Ok(l) => {
                &&& r is Ok
                &&& final(ins)@ == old(ins)@ + l.code
                &&& bindings(*final(state)) == l.names
                &&& *final(next) == l.next
            },
            Err(f) => r matches Err(e) && e@ == f,
        },
        targets_within(old(ins)@, old(ins)@.len() as int) ==> targets_within(
            final(ins)@,
            final(ins)@.len() as int,
        ),
{
    let top = ins.len();
    let id = match get_id("print", state, depth, *next) {
        None => {
            return Err(CompileError::TooManyBindings);
        },
        Some(id) => id,
    };
    if *next == usize::MAX || top > usize::MAX - 4 {
        return Err(CompileError::TooManyBindings);
    }
    *next = *next + 1;
    let mut name = String::new();
    push_str(&mut name, "print");
    bind(state, name, (id, depth));
    let ghost ins0 = ins@;
    let store = if depth == 0 {
        Instr::StoreGlobal(id)
    } else {
        Instr::StoreLocal(id)
    };
    let code = vec![
        Instr::Jump(top + 4),
        Instr::Print,
        Instr::Push(StackValue::Literal(Type::Nil)),
        Instr::Return,
        Instr::Push(StackValue::Literal(Type::FuncPtr(top + 1))),
        store,
    ];
    assert(code@ =~= seq![
        Instr::Jump((top + 4) as usize),
        Instr::Print,
        Instr::Push(StackValue::Literal(Type::Nil)),
        Instr::Return,
        Instr::Push(StackValue::Literal(Type::FuncPtr((top + 1) as usize))),
        store,
    ]);
    let mut i: usize = 0;
    while i < code.len()
        invariant
            0 <= i <= code@.len(),
            code@.len() == 6,
            top == ins0.len(),
            ins@ == ins0 + code@.take(i as int),
            code@ == seq![
                Instr::Jump((top + 4) as usize),
                Instr::Print,
                Instr::Push(StackValue::Literal(Type::Nil)),
                Instr::Return,
                Instr::Push(StackValue::Literal(Type::FuncPtr((top + 1) as usize))),
                store,
            ],
        decreases code@.len() - i,
    {
        ins.push(code[i].clone());
        assert(ins@ =~= ins0 + code@.take(i + 1));
        i = i + 1;
    }
    assert(code@.take(6) =~= code@);
    proof {
        if targets_within(ins0, ins0.len() as int) {
            assert forall|j: int| 0 <= j < ins@.len() implies (#[trigger] code_target(ins@[j]) matches Some(
                t,
            ) ==> t <= ins@.len()) by {
                if j < ins0.len() {
                    assert(ins@[j] == ins0[j]);
                } else {
                    assert(ins@[j] == code@[j - ins0.len()]);
                }
            }
        }
    }
    Ok(())
}

} // verus!
