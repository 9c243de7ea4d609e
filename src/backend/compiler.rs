use vstd::prelude::*;

use super::instruction::{code_target, spec_pushes_to_stack, targets_within, Instr, Type};
use super::names::{bind, bindings, empty_state, fork, lookup, Binding, State};
use super::stdlib::{add_std, prelude};
use super::stack::StackValue;
use crate::frontend::{Expr, Op, AST};
use crate::stdlib::{native_named, NativeFunction};

verus! {

/// Why a tree does not compile.
#[derive(Debug, PartialEq)]
pub enum CompileError {
    UndefinedName(String),
    /// An assignment to something that is not a name, an index or a call.
    InvalidAssignmentTarget,
    UnknownNative(String),
    /// A form the compiler has no lowering for: a lambda, a slice, or an
    /// assignment to an index or a call.
    Unsupported,
    /// A slot offset or the nesting depth no longer fits a `usize`.
    TooManyBindings,
}

/// [`CompileError`] with its names as sequences.
pub enum CompileFault {
    UndefinedName(Seq<char>),
    InvalidAssignmentTarget,
    UnknownNative(Seq<char>),
    Unsupported,
    TooManyBindings,
}

impl View for CompileError {
    type V = CompileFault;

    open spec fn view(&self) -> CompileFault {
        match self {
            CompileError::UndefinedName(n) => CompileFault::UndefinedName(n@),
            CompileError::InvalidAssignmentTarget => CompileFault::InvalidAssignmentTarget,
            CompileError::UnknownNative(n) => CompileFault::UnknownNative(n@),
            CompileError::Unsupported => CompileFault::Unsupported,
            CompileError::TooManyBindings => CompileFault::TooManyBindings,
        }
    }
}

/// The code a node lowers to, with the name table and slot counter after it.
pub struct Lowered {
    pub code: Seq<Instr>,
    pub names: Map<Seq<char>, Binding>,
    pub next: usize,
}

pub type Lowering = Result<Lowered, CompileFault>;

pub open spec fn done(code: Seq<Instr>, names: Map<Seq<char>, Binding>, next: usize) -> Lowering {
    Ok(Lowered { code, names, next })
}

/// How code at `depth` reads the binding `b`: globals by their offset, the
/// current level's locals relative to the frame, others at `offset + depth`.
pub open spec fn load_for(b: Binding, depth: usize) -> Option<Instr> {
    let (off, d) = b;
    if d == 0 {
        Some(Instr::LoadGlobal(off))
    } else if d == depth {
        Some(Instr::LoadLocal(off))
    } else if off + d <= usize::MAX {
        Some(Instr::LoadAddr((off + d) as usize))
    } else {
        None
    }
}

/// How code at `depth` writes the binding `b`, by the same rule as [`load_for`].
pub open spec fn store_for(b: Binding, depth: usize) -> Option<Instr> {
    let (off, d) = b;
    if d == 0 {
        Some(Instr::StoreGlobal(off))
    } else if d == depth {
        Some(Instr::StoreLocal(off))
    } else if off + d <= usize::MAX {
        Some(Instr::StoreAddr((off + d) as usize))
    } else {
        None
    }
}

/// The offset a new binding at `depth` claims, `depth + next`, if it and
/// the counter after it fit.
pub open spec fn fresh(depth: usize, next: usize) -> Option<usize> {
    if depth + next <= usize::MAX && next + 1 <= usize::MAX {
        Some((depth + next) as usize)
    } else {
        None
    }
}

/// A string literal whose text is empty.
pub open spec fn empty_literal() -> Instr {
    Instr::Push(StackValue::Literal(Type::String(choose|s: String| s@ == Seq::<char>::empty())))
}

pub open spec fn literal(v: Type) -> Instr {
    Instr::Push(StackValue::Literal(v))
}

/// The opcode of a binary or unary operator.
pub open spec fn op_instr(op: Op) -> Instr {
    match op {
        Op::Add => Instr::Add,
        Op::Sub => Instr::Sub,
        Op::Mul => Instr::Mul,
        Op::Div => Instr::Div,
        Op::Mod => Instr::Mod,
        Op::Pow => Instr::Pow,
        Op::Eq => Instr::Eq,
        Op::Neq => Instr::Neq,
        Op::Lt => Instr::Lt,
        Op::Gt => Instr::Gt,
        Op::Lte => Instr::Lte,
        Op::Gte => Instr::Gte,
        Op::And => Instr::And,
        Op::Or => Instr::Or,
        Op::Not => Instr::Not,
        Op::Neg => Instr::Neg,
    }
}

/// The `Pop` that follows an expression statement whose code leaves a value.
pub open spec fn pop_after(e: Expr, code: Seq<Instr>) -> Seq<Instr> {
    if !(e is If) && code.len() > 0 && spec_pushes_to_stack(code.last()) {
        seq![Instr::Pop]
    } else {
        Seq::empty()
    }
}

/// `StoreLocal`s that bind the parameters `args`, in order, at `depth`.
pub open spec fn lower_params(
    args: Seq<String>,
    names: Map<Seq<char>, Binding>,
    depth: usize,
    next: usize,
) -> Lowering
    decreases args.len(),
{
    if args.len() == 0 {
        done(Seq::empty(), names, next)
    } else {
        match lower_params(args.drop_last(), names, depth, next) {
            Err(f) => Err(f),
            Ok(r) => match fresh(depth, r.next) {
                None => Err(CompileFault::TooManyBindings),
                Some(off) => done(
                    r.code.push(Instr::StoreLocal(off)),
                    r.names.insert(args.last()@, (off, depth)),
                    (r.next + 1) as usize,
                ),
            },
        }
    }
}

/// The code of the statements `b`, each expression statement that leaves a
/// value followed by a `Pop`, starting at index `at`.
pub open spec fn lower_block(
    b: Seq<Expr>,
    names: Map<Seq<char>, Binding>,
    depth: usize,
    next: usize,
    at: int,
) -> Lowering
    decreases b, 1nat,
{
    if b.len() == 0 {
        done(Seq::empty(), names, next)
    } else {
        match lower_block(b.drop_last(), names, depth, next, at) {
            Err(f) => Err(f),
            Ok(r1) => match lower(b.last(), r1.names, depth, r1.next, at + r1.code.len()) {
                Err(f) => Err(f),
                Ok(r2) => done(
                    r1.code + r2.code + pop_after(b.last(), r2.code),
                    r2.names,
                    r2.next,
                ),
            },
        }
    }
}

/// The code of the expressions `es`, last one first, starting at index `at`.
pub open spec fn lower_rev(
    es: Seq<Expr>,
    names: Map<Seq<char>, Binding>,
    depth: usize,
    next: usize,
    at: int,
) -> Lowering
    decreases es, 1nat,
{
    if es.len() == 0 {
        done(Seq::empty(), names, next)
    } else {
        match lower_rev(es.drop_first(), names, depth, next, at) {
            Err(f) => Err(f),
            Ok(r1) => match lower(es[0], r1.names, depth, r1.next, at + r1.code.len()) {
                Err(f) => Err(f),
                Ok(r2) => done(r1.code + r2.code, r2.names, r2.next),
            },
        }
    }
}

/// The code of both operands of an index, a join or a binary operator node,
/// the second starting where the first ends: the index before the item, the
/// left side before the right.
pub open spec fn lower_pair(
    e: Expr,
    names: Map<Seq<char>, Binding>,
    depth: usize,
    next: usize,
    at: int,
) -> Lowering
    decreases e, 0nat,
{
    let (a, b) = match e {
        Expr::Index { item, index } => (*index, *item),
        Expr::Join(lhs, rhs) => (*lhs, *rhs),
        Expr::Op(_, lhs, rhs) => (*lhs, *rhs),
        _ => (Expr::Nil, Expr::Nil),
    };
    if !(e is Index || e is Join || e is Op) {
        Err(CompileFault::Unsupported)
    } else {
        match lower(a, names, depth, next, at) {
            Err(f) => Err(f),
            Ok(r1) => match lower(b, r1.names, depth, r1.next, at + r1.code.len()) {
                Err(f) => Err(f),
                Ok(r2) => done(r1.code + r2.code, r2.names, r2.next),
            },
        }
    }
}

/// The code of the expression `e` when it starts at index `at` and is
/// compiled at lexical `depth` with the bindings `names` and slot counter `next`.
pub open spec fn lower(
    e: Expr,
    names: Map<Seq<char>, Binding>,
    depth: usize,
    next: usize,
    at: int,
) -> Lowering
    decreases e, 1nat,
{
    match e {
        Expr::Number(n) => done(seq![literal(Type::Number(n))], names, next),
        Expr::String(s) => done(seq![literal(Type::String(s))], names, next),
        Expr::Bool(b) => done(seq![literal(Type::Bool(b))], names, next),
        Expr::Nil => done(seq![literal(Type::Nil)], names, next),
        Expr::FormatString(parts) => if parts@.len() == 0 {
            done(seq![empty_literal()], names, next)
        } else if parts@.len() == 1 {
            lower(parts@[0], names, depth, next, at)
        } else {
            match lower_rev(parts@, names, depth, next, at) {
                Err(f) => Err(f),
                Ok(r) => done(r.code.push(Instr::JoinMany(parts@.len() as usize)), r.names, r.next),
            }
        },
        Expr::Identifier(name) => if !names.contains_key(name@) {
            Err(CompileFault::UndefinedName(name@))
        } else {
            match load_for(names[name@], depth) {
                None => Err(CompileFault::TooManyBindings),
                Some(i) => done(seq![i], names, next),
            }
        },
        Expr::Declaration(name, value) => match lower(*value, names, depth, next, at) {
            Err(f) => Err(f),
            Ok(r) => match fresh(depth, r.next) {
                None => Err(CompileFault::TooManyBindings),
                Some(off) => done(
                    r.code.push(store_for((off, depth), depth)->0),
                    r.names.insert(name@, (off, depth)),
                    (r.next + 1) as usize,
                ),
            },
        },
        Expr::Assignment(target, value) => match *target {
            Expr::Identifier(name) => if !names.contains_key(name@) {
                Err(CompileFault::UndefinedName(name@))
            } else {
                match lower(*value, names, depth, next, at) {
                    Err(f) => Err(f),
                    Ok(r) => match store_for(names[name@], depth) {
                        None => Err(CompileFault::TooManyBindings),
                        Some(i) => done(r.code.push(i), r.names, r.next),
                    },
                }
            },
            Expr::Index { .. } => Err(CompileFault::Unsupported),
            Expr::Call(..) => Err(CompileFault::Unsupported),
            _ => Err(CompileFault::InvalidAssignmentTarget),
        },
        Expr::Index { .. } => match lower_pair(e, names, depth, next, at) {
            Err(f) => Err(f),
            Ok(r) => done(r.code.push(Instr::Index), r.names, r.next),
        },
        Expr::Slice { .. } => Err(CompileFault::Unsupported),
        Expr::Lambda(..) => Err(CompileFault::Unsupported),
        Expr::Function { name, args, body } => if depth + 1 > usize::MAX {
            Err(CompileFault::TooManyBindings)
        } else {
            match fresh(depth, next) {
                None => Err(CompileFault::TooManyBindings),
                Some(off) => {
                    let outer = names.insert(name@, (off, depth));
                    let inner = (depth + 1) as usize;
                    match lower_params(args@, outer, inner, (next + 1) as usize) {
                        Err(f) => Err(f),
                        Ok(p) => {
                            let body_at = at + 1 + p.code.len();
                            match lower_block(body@, p.names, inner, p.next, body_at) {
                                Err(f) => Err(f),
                                Ok(rb) => {
                                    let end = body_at + rb.code.len() + 2;
                                    done(
                                        seq![Instr::Jump(end as usize)] + p.code + rb.code + seq![
                                            literal(Type::Nil),
                                            Instr::Return,
                                            literal(Type::FuncPtr((at + 1) as usize)),
                                            store_for((off, depth), depth)->0,
                                        ],
                                        outer,
                                        rb.next,
                                    )
                                },
                            }
                        },
                    }
                },
            }
        },
        Expr::Call(callee, args) => match lower_rev(args@, names, depth, next, at) {
            Err(f) => Err(f),
            Ok(r1) => match lower(*callee, r1.names, depth, r1.next, at + r1.code.len()) {
                Err(f) => Err(f),
                Ok(r2) => done(r1.code + r2.code.push(Instr::Call), r2.names, r2.next),
            },
        },
        Expr::NativeCall(name, args) => match lower_rev(args@, names, depth, next, at) {
            Err(f) => Err(f),
            Ok(r) => match native_named(name@) {
                None => Err(CompileFault::UnknownNative(name@)),
                Some(f) => done(r.code.push(Instr::NativeCall(f)), r.names, r.next),
            },
        },
        Expr::Join(..) => match lower_pair(e, names, depth, next, at) {
            Err(f) => Err(f),
            Ok(r) => done(r.code.push(Instr::Join), r.names, r.next),
        },
        Expr::Op(op, lhs, rhs) => if op is Not || op is Neg {
            match lower(*lhs, names, depth, next, at) {
                Err(f) => Err(f),
                Ok(r) => done(r.code.push(op_instr(op)), r.names, r.next),
            }
        } else {
            match lower_pair(e, names, depth, next, at) {
                Err(f) => Err(f),
                Ok(r) => done(r.code.push(op_instr(op)), r.names, r.next),
            }
        },
        Expr::If { .. } => lower_if(e, names, depth, next, at),
        Expr::Return(value) => match lower(*value, names, depth, next, at) {
            Err(f) => Err(f),
            Ok(r) => done(r.code.push(Instr::Return), r.names, r.next),
        },
    }
}

/// A conditional. A condition that is the literal `true` or `false` keeps
/// only the live block. A condition `a || b` or `a && b` is short-circuited:
/// after `a`, `||` jumps to the then-block when `a` is true and `&&` to the
/// else-block when `a` is false; after `b`, both jump to the else-block when
/// `b` is false. Any other condition jumps to the else-block when false.
pub open spec fn lower_if(
    e: Expr,
    names: Map<Seq<char>, Binding>,
    depth: usize,
    next: usize,
    at: int,
) -> Lowering
    decreases e, 0nat,
{
    match e {
        Expr::If { condition, then, otherwise } => {
            let (short, a, b) = match *condition {
                Expr::Op(Op::Or, a, b) => (Some(true), *a, *b),
                Expr::Op(Op::And, a, b) => (Some(false), *a, *b),
                c => (None::<bool>, c, Expr::Nil),
            };
            if *condition == Expr::Bool(true) {
                lower_block(then@, names, depth, next, at)
            } else if *condition == Expr::Bool(false) {
                lower_block(otherwise@, names, depth, next, at)
            } else {
                match lower(a, names, depth, next, at) {
                    Err(f) => Err(f),
                    Ok(ra) => {
                        let cond = match short {
                            None => done(Seq::empty(), ra.names, ra.next),
                            Some(_) => lower(b, ra.names, depth, ra.next, at + ra.code.len() + 1),
                        };
                        match cond {
                            Err(f) => Err(f),
                            Ok(rb) => {
                                let b_len: int = if short is None {
                                    0
                                } else {
                                    rb.code.len() as int + 1
                                };
                                let then_at = at + ra.code.len() + b_len + 1;
                                match lower_block(then@, rb.names, depth, rb.next, then_at) {
                                    Err(f) => Err(f),
                                    Ok(rt) => {
                                        let else_at = then_at + rt.code.len() + 1;
                                        match lower_block(otherwise@, rt.names, depth, rt.next, else_at) {
                                            Err(f) => Err(f),
                                            Ok(ro) => {
                                                let end = else_at + ro.code.len();
                                                let guard = match short {
                                                    None => seq![Instr::JumpIfNot(else_at as usize)],
                                                    Some(or) => seq![
                                                        if or {
                                                            Instr::JumpIf(then_at as usize)
                                                        } else {
                                                            Instr::JumpIfNot(else_at as usize)
                                                        },
                                                    ] + rb.code + seq![Instr::JumpIfNot(else_at as usize)],
                                                };
                                                done(
                                                    ra.code + guard + rt.code + seq![Instr::Jump(end as usize)]
                                                        + ro.code,
                                                    ro.names,
                                                    ro.next,
                                                )
                                            },
                                        }
                                    },
                                }
                            },
                        }
                    },
                }
            }
        },
        _ => Err(CompileFault::Unsupported),
    }
}

/// Two instructions agree: equal, or string literals with the same text.
pub open spec fn instr_matches(a: Instr, b: Instr) -> bool {
    match (a, b) {
        (
            Instr::Push(StackValue::Literal(Type::String(x))),
            Instr::Push(StackValue::Literal(Type::String(y))),
        ) => x@ == y@,
        _ => a == b,
    }
}

/// `after` is `before` followed by instructions that agree with `code`.
pub open spec fn emitted(before: Seq<Instr>, after: Seq<Instr>, code: Seq<Instr>) -> bool {
    &&& after.len() == before.len() + code.len()
    &&& after.subrange(0, before.len() as int) == before
    &&& forall|i: int|
        0 <= i < code.len() ==> instr_matches(#[trigger] after[before.len() + i], code[i])
}

/// What compiling one node did: on success the code it lowers to was
/// appended and the table and counter are those of the lowering; otherwise
/// the error is the lowering's.
pub open spec fn compiled(
    l: Lowering,
    before: Seq<Instr>,
    after: Seq<Instr>,
    names_after: Map<Seq<char>, Binding>,
    next_after: usize,
    r: Result<(), CompileError>,
) -> bool {
    match l {
        Ok(x) => {
            &&& r is Ok
            &&& emitted(before, after, x.code)
            &&& names_after == x.names
            &&& next_after == x.next
        },
        Err(f) => r matches Err(e) && e@ == f,
    }
}

proof fn lemma_block_prefix_err(
    b: Seq<Expr>,
    j: int,
    names: Map<Seq<char>, Binding>,
    depth: usize,
    next: usize,
    at: int,
)
    requires
        0 <= j <= b.len(),
        lower_block(b.take(j), names, depth, next, at) is Err,
    ensures
        lower_block(b, names, depth, next, at) == lower_block(b.take(j), names, depth, next, at),
    decreases b.len(),
{
    if j == b.len() {
        assert(b.take(j) =~= b);
    } else {
        assert(b.drop_last().take(j) =~= b.take(j));
        lemma_block_prefix_err(b.drop_last(), j, names, depth, next, at);
    }
}

proof fn lemma_params_prefix_err(
    b: Seq<String>,
    j: int,
    names: Map<Seq<char>, Binding>,
    depth: usize,
    next: usize,
)
    requires
        0 <= j <= b.len(),
        lower_params(b.take(j), names, depth, next) is Err,
    ensures
        lower_params(b, names, depth, next) == lower_params(b.take(j), names, depth, next),
    decreases b.len(),
{
    if j == b.len() {
        assert(b.take(j) =~= b);
    } else {
        assert(b.drop_last().take(j) =~= b.take(j));
        lemma_params_prefix_err(b.drop_last(), j, names, depth, next);
    }
}

proof fn lemma_rev_suffix_err(
    b: Seq<Expr>,
    n: int,
    names: Map<Seq<char>, Binding>,
    depth: usize,
    next: usize,
    at: int,
)
    requires
        0 <= n <= b.len(),
        lower_rev(b.subrange(n, b.len() as int), names, depth, next, at) is Err,
    ensures
        lower_rev(b, names, depth, next, at) == lower_rev(
            b.subrange(n, b.len() as int),
            names,
            depth,
            next,
            at,
        ),
    decreases n,
{
    if n == 0 {
        assert(b.subrange(0, b.len() as int) =~= b);
    } else {
        assert(b.drop_first().subrange(n - 1, b.drop_first().len() as int) =~= b.subrange(
            n,
            b.len() as int,
        ));
        lemma_rev_suffix_err(b.drop_first(), n - 1, names, depth, next, at);
    }
}

proof fn lemma_emitted_none(a: Seq<Instr>)
    ensures
        emitted(a, a, Seq::empty()),
{
    assert(a.subrange(0, a.len() as int) =~= a);
}

proof fn lemma_emitted_trans(a: Seq<Instr>, b: Seq<Instr>, c: Seq<Instr>, c1: Seq<Instr>, c2: Seq<Instr>)
    requires
        emitted(a, b, c1),
        emitted(b, c, c2),
    ensures
        emitted(a, c, c1 + c2),
{
    assert(c.subrange(0, a.len() as int) =~= c.subrange(0, b.len() as int).subrange(0, a.len() as int));
    assert forall|i: int| 0 <= i < c1.len() + c2.len() implies instr_matches(
        #[trigger] c[a.len() + i],
        (c1 + c2)[i],
    ) by {
        if i < c1.len() {
            assert(c[a.len() + i] == c.subrange(0, b.len() as int)[a.len() + i]);
            assert(b[a.len() + i] == c[a.len() + i]);
        } else {
            assert(c[b.len() + (i - c1.len())] == c[a.len() + i]);
        }
    }
}

proof fn lemma_emitted_push(a: Seq<Instr>, b: Seq<Instr>, c: Seq<Instr>, x: Instr)
    requires
        emitted(a, b, c),
    ensures
        emitted(a, b.push(x), c.push(x)),
{
    assert(b.push(x).subrange(0, a.len() as int) =~= b.subrange(0, a.len() as int));
    assert forall|i: int| 0 <= i < c.len() + 1 implies instr_matches(
        #[trigger] b.push(x)[a.len() + i],
        c.push(x)[i],
    ) by {
        if i < c.len() {
            assert(b.push(x)[a.len() + i] == b[a.len() + i]);
        }
    }
}

proof fn lemma_emitted_patch(a: Seq<Instr>, b: Seq<Instr>, c: Seq<Instr>, k: int, x: Instr)
    requires
        emitted(a, b, c),
        0 <= k < c.len(),
    ensures
        emitted(a, b.update(a.len() + k, x), c.update(k, x)),
{
    assert(b.update(a.len() + k, x).subrange(0, a.len() as int) =~= b.subrange(0, a.len() as int));
    assert forall|i: int| 0 <= i < c.len() implies instr_matches(
        #[trigger] b.update(a.len() + k, x)[a.len() + i],
        c.update(k, x)[i],
    ) by {
        if i != k {
            assert(b.update(a.len() + k, x)[a.len() + i] == b[a.len() + i]);
        }
    }
}

/// Appends `x`, keeping every jump target within the code.
fn emit(ins: &mut Vec<Instr>, x: Instr)
    requires
        code_target(x) matches Some(t) ==> t <= old(ins)@.len() + 1,
    ensures
        final(ins)@ == old(ins)@.push(x),
        targets_within(old(ins)@, old(ins)@.len() as int) ==> targets_within(
            final(ins)@,
            final(ins)@.len() as int,
        ),
{
    ins.push(x);
    proof {
        if targets_within(old(ins)@, old(ins)@.len() as int) {
        assert forall|i: int| 0 <= i < ins@.len() implies (#[trigger] code_target(ins@[i]) matches Some(
            t,
        ) ==> t <= ins@.len()) by {
            if i < ins@.len() - 1 {
                assert(ins@[i] == old(ins)@[i]);
            }
        }
        }
    }
}

/// Overwrites the placeholder at `k` with `x`.
fn patch(ins: &mut Vec<Instr>, k: usize, x: Instr)
    requires
        k < old(ins)@.len(),
        code_target(x) matches Some(t) ==> t <= old(ins)@.len(),
    ensures
        final(ins)@ == old(ins)@.update(k as int, x),
        targets_within(old(ins)@, old(ins)@.len() as int) ==> targets_within(
            final(ins)@,
            final(ins)@.len() as int,
        ),
{
    ins[k] = x;
    proof {
        if targets_within(old(ins)@, old(ins)@.len() as int) {
        assert forall|i: int| 0 <= i < ins@.len() implies (#[trigger] code_target(ins@[i]) matches Some(
            t,
        ) ==> t <= ins@.len()) by {
            if i != k {
                assert(ins@[i] == old(ins)@[i]);
            }
        }
        }
    }
}

fn load_exec(b: Binding, depth: usize) -> (r: Option<Instr>)
    ensures
        r == load_for(b, depth),
{
    let (off, d) = b;
    if d == 0 {
        Some(Instr::LoadGlobal(off))
    } else if d == depth {
        Some(Instr::LoadLocal(off))
    } else if off <= usize::MAX - d {
        Some(Instr::LoadAddr(off + d))
    } else {
        None
    }
}

fn store_exec(b: Binding, depth: usize) -> (r: Option<Instr>)
    ensures
        r == store_for(b, depth),
{
    let (off, d) = b;
    if d == 0 {
        Some(Instr::StoreGlobal(off))
    } else if d == depth {
        Some(Instr::StoreLocal(off))
    } else if off <= usize::MAX - d {
        Some(Instr::StoreAddr(off + d))
    } else {
        None
    }
}

fn fresh_exec(depth: usize, next: usize) -> (r: Option<usize>)
    ensures
        r == fresh(depth, next),
{
    if next < usize::MAX && depth <= usize::MAX - next {
        Some(depth + next)
    } else {
        None
    }
}

fn op_exec(op: Op) -> (r: Instr)
    ensures
        r == op_instr(op),
{
    match op {
        Op::Add => Instr::Add,
        Op::Sub => Instr::Sub,
        Op::Mul => Instr::Mul,
        Op::Div => Instr::Div,
        Op::Mod => Instr::Mod,
        Op::Pow => Instr::Pow,
        Op::Eq => Instr::Eq,
        Op::Neq => Instr::Neq,
        Op::Lt => Instr::Lt,
        Op::Gt => Instr::Gt,
        Op::Lte => Instr::Lte,
        Op::Gte => Instr::Gte,
        Op::And => Instr::And,
        Op::Or => Instr::Or,
        Op::Not => Instr::Not,
        Op::Neg => Instr::Neg,
    }
}

impl Instr {
    /// Appends the code of the expression statements `code`, each followed by
    /// a `Pop` when it leaves a value nobody uses.
    #[verifier::loop_isolation(false)]
    pub fn iter_build(
        ins: &mut Vec<Instr>,
        code: Vec<Expr>,
        state: &mut State,
        depth: usize,
        next: &mut usize,
    ) -> (r: Result<(), CompileError>)
        ensures
            compiled(
                lower_block(code@, bindings(*old(state)), depth, *old(next), old(ins)@.len() as int),
                old(ins)@,
                final(ins)@,
                bindings(*final(state)),
                *final(next),
                r,
            ),
            targets_within(old(ins)@, old(ins)@.len() as int) ==> targets_within(
                final(ins)@,
                final(ins)@.len() as int,
            ),
        decreases code@, 1nat,
    {
        let ghost b = code@;
        let ghost ins0 = ins@;
        let ghost names0 = bindings(*state);
        let ghost next0 = *next;
        let ghost at = ins@.len() as int;
        let mut code = code;
        let total = code.len();
        let mut k: usize = 0;
        proof {
            lemma_emitted_none(ins0);
            assert(b.take(0) =~= Seq::<Expr>::empty());
        }
        while code.len() > 0
            invariant
                k <= b.len(),
                total == b.len(),
                code@ == b.subrange(k as int, b.len() as int),
                targets_within(ins0, ins0.len() as int) ==> targets_within(ins@, ins@.len() as int),
                lower_block(b.take(k as int), names0, depth, next0, at) matches Ok(l) && emitted(
                    ins0,
                    ins@,
                    l.code,
                ) && bindings(*state) == l.names && *next == l.next,
            decreases code@.len(),
        {
            let ghost l1 = lower_block(b.take(k as int), names0, depth, next0, at)->Ok_0;
            let ghost mid = ins@;
            let expr = code.remove(0);
            assert(expr == b[k as int]);
            assert(b.take(k + 1).drop_last() =~= b.take(k as int));
            assert(b.take(k + 1).last() == expr);
            let is_if = matches!(expr, Expr::If { .. });
            let before = ins.len();
            proof {
                assert(decreases_to!(b => b[k as int]));
            }
            let r = Self::build(ins, expr, state, depth, next);
            if r.is_err() {
                proof {
                    lemma_block_prefix_err(b, k + 1, names0, depth, next0, at);
                }
                return r;
            }
            let ghost l2 = lower(b[k as int], l1.names, depth, l1.next, at + l1.code.len())->Ok_0;
            proof {
                lemma_emitted_trans(ins0, mid, ins@, l1.code, l2.code);
            }
            if ins.len() > before && !is_if {
                let last = ins.len() - 1;
                assert(instr_matches(ins@[mid.len() + (l2.code.len() - 1)], l2.code.last()));
                if ins[last].pushes_to_stack() {
                    proof {
                        lemma_emitted_push(ins0, ins@, l1.code + l2.code, Instr::Pop);
                    }
                    emit(ins, Instr::Pop);
                    assert(l1.code + l2.code + pop_after(b[k as int], l2.code) =~= (l1.code
                        + l2.code).push(Instr::Pop));
                } else {
                    assert(l1.code + l2.code + pop_after(b[k as int], l2.code) =~= l1.code
                        + l2.code);
                }
            } else {
                assert(l1.code + l2.code + pop_after(b[k as int], l2.code) =~= l1.code + l2.code);
            }
            k = k + 1;
            assert(code@ =~= b.subrange(k as int, b.len() as int));
        }
        assert(b.take(k as int) =~= b);
        Ok(())
    }

    /// Appends the code of `es`, last one first.
    #[verifier::loop_isolation(false)]
    fn build_rev(
        ins: &mut Vec<Instr>,
        es: Vec<Expr>,
        state: &mut State,
        depth: usize,
        next: &mut usize,
    ) -> (r: Result<(), CompileError>)
        ensures
            compiled(
                lower_rev(es@, bindings(*old(state)), depth, *old(next), old(ins)@.len() as int),
                old(ins)@,
                final(ins)@,
                bindings(*final(state)),
                *final(next),
                r,
            ),
            targets_within(old(ins)@, old(ins)@.len() as int) ==> targets_within(
                final(ins)@,
                final(ins)@.len() as int,
            ),
        decreases es@, 1nat,
    {
        let ghost b = es@;
        let ghost ins0 = ins@;
        let ghost names0 = bindings(*state);
        let ghost next0 = *next;
        let ghost at = ins@.len() as int;
        let mut es = es;
        proof {
            lemma_emitted_none(ins0);
            assert(b.subrange(b.len() as int, b.len() as int) =~= Seq::<Expr>::empty());
        }
        while es.len() > 0
            invariant
                es@.len() <= b.len(),
                es@ == b.subrange(0, es@.len() as int),
                targets_within(ins0, ins0.len() as int) ==> targets_within(ins@, ins@.len() as int),
                lower_rev(b.subrange(es@.len() as int, b.len() as int), names0, depth, next0, at) matches Ok(l)
                    && emitted(ins0, ins@, l.code) && bindings(*state) == l.names && *next == l.next,
            decreases es@.len(),
        {
            let ghost n = es@.len() as int;
            let ghost l1 = lower_rev(b.subrange(n, b.len() as int), names0, depth, next0, at)->Ok_0;
            let ghost mid = ins@;
            let e = es.pop().unwrap();
            assert(e == b[n - 1]);
            assert(b.subrange(n - 1, b.len() as int).drop_first() =~= b.subrange(n, b.len() as int));
            assert(b.subrange(n - 1, b.len() as int)[0] == e);
            proof {
                assert(decreases_to!(b => b[n - 1]));
            }
            let r = Self::build(ins, e, state, depth, next);
            if r.is_err() {
                proof {
                    lemma_rev_suffix_err(b, n - 1, names0, depth, next0, at);
                }
                return r;
            }
            proof {
                let l2 = lower(b[n - 1], l1.names, depth, l1.next, at + l1.code.len())->Ok_0;
                lemma_emitted_trans(ins0, mid, ins@, l1.code, l2.code);
                assert(es@ =~= b.subrange(0, n - 1));
            }
        }
        assert(b.subrange(0, b.len() as int) =~= b);
        Ok(())
    }

    /// Binds the parameters `args`, in order, as locals at `depth`, and
    /// appends the `StoreLocal` that takes each off the stack.
    #[verifier::loop_isolation(false)]
    fn build_params(
        ins: &mut Vec<Instr>,
        args: Vec<String>,
        state: &mut State,
        depth: usize,
        next: &mut usize,
    ) -> (r: Result<(), CompileError>)
        ensures
            compiled(
                lower_params(args@, bindings(*old(state)), depth, *old(next)),
                old(ins)@,
                final(ins)@,
                bindings(*final(state)),
                *final(next),
                r,
            ),
            targets_within(old(ins)@, old(ins)@.len() as int) ==> targets_within(
                final(ins)@,
                final(ins)@.len() as int,
            ),
    {
        let ghost b = args@;
        let ghost ins0 = ins@;
        let ghost names0 = bindings(*state);
        let ghost next0 = *next;
        let mut args = args;
        let total = args.len();
        let mut k: usize = 0;
        proof {
            lemma_emitted_none(ins0);
            assert(b.take(0) =~= Seq::<String>::empty());
        }
        while args.len() > 0
            invariant
                k <= b.len(),
                total == b.len(),
                args@ == b.subrange(k as int, b.len() as int),
                targets_within(ins0, ins0.len() as int) ==> targets_within(ins@, ins@.len() as int),
                lower_params(b.take(k as int), names0, depth, next0) matches Ok(l) && emitted(
                    ins0,
                    ins@,
                    l.code,
                ) && bindings(*state) == l.names && *next == l.next,
            decreases args@.len(),
        {
            let ghost l1 = lower_params(b.take(k as int), names0, depth, next0)->Ok_0;
            let arg = args.remove(0);
            assert(b.take(k + 1).drop_last() =~= b.take(k as int));
            assert(b.take(k + 1).last() == arg);
            let off = match fresh_exec(depth, *next) {
                None => {
                    proof {
                        assert(lower_params(b.take(k + 1), names0, depth, next0) == Err::<
                            Lowered,
                            CompileFault,
                        >(CompileFault::TooManyBindings));
                        lemma_params_prefix_err(b, k + 1, names0, depth, next0);
                    }
                    return Err(CompileError::TooManyBindings);
                },
                Some(off) => off,
            };
            proof {
                lemma_emitted_push(ins0, ins@, l1.code, Instr::StoreLocal(off));
            }
            emit(ins, Instr::StoreLocal(off));
            bind(state, arg, (off, depth));
            *next = *next + 1;
            k = k + 1;
            assert(args@ =~= b.subrange(k as int, b.len() as int));
        }
        assert(b.take(k as int) =~= b);
        Ok(())
    }

    /// Appends the code of the expression `expr`, compiled at lexical `depth`
    /// with the bindings of `state` and the slot counter `next`.
    pub fn build(
        ins: &mut Vec<Instr>,
        expr: Expr,
        state: &mut State,
        depth: usize,
        next: &mut usize,
    ) -> (r: Result<(), CompileError>)
        ensures
            compiled(
                lower(expr, bindings(*old(state)), depth, *old(next), old(ins)@.len() as int),
                old(ins)@,
                final(ins)@,
                bindings(*final(state)),
                *final(next),
                r,
            ),
            targets_within(old(ins)@, old(ins)@.len() as int) ==> targets_within(
                final(ins)@,
                final(ins)@.len() as int,
            ),
        decreases expr, 1nat,
    {
        let ghost e0 = expr;
        let ghost ins0 = ins@;
        let ghost names0 = bindings(*state);
        let ghost next0 = *next;
        let ghost at = ins@.len() as int;
        proof {
            lemma_emitted_none(ins0);
        }
        if matches!(expr, Expr::If { .. }) {
            return Self::build_if(ins, expr, state, depth, next);
        }
        let unary = match &expr {
            Expr::Op(op, _, _) => matches!(op, Op::Not) || matches!(op, Op::Neg),
            _ => false,
        };
        if matches!(expr, Expr::Index { .. }) || matches!(expr, Expr::Join(..)) || (matches!(
            expr,
            Expr::Op(..)
        ) && !unary) {
            return Self::build_pair(ins, expr, state, depth, next);
        }
        match expr {
            Expr::Number(n) => {
                proof {
                    lemma_emitted_push(ins0, ins0, Seq::empty(), literal(Type::Number(n)));
                }
                emit(ins, Instr::Push(StackValue::Literal(Type::Number(n))));
                assert(Seq::<Instr>::empty().push(literal(Type::Number(n))) =~= seq![literal(Type::Number(n))]);
                Ok(())
            },
            Expr::String(t) => {
                let ghost x = literal(Type::String(t));
                proof {
                    lemma_emitted_push(ins0, ins0, Seq::empty(), x);
                }
                emit(ins, Instr::Push(StackValue::Literal(Type::String(t))));
                assert(Seq::<Instr>::empty().push(x) =~= seq![x]);
                Ok(())
            },
            Expr::Bool(v) => {
                proof {
                    lemma_emitted_push(ins0, ins0, Seq::empty(), literal(Type::Bool(v)));
                }
                emit(ins, Instr::Push(StackValue::Literal(Type::Bool(v))));
                assert(Seq::<Instr>::empty().push(literal(Type::Bool(v))) =~= seq![literal(Type::Bool(v))]);
                Ok(())
            },
            Expr::Nil => {
                proof {
                    lemma_emitted_push(ins0, ins0, Seq::empty(), literal(Type::Nil));
                }
                emit(ins, Instr::Push(StackValue::Literal(Type::Nil)));
                assert(Seq::<Instr>::empty().push(literal(Type::Nil)) =~= seq![literal(Type::Nil)]);
                Ok(())
            },
            Expr::FormatString(parts) => {
                let n = parts.len();
                if n == 0 {
                    let empty = String::new();
                    let x = Instr::Push(StackValue::Literal(Type::String(empty)));
                    proof {
                        lemma_emitted_push(ins0, ins0, Seq::empty(), x);
                        assert(Seq::<Instr>::empty().push(x) =~= seq![x]);
                        let c = choose|s: String| s@ == Seq::<char>::empty();
                        assert(instr_matches(ins0.push(x)[ins0.len() as int], empty_literal()));
                    }
                    emit(ins, x);
                    Ok(())
                } else if n == 1 {
                    let mut parts = parts;
                    let only = parts.pop().unwrap();
                    Self::build(ins, only, state, depth, next)
                } else {
                    let r = Self::build_rev(ins, parts, state, depth, next);
                    if r.is_err() {
                        return r;
                    }
                    proof {
                        let l = lower_rev(parts@, names0, depth, next0, at)->Ok_0;
                        lemma_emitted_push(ins0, ins@, l.code, Instr::JoinMany(n));
                    }
                    emit(ins, Instr::JoinMany(n));
                    Ok(())
                }
            },
            Expr::Identifier(name) => {
                let b = match lookup(state, name.as_str()) {
                    None => {
                        return Err(CompileError::UndefinedName(name));
                    },
                    Some(b) => b,
                };
                match load_exec(b, depth) {
                    None => Err(CompileError::TooManyBindings),
                    Some(i) => {
                        proof {
                            lemma_emitted_push(ins0, ins0, Seq::empty(), i);
                            assert(Seq::<Instr>::empty().push(i) =~= seq![i]);
                        }
                        emit(ins, i);
                        Ok(())
                    },
                }
            },
            Expr::Declaration(name, value) => {
                let r = Self::build(ins, *value, state, depth, next);
                if r.is_err() {
                    return r;
                }
                let off = match fresh_exec(depth, *next) {
                    None => {
                        return Err(CompileError::TooManyBindings);
                    },
                    Some(off) => off,
                };
                let i = if depth == 0 {
                    Instr::StoreGlobal(off)
                } else {
                    Instr::StoreLocal(off)
                };
                proof {
                    let l = lower(*value, names0, depth, next0, at)->Ok_0;
                    lemma_emitted_push(ins0, ins@, l.code, i);
                }
                emit(ins, i);
                bind(state, name, (off, depth));
                *next = *next + 1;
                Ok(())
            },
            Expr::Assignment(target, value) => {
                match *target {
                    Expr::Identifier(name) => {
                        let b = match lookup(state, name.as_str()) {
                            None => {
                                return Err(CompileError::UndefinedName(name));
                            },
                            Some(b) => b,
                        };
                        let r = Self::build(ins, *value, state, depth, next);
                        if r.is_err() {
                            return r;
                        }
                        match store_exec(b, depth) {
                            None => Err(CompileError::TooManyBindings),
                            Some(i) => {
                                proof {
                                    let l = lower(*value, names0, depth, next0, at)->Ok_0;
                                    lemma_emitted_push(ins0, ins@, l.code, i);
                                }
                                emit(ins, i);
                                Ok(())
                            },
                        }
                    },
                    Expr::Index { .. } => Err(CompileError::Unsupported),
                    Expr::Call(..) => Err(CompileError::Unsupported),
                    _ => Err(CompileError::InvalidAssignmentTarget),
                }
            },
            Expr::Function { name, args, body } => Self::build_function(
                ins,
                name,
                args,
                body,
                state,
                depth,
                next,
            ),
            Expr::Call(callee, args) => {
                let r = Self::build_rev(ins, args, state, depth, next);
                if r.is_err() {
                    return r;
                }
                let ghost mid = ins@;
                let ghost l1 = lower_rev(args@, names0, depth, next0, at)->Ok_0;
                let r = Self::build(ins, *callee, state, depth, next);
                if r.is_err() {
                    return r;
                }
                proof {
                    let l2 = lower(*callee, l1.names, depth, l1.next, at + l1.code.len())->Ok_0;
                    lemma_emitted_trans(ins0, mid, ins@, l1.code, l2.code);
                    lemma_emitted_push(ins0, ins@, l1.code + l2.code, Instr::Call);
                    assert((l1.code + l2.code).push(Instr::Call) =~= l1.code + l2.code.push(
                        Instr::Call,
                    ));
                }
                emit(ins, Instr::Call);
                Ok(())
            },
            Expr::NativeCall(name, args) => {
                let r = Self::build_rev(ins, args, state, depth, next);
                if r.is_err() {
                    return r;
                }
                match NativeFunction::from(name.as_str()) {
                    None => Err(CompileError::UnknownNative(name)),
                    Some(f) => {
                        proof {
                            let l = lower_rev(args@, names0, depth, next0, at)->Ok_0;
                            lemma_emitted_push(ins0, ins@, l.code, Instr::NativeCall(f));
                        }
                        emit(ins, Instr::NativeCall(f));
                        Ok(())
                    },
                }
            },
            Expr::Op(op, lhs, _) => {
                let r = Self::build(ins, *lhs, state, depth, next);
                if r.is_err() {
                    return r;
                }
                let i = op_exec(op);
                proof {
                    let l = lower(*lhs, names0, depth, next0, at)->Ok_0;
                    lemma_emitted_push(ins0, ins@, l.code, i);
                }
                emit(ins, i);
                Ok(())
            },
            Expr::Return(value) => {
                let r = Self::build(ins, *value, state, depth, next);
                if r.is_err() {
                    return r;
                }
                proof {
                    let l = lower(*value, names0, depth, next0, at)->Ok_0;
                    lemma_emitted_push(ins0, ins@, l.code, Instr::Return);
                }
                emit(ins, Instr::Return);
                Ok(())
            },
            _ => Err(CompileError::Unsupported),
        }
    }

    /// Appends the code of an index, join or binary operator node.
    fn build_pair(
        ins: &mut Vec<Instr>,
        expr: Expr,
        state: &mut State,
        depth: usize,
        next: &mut usize,
    ) -> (r: Result<(), CompileError>)
        requires
            expr is Index || expr is Join || (expr is Op && !(expr->Op_0 is Not || expr->Op_0 is Neg)),
        ensures
            compiled(
                lower(expr, bindings(*old(state)), depth, *old(next), old(ins)@.len() as int),
                old(ins)@,
                final(ins)@,
                bindings(*final(state)),
                *final(next),
                r,
            ),
            targets_within(old(ins)@, old(ins)@.len() as int) ==> targets_within(
                final(ins)@,
                final(ins)@.len() as int,
            ),
        decreases expr, 0nat,
    {
        let ghost e0 = expr;
        let ghost ins0 = ins@;
        let ghost names0 = bindings(*state);
        let ghost next0 = *next;
        let ghost at = ins@.len() as int;
        proof {
            reveal_with_fuel(lower, 2);
        }
        let (a, b, last) = match expr {
            Expr::Index { item, index } => (*index, *item, Instr::Index),
            Expr::Join(lhs, rhs) => (*lhs, *rhs, Instr::Join),
            Expr::Op(op, lhs, rhs) => (*lhs, *rhs, op_exec(op)),
            _ => {
                return Err(CompileError::Unsupported);
            },
        };
        let ghost a0 = a;
        let ghost b0 = b;
        let r = Self::build(ins, a, state, depth, next);
        if r.is_err() {
            return r;
        }
        let ghost mid = ins@;
        let ghost l1 = lower(a0, names0, depth, next0, at)->Ok_0;
        let r = Self::build(ins, b, state, depth, next);
        if r.is_err() {
            return r;
        }
        proof {
            let l2 = lower(b0, l1.names, depth, l1.next, at + l1.code.len())->Ok_0;
            lemma_emitted_trans(ins0, mid, ins@, l1.code, l2.code);
            lemma_emitted_push(ins0, ins@, l1.code + l2.code, last);
        }
        emit(ins, last);
        Ok(())
    }

    /// Appends a function definition: a jump over the body, the body's
    /// parameter stores and statements with a closing `return none`, then the
    /// store of the function pointer under `name`.
    fn build_function(
        ins: &mut Vec<Instr>,
        name: String,
        args: Vec<String>,
        body: Vec<Expr>,
        state: &mut State,
        depth: usize,
        next: &mut usize,
    ) -> (r: Result<(), CompileError>)
        ensures
            compiled(
                lower(
                    (Expr::Function { name, args, body }),
                    bindings(*old(state)),
                    depth,
                    *old(next),
                    old(ins)@.len() as int,
                ),
                old(ins)@,
                final(ins)@,
                bindings(*final(state)),
                *final(next),
                r,
            ),
            targets_within(old(ins)@, old(ins)@.len() as int) ==> targets_within(
                final(ins)@,
                final(ins)@.len() as int,
            ),
        decreases (Expr::Function { name, args, body }), 0nat,
    {
        let ghost ins0 = ins@;
        let ghost names0 = bindings(*state);
        let ghost next0 = *next;
        let ghost at = ins@.len() as int;
        let ghost name0 = name;
        let ghost args0 = args@;
        let ghost body0 = body@;
        if depth == usize::MAX {
            return Err(CompileError::TooManyBindings);
        }
        let off = match fresh_exec(depth, *next) {
            None => {
                return Err(CompileError::TooManyBindings);
            },
            Some(off) => off,
        };
        let top = ins.len();
        proof {
            lemma_emitted_none(ins0);
            lemma_emitted_push(ins0, ins0, Seq::empty(), Instr::Noop);
        }
        emit(ins, Instr::Noop);
        bind(state, name, (off, depth));
        *next = *next + 1;
        let mut fn_state = fork(state);
        let inner = depth + 1;
        let ghost mid1 = ins@;
        let ghost outer = bindings(*state);
        let r = Self::build_params(ins, args, &mut fn_state, inner, next);
        if r.is_err() {
            return r;
        }
        let ghost p = lower_params(args0, outer, inner, (next0 + 1) as usize)->Ok_0;
        let ghost mid2 = ins@;
        proof {
            lemma_emitted_trans(ins0, mid1, mid2, seq![Instr::Noop], p.code);
        }
        let r = Self::iter_build(ins, body, &mut fn_state, inner, next);
        if r.is_err() {
            return r;
        }
        let ghost rb = lower_block(body0, p.names, inner, p.next, at + 1 + p.code.len())->Ok_0;
        let ghost c = seq![Instr::Noop] + p.code + rb.code;
        proof {
            lemma_emitted_trans(ins0, mid2, ins@, seq![Instr::Noop] + p.code, rb.code);
            lemma_emitted_push(ins0, ins@, c, Instr::Push(StackValue::Literal(Type::Nil)));
        }
        emit(ins, Instr::Push(StackValue::Literal(Type::Nil)));
        proof {
            lemma_emitted_push(ins0, ins@, c.push(literal(Type::Nil)), Instr::Return);
        }
        emit(ins, Instr::Return);
        let end = ins.len();
        let ghost c2 = c.push(literal(Type::Nil)).push(Instr::Return);
        proof {
            lemma_emitted_patch(ins0, ins@, c2, 0, Instr::Jump(end));
        }
        patch(ins, top, Instr::Jump(end));
        let ghost c3 = c2.update(0, Instr::Jump(end));
        let fp = Instr::Push(StackValue::Literal(Type::FuncPtr(top + 1)));
        proof {
            lemma_emitted_push(ins0, ins@, c3, fp);
        }
        emit(ins, fp);
        let st = if depth == 0 {
            Instr::StoreGlobal(off)
        } else {
            Instr::StoreLocal(off)
        };
        proof {
            lemma_emitted_push(ins0, ins@, c3.push(fp), st);
            assert(c3.push(fp).push(st) =~= seq![Instr::Jump(end)] + p.code + rb.code + seq![
                literal(Type::Nil),
                Instr::Return,
                literal(Type::FuncPtr((at + 1) as usize)),
                store_for((off, depth), depth)->0,
            ]);
        }
        emit(ins, st);
        Ok(())
    }

    /// Appends a conditional; see [`lower_if`].
    #[verifier::rlimit(80)]
    #[verifier::spinoff_prover]
    fn build_if(
        ins: &mut Vec<Instr>,
        expr: Expr,
        state: &mut State,
        depth: usize,
        next: &mut usize,
    ) -> (r: Result<(), CompileError>)
        requires
            expr is If,
        ensures
            compiled(
                lower(expr, bindings(*old(state)), depth, *old(next), old(ins)@.len() as int),
                old(ins)@,
                final(ins)@,
                bindings(*final(state)),
                *final(next),
                r,
            ),
            targets_within(old(ins)@, old(ins)@.len() as int) ==> targets_within(
                final(ins)@,
                final(ins)@.len() as int,
            ),
        decreases expr, 0nat,
    {
        let ghost e0 = expr;
        let ghost ins0 = ins@;
        let ghost names0 = bindings(*state);
        let ghost next0 = *next;
        let ghost at = ins@.len() as int;
        proof {
            reveal_with_fuel(lower, 2);
        }
        let (condition, then, otherwise) = match expr {
            Expr::If { condition, then, otherwise } => (condition, then, otherwise),
            _ => {
                return Err(CompileError::Unsupported);
            },
        };
        let ghost then0 = then@;
        let ghost else0 = otherwise@;
        let (short, a, b): (Option<bool>, Expr, Expr) = match *condition {
            Expr::Bool(true) => {
                return Self::iter_build(ins, then, state, depth, next);
            },
            Expr::Bool(false) => {
                return Self::iter_build(ins, otherwise, state, depth, next);
            },
            Expr::Op(Op::Or, a, b) => (Some(true), *a, *b),
            Expr::Op(Op::And, a, b) => (Some(false), *a, *b),
            c => (None, c, Expr::Nil),
        };
        let ghost a0 = a;
        let ghost b0 = b;
        let r = Self::build(ins, a, state, depth, next);
        if r.is_err() {
            return r;
        }
        let ghost ra = lower(a0, names0, depth, next0, at)->Ok_0;
        let guard_at = ins.len();
        proof {
            lemma_emitted_push(ins0, ins@, ra.code, Instr::Noop);
        }
        emit(ins, Instr::Noop);
        let ghost mut c = ra.code.push(Instr::Noop);
        let ghost mut rb = Lowered { code: Seq::empty(), names: ra.names, next: ra.next };
        let mut second_guard_at: usize = 0;
        if short.is_some() {
            let ghost mid = ins@;
            let r = Self::build(ins, b, state, depth, next);
            if r.is_err() {
                return r;
            }
            proof {
                rb = lower(b0, ra.names, depth, ra.next, at + ra.code.len() + 1)->Ok_0;
                lemma_emitted_trans(ins0, mid, ins@, c, rb.code);
                lemma_emitted_push(ins0, ins@, c + rb.code, Instr::Noop);
                c = (c + rb.code).push(Instr::Noop);
            }
            second_guard_at = ins.len();
            emit(ins, Instr::Noop);
        }
        let then_at = ins.len();
        let ghost mid = ins@;
        let r = Self::iter_build(ins, then, state, depth, next);
        if r.is_err() {
            return r;
        }
        let ghost rt = lower_block(then0, rb.names, depth, rb.next, then_at as int)->Ok_0;
        let pj = ins.len();
        proof {
            lemma_emitted_trans(ins0, mid, ins@, c, rt.code);
            lemma_emitted_push(ins0, ins@, c + rt.code, Instr::Noop);
        }
        emit(ins, Instr::Noop);
        let else_at = ins.len();
        let ghost c5 = (c + rt.code).push(Instr::Noop);
        let ghost mid2 = ins@;
        let r = Self::iter_build(ins, otherwise, state, depth, next);
        if r.is_err() {
            return r;
        }
        let ghost ro = lower_block(else0, rt.names, depth, rt.next, else_at as int)->Ok_0;
        let end = ins.len();
        proof {
            lemma_emitted_trans(ins0, mid2, ins@, c5, ro.code);
        }
        let ghost c7 = c5 + ro.code;
        let g1 = match short {
            None => Instr::JumpIfNot(else_at),
            Some(true) => Instr::JumpIf(then_at),
            Some(false) => Instr::JumpIfNot(else_at),
        };
        proof {
            lemma_emitted_patch(ins0, ins@, c7, ra.code.len() as int, g1);
        }
        patch(ins, guard_at, g1);
        let ghost mut c8 = c7.update(ra.code.len() as int, g1);
        if short.is_some() {
            proof {
                lemma_emitted_patch(
                    ins0,
                    ins@,
                    c8,
                    ra.code.len() + 1 + rb.code.len() as int,
                    Instr::JumpIfNot(else_at),
                );
                c8 = c8.update(ra.code.len() + 1 + rb.code.len() as int, Instr::JumpIfNot(else_at));
            }
            patch(ins, second_guard_at, Instr::JumpIfNot(else_at));
        }
        proof {
            lemma_emitted_patch(ins0, ins@, c8, pj - at, Instr::Jump(end));
        }
        patch(ins, pj, Instr::Jump(end));
        proof {
            let fin = c8.update(pj - at, Instr::Jump(end));
            let guard = match short {
                None => seq![Instr::JumpIfNot(else_at)],
                Some(or) => seq![
                    if or {
                        Instr::JumpIf(then_at)
                    } else {
                        Instr::JumpIfNot(else_at)
                    },
                ] + rb.code + seq![Instr::JumpIfNot(else_at)],
            };
            assert(fin =~= ra.code + guard + rt.code + seq![Instr::Jump(end)] + ro.code);
        }
        Ok(())
    }

    /// Compiles a program: the prelude, then the statements of `ast` from
    /// the returned start index on, then the peephole pass.
    pub fn compile(ast: AST) -> (r: Result<(Vec<Instr>, usize), CompileError>)
        ensures
            match program_lowering(ast@) {
                Ok(code) => (r matches Ok((p, start)) && start == PRELUDE_LEN && emitted(
                    Seq::empty(),
                    p@,
                    peephole_spec(code),
                )),
                Err(f) => r matches Err(e) && e@ == f,
            },
            r matches Ok((p, start)) ==> targets_within(p@, p@.len() as int),
    {
        let mut program: Vec<Instr> = Vec::new();
        let mut state = empty_state();
        let mut next: usize = 0;
        assert(bindings(state) =~= Map::<Seq<char>, Binding>::empty());
        let r = add_std(&mut program, &mut state, 0, &mut next);
        if let Err(e) = r {
            return Err(e);
        }
        let start = program.len();
        let ghost pre = program@;
        let r = Self::iter_build(&mut program, ast, &mut state, 0, &mut next);
        if let Err(e) = r {
            return Err(e);
        }
        proof {
            let l = lower_block(ast@, bindings(state), 0, next, 0)->Ok_0;
            assert(pre =~= Seq::empty() + pre);
            lemma_emitted_none(Seq::empty());
        }
        let out = peephole(&program);
        proof {
            let pre_code = prelude(Map::empty(), 0, 0, 0)->Ok_0;
            let l = lower_block(ast@, pre_code.names, 0, pre_code.next, PRELUDE_LEN as int)->Ok_0;
            assert(emitted(Seq::empty(), pre, pre_code.code)) by {
                assert(pre.subrange(0, 0) =~= Seq::<Instr>::empty());
                assert forall|i: int| 0 <= i < pre_code.code.len() implies instr_matches(
                    #[trigger] pre[0 + i],
                    pre_code.code[i],
                ) by {
                    assert(pre[0 + i] == pre_code.code[i]);
                }
            }
            lemma_emitted_trans(Seq::empty(), pre, program@, pre_code.code, l.code);
            lemma_peephole_agrees(program@, pre_code.code + l.code);
            lemma_peephole_targets(program@);
        }
        Ok((out, start))
    }
}

/// The length of the prelude that [`Instr::compile`] puts first.
pub const PRELUDE_LEN: usize = 6;

/// The code of a whole program before the peephole pass: the prelude at
/// depth 0, then the statements of `ast`.
pub open spec fn program_lowering(ast: Seq<Expr>) -> Result<Seq<Instr>, CompileFault> {
    match prelude(Map::empty(), 0, 0, 0) {
        Err(f) => Err(f),
        Ok(p) => match lower_block(ast, p.names, 0, p.next, PRELUDE_LEN as int) {
            Err(f) => Err(f),
            Ok(l) => Ok(p.code + l.code),
        },
    }
}

/// An instruction that only pushes a value: a literal or a load.
pub open spec fn producer(i: Instr) -> bool {
    i is Push || i is LoadAddr || i is LoadLocal || i is LoadGlobal
}

/// Whether the peephole pass blanks position `i` of `p`: it is one half of an
/// adjacent producer-then-`Pop` pair.
pub open spec fn blanked(p: Seq<Instr>, i: int) -> bool {
    ||| (p[i] is Pop && i > 0 && producer(p[i - 1]))
    ||| (producer(p[i]) && i + 1 < p.len() && p[i + 1] is Pop)
}

/// `p` with every adjacent producer-then-`Pop` pair turned into two `Noop`s.
pub open spec fn peephole_spec(p: Seq<Instr>) -> Seq<Instr> {
    Seq::new(p.len(), |i: int| if blanked(p, i) { Instr::Noop } else { p[i] })
}

/// The peephole pass: every value that is pushed and at once popped is not
/// pushed at all (see [`peephole_spec`]).
pub fn peephole(program: &Vec<Instr>) -> (r: Vec<Instr>)
    ensures
        r@ == peephole_spec(program@),
{
    let n = program.len();
    let mut out: Vec<Instr> = Vec::new();
    let mut i: usize = 0;
    while i < n
        invariant
            n == program@.len(),
            0 <= i <= n,
            out@ == peephole_spec(program@).take(i as int),
        decreases n - i,
    {
        let cur = &program[i];
        let producer_here = matches!(cur, Instr::Push(_)) || matches!(cur, Instr::LoadAddr(_))
            || matches!(cur, Instr::LoadLocal(_)) || matches!(cur, Instr::LoadGlobal(_));
        let pop_after = i + 1 < n && matches!(program[i + 1], Instr::Pop);
        let pop_here = matches!(cur, Instr::Pop);
        let producer_before = i > 0 && {
            let prev = &program[i - 1];
            matches!(prev, Instr::Push(_)) || matches!(prev, Instr::LoadAddr(_)) || matches!(
                prev,
                Instr::LoadLocal(_)
            ) || matches!(prev, Instr::LoadGlobal(_))
        };
        if (pop_here && producer_before) || (producer_here && pop_after) {
            out.push(Instr::Noop);
        } else {
            out.push(cur.clone());
        }
        assert(out@ =~= peephole_spec(program@).take(i + 1));
        i = i + 1;
    }
    assert(peephole_spec(program@).take(n as int) =~= peephole_spec(program@));
    out
}

/// Running the peephole pass a second time changes nothing.
pub proof fn lemma_peephole_idempotent(p: Seq<Instr>)
    ensures
        peephole_spec(peephole_spec(p)) == peephole_spec(p),
{
    let q = peephole_spec(p);
    assert forall|i: int| 0 <= i < q.len() implies !blanked(q, i) by {
        if q[i] is Pop && i > 0 && producer(q[i - 1]) {
            assert(!blanked(p, i - 1));
        }
        if producer(q[i]) && i + 1 < q.len() && q[i + 1] is Pop {
            assert(!blanked(p, i));
        }
    }
    assert(peephole_spec(q) =~= q);
}

proof fn lemma_peephole_agrees(raw: Seq<Instr>, code: Seq<Instr>)
    requires
        emitted(Seq::empty(), raw, code),
    ensures
        emitted(Seq::empty(), peephole_spec(raw), peephole_spec(code)),
{
    assert forall|i: int| 0 <= i < code.len() implies blanked(raw, i) == blanked(code, i) by {
        assert(instr_matches(raw[0 + i], code[i]));
        if i > 0 {
            assert(instr_matches(raw[0 + (i - 1)], code[i - 1]));
        }
        if i + 1 < code.len() {
            assert(instr_matches(raw[0 + (i + 1)], code[i + 1]));
        }
    }
    assert forall|i: int| 0 <= i < code.len() implies instr_matches(
        #[trigger] peephole_spec(raw)[0 + i],
        peephole_spec(code)[i],
    ) by {
        assert(instr_matches(raw[0 + i], code[i]));
    }
    assert(peephole_spec(raw).subrange(0, 0) =~= Seq::<Instr>::empty());
}

proof fn lemma_peephole_targets(p: Seq<Instr>)
    requires
        targets_within(p, p.len() as int),
    ensures
        targets_within(peephole_spec(p), p.len() as int),
{
    assert forall|i: int| 0 <= i < p.len() implies (#[trigger] code_target(peephole_spec(p)[i]) matches Some(
        t,
    ) ==> t <= p.len()) by {
        if !blanked(p, i) {
            assert(code_target(p[i]) == code_target(peephole_spec(p)[i]));
        }
    }
}

/// A format string of one part compiles exactly as that part does, so
/// `f"{x}"` is `x`.
pub proof fn lemma_format_single(
    parts: Vec<Expr>,
    names: Map<Seq<char>, Binding>,
    depth: usize,
    next: usize,
    at: int,
)
    requires
        parts@.len() == 1,
    ensures
        lower((Expr::FormatString(parts)), names, depth, next, at) == lower(
            parts@[0],
            names,
            depth,
            next,
            at,
        ),
{
}

} // verus!
