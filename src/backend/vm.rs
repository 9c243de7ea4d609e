use vstd::prelude::*;

use super::instruction::{Instr, Type};
use super::memory::{stored, trim_nulls, Memory};
use super::stack::{Stack, StackValue};
use super::text::{chars_of, display, push_char, push_display};
use crate::stdlib::{spec_arity, NativeFunction};

verus! {

/// A floating-point operation that the host performs on two doubles.
#[derive(Debug, Clone, Copy, PartialEq, Eq)]
pub enum NumOp {
    Add,
    Sub,
    Mul,
    Div,
    Mod,
    Pow,
    Eq,
    Neq,
    Lt,
    Gt,
    Lte,
    Gte,
}

/// What the machine asks of the host after a step.
#[derive(Debug, PartialEq)]
pub enum Effect {
    /// Nothing: the machine can go on.
    Continue,
    /// The program has ended, by `Halt` or by running past its last instruction.
    Finished,
    /// Compute `lhs op rhs` on the two doubles and push the result with
    /// `VM::push_result`: a number for arithmetic, a boolean for a comparison.
    Numeric(NumOp, u64, u64),
    /// Write each value as text, join the texts in order, and push the string.
    Concat(Vec<Type>),
    /// Convert the double to an index the way `as usize` does, then call `VM::index_text`.
    Index(String, u64),
    /// Run the primitive on the arguments (first argument first) and push its result.
    Native(NativeFunction, Vec<Type>),
    /// Write the value's text and a newline.
    Print(Type),
}

/// An error that stops the program.
#[derive(Debug, PartialEq)]
pub enum RuntimeError {
    StackUnderflow,
    /// A heap address that holds no slot, or does not fit the address space.
    InvalidAddress(usize),
    /// The operands of the instruction at this index have the wrong kinds.
    TypeMismatch(usize),
    IndexOutOfBounds { index: usize, len: usize },
    CallToNonFunction(Type),
    ReturnOutsideFunction,
}

/// [`Effect`] with its vectors and strings as sequences.
pub enum EffectModel {
    Continue,
    Finished,
    Numeric(NumOp, u64, u64),
    Concat(Seq<Type>),
    Index(Seq<char>, u64),
    Native(NativeFunction, Seq<Type>),
    Print(Type),
}

impl View for Effect {
    type V = EffectModel;

    open spec fn view(&self) -> EffectModel {
        match self {
            Effect::Continue => EffectModel::Continue,
            Effect::Finished => EffectModel::Finished,
            Effect::Numeric(op, a, b) => EffectModel::Numeric(*op, *a, *b),
            Effect::Concat(v) => EffectModel::Concat(v@),
            Effect::Index(s, n) => EffectModel::Index(s@, *n),
            Effect::Native(f, v) => EffectModel::Native(*f, v@),
            Effect::Print(v) => EffectModel::Print(*v),
        }
    }
}

/// The value a stack cell stands for: itself, or what its heap slot holds.
pub open spec fn cell_value(c: StackValue, heap: Seq<Type>) -> Option<Type> {
    match c {
        StackValue::Literal(v) => Some(v),
        StackValue::Addr(a) => if a < heap.len() {
            Some(heap[a as int])
        } else {
            None
        },
    }
}

/// The values of the top `k` cells of `s`, top first, or the error that
/// popping them one by one meets first.
pub open spec fn popped_values(s: Seq<StackValue>, heap: Seq<Type>, k: nat) -> Result<
    Seq<Type>,
    RuntimeError,
>
    decreases k,
{
    if k == 0 {
        Ok(Seq::empty())
    } else if s.len() == 0 {
        Err(RuntimeError::StackUnderflow)
    } else {
        match cell_value(s.last(), heap) {
            None => Err(RuntimeError::InvalidAddress(s.last()->Addr_0)),
            Some(v) => match popped_values(s.drop_last(), heap, (k - 1) as nat) {
                Ok(rest) => Ok(seq![v] + rest),
                Err(e) => Err(e),
            },
        }
    }
}

/// The bit pattern of the negated double: IEEE-754 negation flips the sign bit.
pub open spec fn neg_bits(n: u64) -> u64 {
    n ^ 0x8000_0000_0000_0000u64
}

/// Equality of two values of which at least one is not a number.
pub open spec fn same_value(a: Type, b: Type) -> bool {
    match (a, b) {
        (Type::String(x), Type::String(y)) => x@ == y@,
        (Type::Bool(x), Type::Bool(y)) => x == y,
        (Type::Nil, Type::Nil) => true,
        (Type::Null, Type::Null) => true,
        (Type::Addr(x), Type::Addr(y)) => x == y,
        (Type::FuncPtr(x), Type::FuncPtr(y)) => x == y,
        (Type::Error(x), Type::Error(y)) => x@ == y@,
        _ => false,
    }
}

/// The texts of `vals` joined in order, when none of them is a number.
pub open spec fn joined_text(vals: Seq<Type>) -> Option<Seq<char>>
    decreases vals.len(),
{
    if vals.len() == 0 {
        Some(Seq::empty())
    } else {
        match (joined_text(vals.drop_last()), display(vals.last())) {
            (Some(a), Some(b)) => Some(a + b),
            _ => None,
        }
    }
}

/// The result of one operation on popped values.
pub enum Outcome {
    /// Push this value and go on.
    Push(Type),
    /// Push a string with this text and go on.
    PushText(Seq<char>),
    /// Hand this to the host.
    Yield(EffectModel),
    Fail(RuntimeError),
}

/// Joining values as text: done here when no number is involved, else by the host.
pub open spec fn concat_outcome(vals: Seq<Type>) -> Outcome {
    match joined_text(vals) {
        Some(t) => Outcome::PushText(t),
        None => Outcome::Yield(EffectModel::Concat(vals)),
    }
}

/// A binary instruction on `lhs` and `rhs` (`rhs` was on top); `at` is its index.
pub open spec fn binary_outcome(i: Instr, lhs: Type, rhs: Type, at: usize) -> Outcome {
    let nums = lhs is Number && rhs is Number;
    let texts = lhs is String || rhs is String;
    let mismatch = Outcome::Fail(RuntimeError::TypeMismatch(at));
    let numeric = |op: NumOp|
        if nums {
            Outcome::Yield(EffectModel::Numeric(op, lhs->Number_0, rhs->Number_0))
        } else {
            mismatch
        };
    match i {
        Instr::Add => if nums {
            numeric(NumOp::Add)
        } else if texts {
            concat_outcome(seq![lhs, rhs])
        } else {
            mismatch
        },
        Instr::Join => if texts {
            concat_outcome(seq![lhs, rhs])
        } else {
            mismatch
        },
        Instr::Sub => numeric(NumOp::Sub),
        Instr::Mul => numeric(NumOp::Mul),
        Instr::Div => numeric(NumOp::Div),
        Instr::Mod => numeric(NumOp::Mod),
        Instr::Pow => numeric(NumOp::Pow),
        Instr::Lt => numeric(NumOp::Lt),
        Instr::Gt => numeric(NumOp::Gt),
        Instr::Lte => numeric(NumOp::Lte),
        Instr::Gte => numeric(NumOp::Gte),
        Instr::Eq => if nums {
            numeric(NumOp::Eq)
        } else {
            Outcome::Push(Type::Bool(same_value(lhs, rhs)))
        },
        Instr::Neq => if nums {
            numeric(NumOp::Neq)
        } else {
            Outcome::Push(Type::Bool(!same_value(lhs, rhs)))
        },
        Instr::And => match (lhs, rhs) {
            (Type::Bool(a), Type::Bool(b)) => Outcome::Push(Type::Bool(a && b)),
            _ => mismatch,
        },
        Instr::Or => match (lhs, rhs) {
            (Type::Bool(a), Type::Bool(b)) => Outcome::Push(Type::Bool(a || b)),
            _ => mismatch,
        },
        // `Index` pops the item first, then the index.
        Instr::Index => match (rhs, lhs) {
            (Type::String(s), Type::Number(n)) => Outcome::Yield(EffectModel::Index(s@, n)),
            _ => mismatch,
        },
        _ => mismatch,
    }
}

/// `Not`, `Neg` and `Print` on the popped value `v`.
pub open spec fn unary_outcome(i: Instr, v: Type, at: usize) -> Outcome {
    match (i, v) {
        (Instr::Not, Type::Bool(b)) => Outcome::Push(Type::Bool(!b)),
        (Instr::Neg, Type::Number(n)) => Outcome::Push(Type::Number(neg_bits(n))),
        (Instr::Print, _) => Outcome::Yield(EffectModel::Print(v)),
        _ => Outcome::Fail(RuntimeError::TypeMismatch(at)),
    }
}

/// `JoinMany` on the popped values, first popped first.
pub open spec fn join_many_outcome(vals: Seq<Type>, at: usize) -> Outcome {
    if vals.len() == 0 {
        Outcome::Push(Type::Nil)
    } else if vals.len() == 1 {
        Outcome::Push(vals[0])
    } else if vals[0] is String || vals[1] is String {
        concat_outcome(vals)
    } else {
        Outcome::Fail(RuntimeError::TypeMismatch(at))
    }
}

/// What a step leaves on top of the stack that remains after its pops.
pub enum Pushed {
    Nothing,
    Cell(StackValue),
    Text(Seq<char>),
}

pub open spec fn stack_after(post: Seq<StackValue>, base: Seq<StackValue>, p: Pushed) -> bool {
    match p {
        Pushed::Nothing => post == base,
        Pushed::Cell(c) => post == base.push(c),
        Pushed::Text(t) => {
            &&& post.len() == base.len() + 1
            &&& post.drop_last() == base
            &&& post.last() matches StackValue::Literal(Type::String(s)) && s@ == t
        },
    }
}

/// The machine after one step, and what the step returns.
pub struct StepModel {
    pub result: Result<EffectModel, RuntimeError>,
    pub pc: int,
    /// The operand stack after the step's pops.
    pub stack: Seq<StackValue>,
    pub pushed: Pushed,
    pub heap: Seq<Type>,
    pub frames: Seq<(usize, usize)>,
    pub locals: Seq<usize>,
}

/// The heap with every slot whose address is in `addrs` overwritten by `Null`.
pub open spec fn free_all(heap: Seq<Type>, addrs: Seq<usize>) -> Seq<Type> {
    Seq::new(heap.len(), |i: int| if lists_addr(addrs, i) { Type::Null } else { heap[i] })
}

pub open spec fn lists_addr(addrs: Seq<usize>, i: int) -> bool {
    exists|k: int| 0 <= k < addrs.len() && addrs[k] == i
}

/// The sum of the slots each frame has allocated.
pub open spec fn locals_total(frames: Seq<(usize, usize)>) -> int
    decreases frames.len(),
{
    if frames.len() == 0 {
        0
    } else {
        locals_total(frames.drop_last()) + frames.last().1
    }
}

/// A lexically nested program that runs in one VM.
pub struct VM {
    pub program: Vec<Instr>,
    pub pc: usize,
    pub stack: Stack,
    /// `(return_pc, locals_allocated)` for each active call, the bottom one
    /// standing for the top-level code.
    pub call_stack: Vec<(usize, usize)>,
    pub fp: usize,
    /// The heap slots that `StoreLocal` allocated, in order; each frame owns
    /// the last `locals_allocated` of them.
    pub local_addrs: Vec<usize>,
    pub heap: Memory,
}

/// The step that changes nothing but moves to the next instruction.
pub open spec fn advance(vm: &VM) -> StepModel {
    StepModel {
        result: Ok(EffectModel::Continue),
        pc: vm.pc + 1,
        stack: vm.stack@,
        pushed: Pushed::Nothing,
        heap: vm.heap@,
        frames: vm.call_stack@,
        locals: vm.local_addrs@,
    }
}

pub open spec fn failed(m: StepModel, e: RuntimeError) -> StepModel {
    StepModel { result: Err(e), ..m }
}

/// `m` with the result of an operation applied.
pub open spec fn with_outcome(m: StepModel, o: Outcome) -> StepModel {
    match o {
        Outcome::Push(v) => StepModel { pushed: Pushed::Cell(StackValue::Literal(v)), ..m },
        Outcome::PushText(t) => StepModel { pushed: Pushed::Text(t), ..m },
        Outcome::Yield(e) => StepModel { result: Ok(e), ..m },
        Outcome::Fail(e) => failed(m, e),
    }
}

/// An instruction that pops `k` values and then does `o` with them.
pub open spec fn popping_model(vm: &VM, k: nat, o: spec_fn(Seq<Type>) -> Outcome) -> StepModel {
    let s = vm.stack@;
    match popped_values(s, vm.heap@, k) {
        Err(e) => failed(advance(vm), e),
        Ok(vals) => with_outcome(
            StepModel { stack: s.subrange(0, s.len() - k), ..advance(vm) },
            o(vals),
        ),
    }
}

pub open spec fn binary_model(vm: &VM, i: Instr) -> StepModel {
    popping_model(vm, 2, |vals: Seq<Type>| binary_outcome(i, vals[1], vals[0], vm.pc))
}

pub open spec fn unary_model(vm: &VM, i: Instr) -> StepModel {
    popping_model(vm, 1, |vals: Seq<Type>| unary_outcome(i, vals[0], vm.pc))
}

pub open spec fn join_many_model(vm: &VM, n: usize) -> StepModel {
    popping_model(vm, n as nat, |vals: Seq<Type>| join_many_outcome(vals, vm.pc))
}

pub open spec fn native_model(vm: &VM, f: NativeFunction) -> StepModel {
    popping_model(vm, spec_arity(f), |vals: Seq<Type>| Outcome::Yield(EffectModel::Native(f, vals)))
}

/// Whether a conditional jump on `v` is taken: `JumpIf` on `true` only,
/// `JumpIfNot` on `false` only.
pub open spec fn branch_taken(jump_if: bool, v: Type) -> bool {
    v == Type::Bool(jump_if)
}

pub open spec fn branch_model(vm: &VM, jump_if: bool, t: usize) -> StepModel {
    let m = popping_model(vm, 1, |vals: Seq<Type>| Outcome::Yield(EffectModel::Continue));
    match popped_values(vm.stack@, vm.heap@, 1) {
        Ok(vals) => if branch_taken(jump_if, vals[0]) {
            StepModel { pc: t as int, ..m }
        } else {
            m
        },
        Err(_) => m,
    }
}

pub open spec fn store_addr_model(vm: &VM, a: usize) -> StepModel {
    let m = popping_model(vm, 1, |vals: Seq<Type>| Outcome::Yield(EffectModel::Continue));
    match popped_values(vm.stack@, vm.heap@, 1) {
        Ok(vals) => if a == usize::MAX {
            failed(m, RuntimeError::InvalidAddress(a))
        } else {
            StepModel { heap: stored(vm.heap@, a as int, vals[0]), ..m }
        },
        Err(_) => m,
    }
}

pub open spec fn store_local_model(vm: &VM, off: usize) -> StepModel {
    let m = popping_model(vm, 1, |vals: Seq<Type>| Outcome::Yield(EffectModel::Continue));
    let a = off + vm.fp;
    let frames = vm.call_stack@;
    match popped_values(vm.stack@, vm.heap@, 1) {
        Ok(vals) => if a >= usize::MAX {
            failed(m, RuntimeError::InvalidAddress(off))
        } else {
            StepModel {
                heap: stored(vm.heap@, a, vals[0]),
                frames: frames.update(
                    vm.fp as int,
                    (frames[vm.fp as int].0, (frames[vm.fp as int].1 + 1) as usize),
                ),
                locals: vm.local_addrs@.push(a as usize),
                ..m
            }
        },
        Err(_) => m,
    }
}

pub open spec fn call_model(vm: &VM) -> StepModel {
    let m = popping_model(vm, 1, |vals: Seq<Type>| Outcome::Yield(EffectModel::Continue));
    match popped_values(vm.stack@, vm.heap@, 1) {
        Ok(vals) => match vals[0] {
            Type::FuncPtr(t) => StepModel {
                pc: t as int,
                frames: vm.call_stack@.push(((vm.pc + 1) as usize, 0usize)),
                ..m
            },
            other => failed(m, RuntimeError::CallToNonFunction(other)),
        },
        Err(_) => m,
    }
}

pub open spec fn return_model(vm: &VM) -> StepModel {
    let s = vm.stack@;
    let frames = vm.call_stack@;
    let locals = vm.local_addrs@;
    let go = advance(vm);
    if s.len() == 0 {
        failed(go, RuntimeError::StackUnderflow)
    } else {
        match cell_value(s.last(), vm.heap@) {
            None => failed(go, RuntimeError::InvalidAddress(s.last()->Addr_0)),
            Some(v) => if frames.len() <= 1 {
                failed(go, RuntimeError::ReturnOutsideFunction)
            } else {
                let keep = locals.len() - frames.last().1;
                StepModel {
                    result: Ok(EffectModel::Continue),
                    pc: frames.last().0 as int,
                    stack: s.drop_last(),
                    pushed: Pushed::Cell(StackValue::Literal(v)),
                    heap: trim_nulls(free_all(vm.heap@, locals.subrange(keep, locals.len() as int))),
                    frames: frames.drop_last(),
                    locals: locals.subrange(0, keep),
                }
            },
        }
    }
}

/// One step of the machine at `vm.pc`.
pub open spec fn step_model(vm: &VM) -> StepModel {
    let go = advance(vm);
    match vm.program@[vm.pc as int] {
        Instr::Noop => go,
        Instr::Halt => StepModel {
            result: Ok(EffectModel::Finished),
            pc: vm.program@.len() as int,
            ..go
        },
        Instr::Push(c) => StepModel { pushed: Pushed::Cell(c), ..go },
        Instr::Pop => if vm.stack@.len() == 0 {
            failed(go, RuntimeError::StackUnderflow)
        } else {
            StepModel { stack: vm.stack@.drop_last(), ..go }
        },
        Instr::LoadAddr(a) => StepModel { pushed: Pushed::Cell(StackValue::Addr(a)), ..go },
        Instr::LoadGlobal(a) => StepModel { pushed: Pushed::Cell(StackValue::Addr(a)), ..go },
        Instr::LoadLocal(off) => if off + vm.fp > usize::MAX {
            failed(go, RuntimeError::InvalidAddress(off))
        } else {
            StepModel { pushed: Pushed::Cell(StackValue::Addr((off + vm.fp) as usize)), ..go }
        },
        Instr::StoreAddr(a) => store_addr_model(vm, a),
        Instr::StoreGlobal(a) => store_addr_model(vm, a),
        Instr::StoreLocal(off) => store_local_model(vm, off),
        Instr::Jump(t) => StepModel { pc: t as int, ..go },
        Instr::JumpIf(t) => branch_model(vm, true, t),
        Instr::JumpIfNot(t) => branch_model(vm, false, t),
        Instr::Call => call_model(vm),
        Instr::Return => return_model(vm),
        Instr::NativeCall(f) => native_model(vm, f),
        Instr::Not => unary_model(vm, Instr::Not),
        Instr::Neg => unary_model(vm, Instr::Neg),
        Instr::Print => unary_model(vm, Instr::Print),
        Instr::JoinMany(n) => join_many_model(vm, n),
        other => binary_model(vm, other),
    }
}

/// `post` and the returned `r` are what the model `m` describes; after an
/// error only the error is described.
pub open spec fn matches_model(m: StepModel, post: &VM, r: Result<Effect, RuntimeError>) -> bool {
    match r {
        Ok(e) => {
            &&& m.result == Ok::<EffectModel, RuntimeError>(e@)
            &&& post.pc == m.pc
            &&& stack_after(post.stack@, m.stack, m.pushed)
            &&& post.heap@ == m.heap
            &&& post.call_stack@ == m.frames
            &&& post.local_addrs@ == m.locals
        },
        Err(e) => m.result == Err::<EffectModel, RuntimeError>(e),
    }
}

/// `JumpIf t` and `JumpIfNot t` never both jump on the same condition value.
pub proof fn lemma_branches_exclusive(v: Type)
    ensures
        !(branch_taken(true, v) && branch_taken(false, v)),
{
}

/// Negating a number twice gives back the same number, bit for bit.
pub proof fn lemma_neg_involutive(n: u64, at: usize)
    ensures
        unary_outcome(Instr::Neg, Type::Number(n), at) == Outcome::Push(Type::Number(neg_bits(n))),
        unary_outcome(Instr::Neg, Type::Number(neg_bits(n)), at) == Outcome::Push(Type::Number(n)),
{
    assert(n ^ 0x8000_0000_0000_0000u64 ^ 0x8000_0000_0000_0000u64 == n) by (bit_vector);
}

/// `Not` applied twice to a boolean gives back the same boolean.
pub proof fn lemma_not_involutive(b: bool, at: usize)
    ensures
        unary_outcome(Instr::Not, Type::Bool(b), at) == Outcome::Push(Type::Bool(!b)),
        unary_outcome(Instr::Not, Type::Bool(!b), at) == Outcome::Push(Type::Bool(b)),
{
}

/// Adding strings is associative: `(a + b) + c` and `a + (b + c)` give the
/// same text, where `ab` and `bc` are the strings the inner additions give.
pub proof fn lemma_string_add_associative(
    a: String,
    b: String,
    c: String,
    ab: String,
    bc: String,
    at: usize,
)
    requires
        binary_outcome(Instr::Add, Type::String(a), Type::String(b), at) == Outcome::PushText(ab@),
        binary_outcome(Instr::Add, Type::String(b), Type::String(c), at) == Outcome::PushText(bc@),
    ensures
        binary_outcome(Instr::Add, Type::String(ab), Type::String(c), at) == binary_outcome(
            Instr::Add,
            Type::String(a),
            Type::String(bc),
            at,
        ),
        binary_outcome(Instr::Add, Type::String(ab), Type::String(c), at) == Outcome::PushText(
            a@ + b@ + c@,
        ),
{
    lemma_joined_two(Type::String(a), Type::String(b));
    lemma_joined_two(Type::String(b), Type::String(c));
    lemma_joined_two(Type::String(ab), Type::String(c));
    lemma_joined_two(Type::String(a), Type::String(bc));
    assert(a@ + b@ + c@ =~= a@ + (b@ + c@));
}

proof fn lemma_joined_two(x: Type, y: Type)
    ensures
        joined_text(seq![x, y]) == (match (display(x), display(y)) {
            (Some(s), Some(t)) => Some(s + t),
            _ => None,
        }),
{
    reveal_with_fuel(joined_text, 3);
    assert(seq![x, y].drop_last() =~= seq![x]);
    assert(seq![x].drop_last() =~= Seq::<Type>::empty());
    if let Some(s) = display(x) {
        assert(Seq::<char>::empty() + s =~= s);
    }
}

/// A successful `Return` leaves the operand stack as deep as it was: the
/// returning cell is replaced by the literal value it stands for.
pub proof fn lemma_return_keeps_depth(vm: &VM, post: Seq<StackValue>)
    requires
        return_model(vm).result is Ok,
        stack_after(post, return_model(vm).stack, return_model(vm).pushed),
    ensures
        post.len() == vm.stack@.len(),
        post.last() is Literal,
{
}

/// `post` follows from `pre` by one step that leaves nothing for the host.
pub open spec fn one_step(pre: VM, post: VM) -> bool {
    &&& pre.wf()
    &&& pre.pc < pre.program@.len()
    &&& post.program == pre.program
    &&& matches_model(step_model(&pre), &post, Ok(Effect::Continue))
}

/// `trace` is a run of `n` steps that each leave nothing for the host.
pub open spec fn is_trace(trace: Seq<VM>, n: nat) -> bool {
    &&& trace.len() == n + 1
    &&& forall|i: int| 0 <= i < n ==> one_step(#[trigger] trace[i], trace[i + 1])
}

/// `post` follows from `pre` by `n` steps that each leave nothing for the host.
pub open spec fn steps(pre: VM, post: VM, n: nat) -> bool {
    exists|trace: Seq<VM>|
        #[trigger] is_trace(trace, n) && trace[0] == pre && trace[n as int] == post
}

proof fn lemma_steps_none(vm: VM)
    ensures
        steps(vm, vm, 0),
{
    assert(is_trace(seq![vm], 0) && seq![vm][0] == vm);
}

proof fn lemma_steps_extend(pre: VM, mid: VM, post: VM, n: nat)
    requires
        steps(pre, mid, n),
        one_step(mid, post),
    ensures
        steps(pre, post, n + 1),
{
    let trace = choose|trace: Seq<VM>|
        #[trigger] is_trace(trace, n) && trace[0] == pre && trace[n as int] == mid;
    let longer = trace.push(post);
    assert forall|i: int| 0 <= i < n + 1 implies one_step(#[trigger] longer[i], longer[i + 1]) by {
        if i < n {
            assert(longer[i] == trace[i] && longer[i + 1] == trace[i + 1]);
        }
    }
    assert(is_trace(longer, n + 1) && longer[0] == pre && longer[n + 1 as int] == post);
}

/// What a run with step budget `budget` from `pre` did: some steps that left
/// nothing for the host, then either the budget ran out, or the program
/// counter was past the end, or one more step returned `r`.
pub open spec fn ran(pre: VM, post: VM, budget: nat, r: Result<Effect, RuntimeError>) -> bool {
    exists|mid: VM, n: nat|
        #![trigger steps(pre, mid, n)]
        {
            &&& n <= budget
            &&& steps(pre, mid, n)
            &&& {
                ||| (r == Ok::<Effect, RuntimeError>(Effect::Continue) && n == budget && post == mid)
                ||| (r == Ok::<Effect, RuntimeError>(Effect::Finished) && mid.pc
                    >= mid.program@.len() && post == mid)
                ||| {
                    &&& n < budget
                    &&& mid.pc < mid.program@.len()
                    &&& r != Ok::<Effect, RuntimeError>(Effect::Continue)
                    &&& matches_model(step_model(&mid), &post, r)
                }
            }
        }
}

/// [`Outcome`] as the machine computes it.
enum Done {
    Push(Type),
    PushText(String),
    Yield(Effect),
    Fail(RuntimeError),
}

spec fn outcome_of(d: Done) -> Outcome {
    match d {
        Done::Push(v) => Outcome::Push(v),
        Done::PushText(s) => Outcome::PushText(s@),
        Done::Yield(e) => Outcome::Yield(e@),
        Done::Fail(e) => Outcome::Fail(e),
    }
}

proof fn lemma_joined_none(vals: Seq<Type>, i: int)
    requires
        0 <= i < vals.len(),
        display(vals[i]) is None,
    ensures
        joined_text(vals) is None,
    decreases vals.len(),
{
    if i < vals.len() - 1 {
        lemma_joined_none(vals.drop_last(), i);
    }
}

/// Joins the texts of `vals`, or hands them to the host when one is a number.
fn concat_values(vals: Vec<Type>) -> (d: Done)
    ensures
        outcome_of(d) == concat_outcome(vals@),
{
    let mut out = String::new();
    let mut i: usize = 0;
    while i < vals.len()
        invariant
            0 <= i <= vals@.len(),
            joined_text(vals@.take(i as int)) == Some(out@),
        decreases vals@.len() - i,
    {
        assert(vals@.take(i + 1).drop_last() =~= vals@.take(i as int));
        if !push_display(&mut out, &vals[i]) {
            proof {
                lemma_joined_none(vals@, i as int);
            }
            return Done::Yield(Effect::Concat(vals));
        }
        i = i + 1;
    }
    assert(vals@.take(vals@.len() as int) =~= vals@);
    Done::PushText(out)
}

fn same_value_exec(a: &Type, b: &Type) -> (r: bool)
    ensures
        r == same_value(*a, *b),
{
    match (a, b) {
        (Type::String(x), Type::String(y)) => x.eq(y),
        (Type::Bool(x), Type::Bool(y)) => *x == *y,
        (Type::Nil, Type::Nil) => true,
        (Type::Null, Type::Null) => true,
        (Type::Addr(x), Type::Addr(y)) => *x == *y,
        (Type::FuncPtr(x), Type::FuncPtr(y)) => *x == *y,
        (Type::Error(x), Type::Error(y)) => x.eq(y),
        _ => false,
    }
}

fn binary_exec(i: &Instr, lhs: Type, rhs: Type, at: usize) -> (d: Done)
    ensures
        outcome_of(d) == binary_outcome(*i, lhs, rhs, at),
{
    let op = match i {
        Instr::Add => NumOp::Add,
        Instr::Sub => NumOp::Sub,
        Instr::Mul => NumOp::Mul,
        Instr::Div => NumOp::Div,
        Instr::Mod => NumOp::Mod,
        Instr::Pow => NumOp::Pow,
        Instr::Lt => NumOp::Lt,
        Instr::Gt => NumOp::Gt,
        Instr::Lte => NumOp::Lte,
        Instr::Gte => NumOp::Gte,
        Instr::Eq => NumOp::Eq,
        Instr::Neq => NumOp::Neq,
        Instr::And => {
            return match (lhs, rhs) {
                (Type::Bool(a), Type::Bool(b)) => Done::Push(Type::Bool(a && b)),
                _ => Done::Fail(RuntimeError::TypeMismatch(at)),
            };
        },
        Instr::Or => {
            return match (lhs, rhs) {
                (Type::Bool(a), Type::Bool(b)) => Done::Push(Type::Bool(a || b)),
                _ => Done::Fail(RuntimeError::TypeMismatch(at)),
            };
        },
        Instr::Index => {
            return match (rhs, lhs) {
                (Type::String(s), Type::Number(n)) => Done::Yield(Effect::Index(s, n)),
                _ => Done::Fail(RuntimeError::TypeMismatch(at)),
            };
        },
        Instr::Join => {
            return if matches!(lhs, Type::String(_)) || matches!(rhs, Type::String(_)) {
                let mut vals = Vec::new();
                vals.push(lhs);
                vals.push(rhs);
                assert(vals@ =~= seq![lhs, rhs]);
                concat_values(vals)
            } else {
                Done::Fail(RuntimeError::TypeMismatch(at))
            };
        },
        _ => {
            return Done::Fail(RuntimeError::TypeMismatch(at));
        },
    };
    match (&lhs, &rhs) {
        (Type::Number(a), Type::Number(b)) => {
            return Done::Yield(Effect::Numeric(op, *a, *b));
        },
        _ => {},
    }
    match i {
        Instr::Add => if matches!(lhs, Type::String(_)) || matches!(rhs, Type::String(_)) {
            let mut vals = Vec::new();
            vals.push(lhs);
            vals.push(rhs);
            assert(vals@ =~= seq![lhs, rhs]);
            concat_values(vals)
        } else {
            Done::Fail(RuntimeError::TypeMismatch(at))
        },
        Instr::Eq => Done::Push(Type::Bool(same_value_exec(&lhs, &rhs))),
        Instr::Neq => Done::Push(Type::Bool(!same_value_exec(&lhs, &rhs))),
        _ => Done::Fail(RuntimeError::TypeMismatch(at)),
    }
}

fn unary_exec(i: &Instr, v: Type, at: usize) -> (d: Done)
    ensures
        outcome_of(d) == unary_outcome(*i, v, at),
{
    match (i, v) {
        (Instr::Not, Type::Bool(b)) => Done::Push(Type::Bool(!b)),
        (Instr::Neg, Type::Number(n)) => Done::Push(Type::Number(n ^ 0x8000_0000_0000_0000u64)),
        (Instr::Print, v) => Done::Yield(Effect::Print(v)),
        _ => Done::Fail(RuntimeError::TypeMismatch(at)),
    }
}

fn join_many_exec(vals: Vec<Type>, at: usize) -> (d: Done)
    ensures
        outcome_of(d) == join_many_outcome(vals@, at),
{
    if vals.len() == 0 {
        Done::Push(Type::Nil)
    } else if vals.len() == 1 {
        let mut vals = vals;
        Done::Push(vals.pop().unwrap())
    } else if matches!(vals[0], Type::String(_)) || matches!(vals[1], Type::String(_)) {
        concat_values(vals)
    } else {
        Done::Fail(RuntimeError::TypeMismatch(at))
    }
}

/// Popping `k` values that all succeed takes `k` cells.
pub proof fn lemma_popped_len(s: Seq<StackValue>, heap: Seq<Type>, k: nat)
    ensures
        popped_values(s, heap, k) matches Ok(vals) ==> vals.len() == k && s.len() >= k,
    decreases k,
{
    if k > 0 && s.len() > 0 {
        lemma_popped_len(s.drop_last(), heap, (k - 1) as nat);
    }
}

proof fn lemma_locals_total_nonneg(frames: Seq<(usize, usize)>)
    ensures
        locals_total(frames) >= 0,
        frames.len() > 0 ==> locals_total(frames) >= frames.last().1,
    decreases frames.len(),
{
    if frames.len() > 0 {
        lemma_locals_total_nonneg(frames.drop_last());
    }
}

impl VM {
    /// The frame pointer names the top frame, there is always the bottom one,
    /// and the frames' allocations add up to the recorded local addresses.
    pub open spec fn wf(&self) -> bool {
        &&& self.call_stack@.len() >= 1
        &&& self.fp == self.call_stack@.len() - 1
        &&& locals_total(self.call_stack@) == self.local_addrs@.len()
    }

    pub fn new() -> (vm: VM)
        ensures
            vm.wf(),
            vm.program@ == Seq::<Instr>::empty(),
            vm.pc == 0,
            vm.stack@ == Seq::<StackValue>::empty(),
            vm.call_stack@ == seq![(0usize, 0usize)],
            vm.local_addrs@ == Seq::<usize>::empty(),
            vm.heap@ == Seq::<Type>::empty(),
    {
        let mut call_stack = Vec::new();
        call_stack.push((0, 0));
        let vm = VM {
            program: Vec::new(),
            pc: 0,
            stack: Stack::new(),
            local_addrs: Vec::new(),
            call_stack,
            fp: 0,
            heap: Memory::new(),
        };
        assert(vm.call_stack@.drop_last() =~= Seq::<(usize, usize)>::empty());
        assert(locals_total(Seq::<(usize, usize)>::empty()) == 0);
        vm
    }

    /// The value of the top cell, if there is a top cell and it can be read.
    pub fn peek_stack(&self) -> (r: Option<&Type>)
        ensures
            self.stack@.len() == 0 ==> r is None,
            self.stack@.len() > 0 ==> (match cell_value(self.stack@.last(), self.heap@) {
                Some(v) => r == Some(&v),
                None => r is None,
            }),
    {
        match self.stack.peek() {
            None => None,
            Some(StackValue::Literal(v)) => Some(v),
            Some(StackValue::Addr(a)) => if *a < self.heap.0.len() {
                Some(self.heap.get(*a))
            } else {
                None
            },
        }
    }

    /// Pops the top cell and reads its value.
    #[inline]
    pub fn pop_stack(&mut self) -> (r: Result<Type, RuntimeError>)
        ensures
            final(self).program == old(self).program,
            final(self).pc == old(self).pc,
            final(self).heap == old(self).heap,
            final(self).call_stack == old(self).call_stack,
            final(self).fp == old(self).fp,
            final(self).local_addrs == old(self).local_addrs,
            old(self).stack@.len() > 0 ==> final(self).stack@ == old(self).stack@.drop_last(),
            match popped_values(old(self).stack@, old(self).heap@, 1) {
                Ok(vals) => r == Ok::<Type, RuntimeError>(vals[0]),
                Err(e) => r == Err::<Type, RuntimeError>(e),
            },
    {
        let ghost s = self.stack@;
        match self.stack.pop() {
            None => Err(RuntimeError::StackUnderflow),
            Some(StackValue::Literal(v)) => {
                assert(popped_values(s.drop_last(), self.heap@, 0) == Ok::<Seq<Type>, RuntimeError>(Seq::empty()));
                Ok(v)
            },
            Some(StackValue::Addr(a)) => {
                assert(popped_values(s.drop_last(), self.heap@, 0) == Ok::<Seq<Type>, RuntimeError>(Seq::empty()));
                if a < self.heap.0.len() {
                    Ok(self.heap.get(a).clone())
                } else {
                    Err(RuntimeError::InvalidAddress(a))
                }
            },
        }
    }

    /// Pops the top two cells and reads their values, top first.
    #[inline]
    pub fn double_pop_stack(&mut self) -> (r: Result<(Type, Type), RuntimeError>)
        ensures
            final(self).program == old(self).program,
            final(self).pc == old(self).pc,
            final(self).heap == old(self).heap,
            final(self).call_stack == old(self).call_stack,
            final(self).fp == old(self).fp,
            final(self).local_addrs == old(self).local_addrs,
            match popped_values(old(self).stack@, old(self).heap@, 2) {
                Ok(vals) => r == Ok::<(Type, Type), RuntimeError>((vals[0], vals[1]))
                    && final(self).stack@ == old(self).stack@.subrange(0, old(self).stack@.len() - 2),
                Err(e) => r == Err::<(Type, Type), RuntimeError>(e),
            },
    {
        proof {
            lemma_popped_len(self.stack@, self.heap@, 2);
        }
        let vals = self.pop_values(2);
        match vals {
            Err(e) => Err(e),
            Ok(mut v) => {
                let second = v.pop().unwrap();
                let first = v.pop().unwrap();
                Ok((first, second))
            },
        }
    }

    /// Pops `k` cells and reads their values, top first.
    fn pop_values(&mut self, k: usize) -> (r: Result<Vec<Type>, RuntimeError>)
        ensures
            final(self).program == old(self).program,
            final(self).pc == old(self).pc,
            final(self).heap == old(self).heap,
            final(self).call_stack == old(self).call_stack,
            final(self).fp == old(self).fp,
            final(self).local_addrs == old(self).local_addrs,
            match popped_values(old(self).stack@, old(self).heap@, k as nat) {
                Ok(vals) => (r matches Ok(v) && v@ == vals) && final(self).stack@ == old(
                    self,
                ).stack@.subrange(0, old(self).stack@.len() - k),
                Err(e) => r == Err::<Vec<Type>, RuntimeError>(e),
            },
        decreases k,
    {
        if k == 0 {
            assert(self.stack@.subrange(0, self.stack@.len() as int) =~= self.stack@);
            return Ok(Vec::new());
        }
        let ghost s = self.stack@;
        proof {
            lemma_popped_len(s, self.heap@, k as nat);
            lemma_popped_len(s.drop_last(), self.heap@, (k - 1) as nat);
        }
        let first = self.pop_stack();
        match first {
            Err(e) => {
                proof {
                    if s.len() > 0 {
                        assert(popped_values(s.drop_last(), self.heap@, 0) is Ok);
                    }
                }
                Err(e)
            },
            Ok(v) => {
                assert(popped_values(s.drop_last(), self.heap@, 0) is Ok);
                let rest = self.pop_values(k - 1);
                match rest {
                    Err(e) => Err(e),
                    Ok(mut vals) => {
                        vals.insert(0, v);
                        assert(s.drop_last().subrange(0, s.drop_last().len() - (k - 1)) =~= s.subrange(0, s.len() - k));
                        assert(vals@ =~= seq![v] + vals@.drop_first());
                        Ok(vals)
                    },
                }
            },
        }
    }

    /// Pushes what an outcome asks for; the rest of the machine is unchanged.
    fn apply(&mut self, d: Done) -> (r: Result<Effect, RuntimeError>)
        ensures
            final(self).program == old(self).program,
            final(self).pc == old(self).pc,
            final(self).heap == old(self).heap,
            final(self).call_stack == old(self).call_stack,
            final(self).fp == old(self).fp,
            final(self).local_addrs == old(self).local_addrs,
            match outcome_of(d) {
                Outcome::Push(v) => final(self).stack@ == old(self).stack@.push(
                    StackValue::Literal(v),
                ) && r == Ok::<Effect, RuntimeError>(Effect::Continue),
                Outcome::PushText(t) => stack_after(final(self).stack@, old(self).stack@, Pushed::Text(t))
                    && r == Ok::<Effect, RuntimeError>(Effect::Continue),
                Outcome::Yield(e) => final(self).stack@ == old(self).stack@ && (r matches Ok(x) && x@ == e),
                Outcome::Fail(e) => r == Err::<Effect, RuntimeError>(e),
            },
    {
        match d {
            Done::Push(v) => {
                self.stack.push(StackValue::Literal(v));
                Ok(Effect::Continue)
            },
            Done::PushText(t) => {
                let ghost before = self.stack@;
                self.stack.push(StackValue::Literal(Type::String(t)));
                assert(self.stack@.drop_last() =~= before);
                Ok(Effect::Continue)
            },
            Done::Yield(e) => Ok(e),
            Done::Fail(e) => Err(e),
        }
    }

    fn binary_step(&mut self, i: &Instr) -> (r: Result<Effect, RuntimeError>)
        requires
            old(self).wf(),
            old(self).pc < old(self).program@.len(),
        ensures
            final(self).wf(),
            final(self).program == old(self).program,
            matches_model(binary_model(old(self), *i), final(self), r),
    {
        let at = self.pc;
        let _len = self.program.len();
        proof {
            lemma_popped_len(self.stack@, self.heap@, 2);
        }
        match self.pop_values(2) {
            Err(e) => Err(e),
            Ok(mut vals) => {
                let lhs = vals.pop().unwrap();
                let rhs = vals.pop().unwrap();
                let d = binary_exec(i, lhs, rhs, at);
                self.pc = at + 1;
                self.apply(d)
            },
        }
    }

    fn unary_step(&mut self, i: &Instr) -> (r: Result<Effect, RuntimeError>)
        requires
            old(self).wf(),
            old(self).pc < old(self).program@.len(),
        ensures
            final(self).wf(),
            final(self).program == old(self).program,
            matches_model(unary_model(old(self), *i), final(self), r),
    {
        let at = self.pc;
        let _len = self.program.len();
        proof {
            lemma_popped_len(self.stack@, self.heap@, 1);
        }
        match self.pop_values(1) {
            Err(e) => Err(e),
            Ok(mut vals) => {
                let v = vals.pop().unwrap();
                let d = unary_exec(i, v, at);
                self.pc = at + 1;
                self.apply(d)
            },
        }
    }

    fn join_many_step(&mut self, n: usize) -> (r: Result<Effect, RuntimeError>)
        requires
            old(self).wf(),
            old(self).pc < old(self).program@.len(),
        ensures
            final(self).wf(),
            final(self).program == old(self).program,
            matches_model(join_many_model(old(self), n), final(self), r),
    {
        let at = self.pc;
        let _len = self.program.len();
        proof {
            lemma_popped_len(self.stack@, self.heap@, n as nat);
        }
        match self.pop_values(n) {
            Err(e) => Err(e),
            Ok(vals) => {
                let d = join_many_exec(vals, at);
                self.pc = at + 1;
                self.apply(d)
            },
        }
    }

    fn native_step(&mut self, f: NativeFunction) -> (r: Result<Effect, RuntimeError>)
        requires
            old(self).wf(),
            old(self).pc < old(self).program@.len(),
        ensures
            final(self).wf(),
            final(self).program == old(self).program,
            matches_model(native_model(old(self), f), final(self), r),
    {
        let at = self.pc;
        let _len = self.program.len();
        proof {
            lemma_popped_len(self.stack@, self.heap@, spec_arity(f));
        }
        match self.pop_values(f.arity()) {
            Err(e) => Err(e),
            Ok(args) => {
                self.pc = at + 1;
                self.apply(Done::Yield(Effect::Native(f, args)))
            },
        }
    }

    fn branch_step(&mut self, jump_if: bool, t: usize) -> (r: Result<Effect, RuntimeError>)
        requires
            old(self).wf(),
            old(self).pc < old(self).program@.len(),
        ensures
            final(self).wf(),
            final(self).program == old(self).program,
            matches_model(branch_model(old(self), jump_if, t), final(self), r),
    {
        let at = self.pc;
        let _len = self.program.len();
        proof {
            lemma_popped_len(self.stack@, self.heap@, 1);
        }
        match self.pop_stack() {
            Err(e) => Err(e),
            Ok(v) => {
                let taken = match v {
                    Type::Bool(b) => b == jump_if,
                    _ => false,
                };
                self.pc = if taken {
                    t
                } else {
                    at + 1
                };
                Ok(Effect::Continue)
            },
        }
    }

    fn store_addr_step(&mut self, a: usize) -> (r: Result<Effect, RuntimeError>)
        requires
            old(self).wf(),
            old(self).pc < old(self).program@.len(),
        ensures
            final(self).wf(),
            final(self).program == old(self).program,
            matches_model(store_addr_model(old(self), a), final(self), r),
    {
        let at = self.pc;
        let _len = self.program.len();
        proof {
            lemma_popped_len(self.stack@, self.heap@, 1);
        }
        match self.pop_stack() {
            Err(e) => Err(e),
            Ok(v) => {
                if a == usize::MAX {
                    return Err(RuntimeError::InvalidAddress(a));
                }
                self.heap.set(a, v);
                self.pc = at + 1;
                Ok(Effect::Continue)
            },
        }
    }

    fn store_local_step(&mut self, off: usize) -> (r: Result<Effect, RuntimeError>)
        requires
            old(self).wf(),
            old(self).pc < old(self).program@.len(),
        ensures
            final(self).wf(),
            final(self).program == old(self).program,
            matches_model(store_local_model(old(self), off), final(self), r),
    {
        let at = self.pc;
        let _len = self.program.len();
        proof {
            lemma_popped_len(self.stack@, self.heap@, 1);
        }
        match self.pop_stack() {
            Err(e) => Err(e),
            Ok(v) => {
                if off >= usize::MAX - self.fp {
                    return Err(RuntimeError::InvalidAddress(off));
                }
                let a = off + self.fp;
                self.heap.set(a, v);
                let ghost frames = self.call_stack@;
                self.local_addrs.push(a);
                let n = self.local_addrs.len();
                proof {
                    lemma_locals_total_nonneg(frames);
                }
                let fp = self.fp;
                let (ret, k) = self.call_stack[fp];
                self.call_stack[fp] = (ret, k + 1);
                assert(self.call_stack@.drop_last() =~= frames.drop_last());
                self.pc = at + 1;
                Ok(Effect::Continue)
            },
        }
    }

    fn call_step(&mut self) -> (r: Result<Effect, RuntimeError>)
        requires
            old(self).wf(),
            old(self).pc < old(self).program@.len(),
        ensures
            final(self).wf(),
            final(self).program == old(self).program,
            matches_model(call_model(old(self)), final(self), r),
    {
        let at = self.pc;
        let _len = self.program.len();
        proof {
            lemma_popped_len(self.stack@, self.heap@, 1);
        }
        match self.pop_stack() {
            Err(e) => Err(e),
            Ok(Type::FuncPtr(t)) => {
                self.enter_scope(at + 1);
                self.pc = t;
                Ok(Effect::Continue)
            },
            Ok(other) => Err(RuntimeError::CallToNonFunction(other)),
        }
    }

    fn return_step(&mut self) -> (r: Result<Effect, RuntimeError>)
        requires
            old(self).wf(),
            old(self).pc < old(self).program@.len(),
        ensures
            final(self).wf(),
            final(self).program == old(self).program,
            matches_model(return_model(old(self)), final(self), r),
    {
        let c = match self.stack.pop() {
            None => {
                return Err(RuntimeError::StackUnderflow);
            },
            Some(c) => c,
        };
        let v = match c {
            StackValue::Literal(v) => v,
            StackValue::Addr(a) => if a < self.heap.0.len() {
                self.heap.get(a).clone()
            } else {
                return Err(RuntimeError::InvalidAddress(a));
            },
        };
        if self.call_stack.len() <= 1 {
            return Err(RuntimeError::ReturnOutsideFunction);
        }
        self.stack.push(StackValue::Literal(v));
        let ret = self.exit_scope();
        self.pc = ret;
        Ok(Effect::Continue)
    }

    /// Opens a frame for a call that returns to `return_to`.
    #[inline]
    pub fn enter_scope(&mut self, return_to: usize)
        requires
            old(self).wf(),
        ensures
            final(self).wf(),
            final(self).call_stack@ == old(self).call_stack@.push((return_to, 0usize)),
            final(self).fp == old(self).fp + 1,
            final(self).program == old(self).program,
            final(self).pc == old(self).pc,
            final(self).stack == old(self).stack,
            final(self).heap == old(self).heap,
            final(self).local_addrs == old(self).local_addrs,
    {
        let ghost frames = self.call_stack@;
        self.call_stack.push((return_to, 0));
        assert(self.call_stack@.drop_last() =~= frames);
        self.fp = self.call_stack.len() - 1;
    }

    /// Closes the top frame, frees the heap slots it allocated, and returns
    /// where the call returns to.
    #[inline]
    pub fn exit_scope(&mut self) -> (r: usize)
        requires
            old(self).wf(),
            old(self).call_stack@.len() > 1,
        ensures
            final(self).wf(),
            r == old(self).call_stack@.last().0,
            final(self).call_stack@ == old(self).call_stack@.drop_last(),
            final(self).fp == old(self).fp - 1,
            final(self).local_addrs@ == old(self).local_addrs@.subrange(
                0,
                old(self).local_addrs@.len() - old(self).call_stack@.last().1,
            ),
            final(self).heap@ == trim_nulls(
                free_all(
                    old(self).heap@,
                    old(self).local_addrs@.subrange(
                        old(self).local_addrs@.len() - old(self).call_stack@.last().1,
                        old(self).local_addrs@.len() as int,
                    ),
                ),
            ),
            final(self).program == old(self).program,
            final(self).pc == old(self).pc,
            final(self).stack == old(self).stack,
    {
        proof {
            lemma_locals_total_nonneg(self.call_stack@);
            lemma_locals_total_nonneg(self.call_stack@.drop_last());
        }
        let (return_to, amnt) = self.call_stack.pop().unwrap();
        self.free_locals(amnt);
        self.fp = self.fp - 1;
        return_to
    }

    /// Frees the heap slots of the last `amnt` recorded local addresses, then
    /// trims the heap's trailing `Null` slots.
    pub fn free_locals(&mut self, amnt: usize)
        requires
            amnt <= old(self).local_addrs@.len(),
        ensures
            final(self).local_addrs@ == old(self).local_addrs@.subrange(
                0,
                old(self).local_addrs@.len() - amnt,
            ),
            final(self).heap@ == trim_nulls(
                free_all(
                    old(self).heap@,
                    old(self).local_addrs@.subrange(
                        old(self).local_addrs@.len() - amnt,
                        old(self).local_addrs@.len() as int,
                    ),
                ),
            ),
            final(self).program == old(self).program,
            final(self).pc == old(self).pc,
            final(self).stack == old(self).stack,
            final(self).call_stack == old(self).call_stack,
            final(self).fp == old(self).fp,
    {
        let ghost h0 = self.heap@;
        let ghost l0 = self.local_addrs@;
        assert(free_all(h0, l0.subrange(l0.len() as int, l0.len() as int)) =~= h0);
        let mut i: usize = 0;
        while i < amnt
            invariant
                i <= amnt <= l0.len(),
                self.local_addrs@ == l0.subrange(0, l0.len() - i),
                self.heap@ == free_all(h0, l0.subrange(l0.len() - i, l0.len() as int)),
                self.program == old(self).program,
                self.pc == old(self).pc,
                self.stack == old(self).stack,
                self.call_stack == old(self).call_stack,
                self.fp == old(self).fp,
            decreases amnt - i,
        {
            let a = self.local_addrs.pop().unwrap();
            self.heap.free(a);
            proof {
                let t0 = l0.subrange(l0.len() - i, l0.len() as int);
                let t1 = l0.subrange(l0.len() - i - 1, l0.len() as int);
                assert(a == t1[0]);
                assert forall|j: int| 0 <= j < h0.len() implies #[trigger] self.heap@[j] == free_all(
                    h0,
                    t1,
                )[j] by {
                    if lists_addr(t1, j) {
                        let w = choose|w: int| 0 <= w < t1.len() && t1[w] == j;
                        if w > 0 {
                            assert(t0[w - 1] == j);
                        }
                    }
                    if lists_addr(t0, j) {
                        let w = choose|w: int| 0 <= w < t0.len() && t0[w] == j;
                        assert(t1[w + 1] == j);
                    }
                    if j == a as int {
                        assert(t1[0] == j);
                    }
                }
                assert(self.heap@ =~= free_all(h0, t1));
                assert(self.local_addrs@ =~= l0.subrange(0, l0.len() - i - 1));
            }
            i = i + 1;
        }
        self.heap.cleanup();
    }

    /// Runs the instruction at `pc`.
    pub fn step(&mut self) -> (r: Result<Effect, RuntimeError>)
        requires
            old(self).wf(),
            old(self).pc < old(self).program@.len(),
        ensures
            final(self).wf(),
            final(self).program == old(self).program,
            matches_model(step_model(old(self)), final(self), r),
    {
        let at = self.pc;
        let _len = self.program.len();
        let instruction = self.program[at].clone();
        match instruction {
            Instr::Noop => {
                self.pc = at + 1;
                Ok(Effect::Continue)
            },
            Instr::Halt => {
                self.pc = self.program.len();
                Ok(Effect::Finished)
            },
            Instr::Push(c) => {
                self.stack.push(c);
                self.pc = at + 1;
                Ok(Effect::Continue)
            },
            Instr::Pop => {
                match self.stack.pop() {
                    None => Err(RuntimeError::StackUnderflow),
                    Some(_) => {
                        self.pc = at + 1;
                        Ok(Effect::Continue)
                    },
                }
            },
            Instr::LoadAddr(a) => {
                self.stack.push(StackValue::Addr(a));
                self.pc = at + 1;
                Ok(Effect::Continue)
            },
            Instr::LoadGlobal(a) => {
                self.stack.push(StackValue::Addr(a));
                self.pc = at + 1;
                Ok(Effect::Continue)
            },
            Instr::LoadLocal(off) => {
                if off > usize::MAX - self.fp {
                    return Err(RuntimeError::InvalidAddress(off));
                }
                self.stack.push(StackValue::Addr(off + self.fp));
                self.pc = at + 1;
                Ok(Effect::Continue)
            },
            Instr::StoreAddr(a) => self.store_addr_step(a),
            Instr::StoreGlobal(a) => self.store_addr_step(a),
            Instr::StoreLocal(off) => self.store_local_step(off),
            Instr::Jump(t) => {
                self.pc = t;
                Ok(Effect::Continue)
            },
            Instr::JumpIf(t) => self.branch_step(true, t),
            Instr::JumpIfNot(t) => self.branch_step(false, t),
            Instr::Call => self.call_step(),
            Instr::Return => self.return_step(),
            Instr::NativeCall(f) => self.native_step(f),
            Instr::Not => self.unary_step(&Instr::Not),
            Instr::Neg => self.unary_step(&Instr::Neg),
            Instr::Print => self.unary_step(&Instr::Print),
            Instr::JoinMany(n) => self.join_many_step(n),
            other => self.binary_step(&other),
        }
    }

    /// Runs up to `budget` steps and stops early at the first step that has
    /// something for the host, at an error, or at the end of the program.
    /// `Ok(Effect::Continue)` means the budget ran out first.
    pub fn run(&mut self, budget: usize) -> (r: Result<Effect, RuntimeError>)
        requires
            old(self).wf(),
        ensures
            final(self).wf(),
            final(self).program == old(self).program,
            r matches Ok(Effect::Finished) ==> final(self).pc >= final(self).program@.len(),
            r matches Ok(Effect::Continue) ==> final(self).pc < final(self).program@.len(),
            ran(*old(self), *final(self), budget as nat, r),
    {
        let mut n: usize = 0;
        proof {
            lemma_steps_none(*self);
        }
        while n < budget
            invariant
                self.wf(),
                self.program == old(self).program,
                n <= budget,
                steps(*old(self), *self, n as nat),
            decreases budget - n,
        {
            if self.pc >= self.program.len() {
                assert(ran(*old(self), *self, budget as nat, Ok(Effect::Finished)));
                return Ok(Effect::Finished);
            }
            let ghost before = *self;
            let r = self.step();
            match r {
                Ok(Effect::Continue) => {
                    proof {
                        lemma_steps_extend(*old(self), before, *self, n as nat);
                    }
                },
                _ => {
                    assert(ran(*old(self), *self, budget as nat, r));
                    return r;
                },
            }
            n = n + 1;
        }
        if self.pc >= self.program.len() {
            assert(ran(*old(self), *self, budget as nat, Ok(Effect::Finished)));
            Ok(Effect::Finished)
        } else {
            assert(ran(*old(self), *self, budget as nat, Ok(Effect::Continue)));
            Ok(Effect::Continue)
        }
    }

    /// Pushes the value the host computed for an [`Effect`].
    pub fn push_result(&mut self, v: Type)
        requires
            old(self).wf(),
        ensures
            final(self).wf(),
            final(self).stack@ == old(self).stack@.push(StackValue::Literal(v)),
            final(self).program == old(self).program,
            final(self).pc == old(self).pc,
            final(self).heap == old(self).heap,
            final(self).call_stack == old(self).call_stack,
            final(self).local_addrs == old(self).local_addrs,
    {
        self.stack.push(StackValue::Literal(v));
    }

    /// Finishes an `Index` effect: pushes the `index`-th character of `text`
    /// as a one-character string, or fails when there is no such character.
    pub fn index_text(&mut self, text: &str, index: usize) -> (r: Result<(), RuntimeError>)
        requires
            old(self).wf(),
        ensures
            final(self).wf(),
            final(self).program == old(self).program,
            final(self).pc == old(self).pc,
            final(self).heap == old(self).heap,
            final(self).call_stack == old(self).call_stack,
            final(self).local_addrs == old(self).local_addrs,
            index >= text@.len() ==> r == Err::<(), RuntimeError>(
                RuntimeError::IndexOutOfBounds { index, len: text@.len() as usize },
            ) && final(self).stack == old(self).stack,
            index < text@.len() ==> r is Ok && stack_after(
                final(self).stack@,
                old(self).stack@,
                Pushed::Text(seq![text@[index as int]]),
            ),
    {
        let chars = chars_of(text);
        if index >= chars.len() {
            return Err(RuntimeError::IndexOutOfBounds { index, len: chars.len() });
        }
        let mut s = String::new();
        push_char(&mut s, chars[index]);
        assert(s@ =~= seq![text@[index as int]]);
        let ghost before = self.stack@;
        self.stack.push(StackValue::Literal(Type::String(s)));
        assert(self.stack@.drop_last() =~= before);
        Ok(())
    }
}

} // verus!
