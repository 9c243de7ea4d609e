use glass::backend::compiler::{peephole, CompileError};
use glass::backend::instruction::{Instr, Type};
use glass::backend::memory::Memory;
use glass::backend::names::State;
use glass::backend::scope::Scope;
use glass::backend::stack::{Stack, StackValue};
use glass::backend::text::display_text;
use glass::backend::vm::{Effect, NumOp, RuntimeError, VM};
use glass::fix_str;
use glass::frontend::{Expr, Op};
use glass::stdlib::NativeFunction;

fn num(x: f64) -> Expr {
    Expr::Number(x.to_bits())
}

fn st(x: &str) -> Expr {
    Expr::String(x.to_string())
}

fn var(x: &str) -> Expr {
    Expr::Identifier(x.to_string())
}

fn bx(e: Expr) -> Box<Expr> {
    Box::new(e)
}

fn op(o: Op, l: Expr, r: Expr) -> Expr {
    Expr::Op(o, bx(l), bx(r))
}

fn let_(name: &str, e: Expr) -> Expr {
    Expr::Declaration(name.to_string(), bx(e))
}

fn stdout(e: Expr) -> Expr {
    Expr::NativeCall("stdout".to_string(), vec![e])
}

fn call(name: &str, args: Vec<Expr>) -> Expr {
    Expr::Call(bx(var(name)), args)
}

fn lit(v: Type) -> Instr {
    Instr::Push(StackValue::Literal(v))
}

fn number(x: f64) -> Type {
    Type::Number(x.to_bits())
}

fn text_of(v: &Type) -> String {
    match v {
        Type::Number(bits) => format!("{}", f64::from_bits(*bits)),
        other => display_text(other).unwrap(),
    }
}

fn numeric(o: NumOp, a: u64, b: u64) -> Type {
    let (x, y) = (f64::from_bits(a), f64::from_bits(b));
    match o {
        NumOp::Add => number(x + y),
        NumOp::Sub => number(x - y),
        NumOp::Mul => number(x * y),
        NumOp::Div => number(x / y),
        NumOp::Mod => number(x % y),
        NumOp::Pow => number(x.powf(y)),
        NumOp::Eq => Type::Bool(x == y),
        NumOp::Neq => Type::Bool(x != y),
        NumOp::Lt => Type::Bool(x < y),
        NumOp::Gt => Type::Bool(x > y),
        NumOp::Lte => Type::Bool(x <= y),
        NumOp::Gte => Type::Bool(x >= y),
    }
}

/// Runs `program` to its end, doing the host's part; returns what it wrote
/// and the machine, or the error that stopped it.
fn execute(program: Vec<Instr>) -> (String, Result<VM, RuntimeError>) {
    let mut vm = VM::new();
    vm.program = program;
    let mut out = String::new();
    loop {
        match vm.run(1000) {
            Err(e) => return (out, Err(e)),
            Ok(Effect::Continue) => {}
            Ok(Effect::Finished) => return (out, Ok(vm)),
            Ok(Effect::Numeric(o, a, b)) => vm.push_result(numeric(o, a, b)),
            Ok(Effect::Concat(vals)) => {
                let t: String = vals.iter().map(text_of).collect();
                vm.push_result(Type::String(t));
            }
            Ok(Effect::Index(t, i)) => {
                if let Err(e) = vm.index_text(&t, f64::from_bits(i) as usize) {
                    return (out, Err(e));
                }
            }
            Ok(Effect::Native(f, args)) => match f {
                NativeFunction::stdout => {
                    out.push_str(&text_of(&args[0]));
                    vm.push_result(Type::Nil);
                }
                NativeFunction::stdin => vm.push_result(Type::String(String::new())),
                NativeFunction::flushout => vm.push_result(Type::Nil),
                NativeFunction::time => vm.push_result(number(0.0)),
            },
            Ok(Effect::Print(v)) => {
                out.push_str(&text_of(&v));
                out.push('\n');
            }
        }
    }
}

fn run_ast(ast: Vec<Expr>) -> (String, Result<VM, RuntimeError>) {
    let (program, _) = Instr::compile(ast).unwrap();
    execute(program)
}

// End-to-end programs.

#[test]
fn declared_number_is_printed_without_newline() {
    let (out, r) = run_ast(vec![let_("x", num(2.0)), stdout(var("x"))]);
    assert!(r.is_ok());
    assert_eq!(out, "2");
}

fn fact_program() -> Vec<Expr> {
    let body = vec![Expr::If {
        condition: bx(op(Op::Eq, var("n"), num(0.0))),
        then: vec![Expr::Return(bx(num(1.0)))],
        otherwise: vec![Expr::Return(bx(op(
            Op::Mul,
            var("n"),
            call("fact", vec![op(Op::Sub, var("n"), num(1.0))]),
        )))],
    }];
    vec![
        Expr::Function { name: "fact".to_string(), args: vec!["n".to_string()], body },
        stdout(call("fact", vec![num(5.0)])),
    ]
}

#[test]
fn recursive_factorial() {
    let (out, r) = run_ast(fact_program());
    assert!(r.is_ok());
    assert_eq!(out, "120");
}

#[test]
fn short_circuit_or_takes_then_branch() {
    let ast = vec![
        let_("a", Expr::Bool(true)),
        let_("b", Expr::Bool(false)),
        Expr::If {
            condition: bx(op(Op::Or, var("a"), var("b"))),
            then: vec![stdout(st("yes"))],
            otherwise: vec![stdout(st("no"))],
        },
    ];
    let (out, r) = run_ast(ast);
    assert!(r.is_ok());
    assert_eq!(out, "yes");
}

#[test]
fn short_circuit_and_takes_else_branch() {
    let ast = vec![
        let_("a", Expr::Bool(true)),
        let_("b", Expr::Bool(false)),
        Expr::If {
            condition: bx(op(Op::And, var("a"), var("b"))),
            then: vec![stdout(st("yes"))],
            otherwise: vec![stdout(st("no"))],
        },
    ];
    let (out, _) = run_ast(ast);
    assert_eq!(out, "no");
}

#[test]
fn format_string_joins_parts() {
    let ast = vec![
        let_("s", Expr::FormatString(vec![st("x="), op(Op::Add, num(1.0), num(2.0))])),
        stdout(var("s")),
    ];
    let (out, r) = run_ast(ast);
    assert!(r.is_ok());
    assert_eq!(out, "x=3");
}

#[test]
fn function_updates_global() {
    let ast = vec![
        let_("c", num(0.0)),
        Expr::Function {
            name: "inc".to_string(),
            args: vec![],
            body: vec![Expr::Assignment(bx(var("c")), bx(op(Op::Add, var("c"), num(1.0))))],
        },
        call("inc", vec![]),
        call("inc", vec![]),
        stdout(var("c")),
    ];
    let (program, _) = Instr::compile(ast).unwrap();
    assert!(program.contains(&Instr::LoadGlobal(1)));
    assert!(program.contains(&Instr::StoreGlobal(1)));
    let (out, r) = execute(program);
    assert!(r.is_ok());
    assert_eq!(out, "2");
}

#[test]
fn string_index_reads_one_character() {
    let ast = vec![
        let_("s", st("hello")),
        stdout(Expr::Index { item: bx(var("s")), index: bx(num(1.0)) }),
    ];
    let (out, r) = run_ast(ast);
    assert!(r.is_ok());
    assert_eq!(out, "e");
}

#[test]
fn string_index_out_of_bounds_aborts() {
    let ast = vec![
        let_("s", st("hello")),
        stdout(Expr::Index { item: bx(var("s")), index: bx(num(99.0)) }),
    ];
    let (out, r) = run_ast(ast);
    assert_eq!(out, "");
    assert_eq!(r.err(), Some(RuntimeError::IndexOutOfBounds { index: 99, len: 5 }));
}

#[test]
fn print_function_of_the_prelude_adds_newline() {
    let (out, r) = run_ast(vec![call("print", vec![st("hi")]), call("print", vec![num(1.5)])]);
    assert!(r.is_ok());
    assert_eq!(out, "hi\n1.5\n");
}

#[test]
fn function_with_two_parameters() {
    let ast = vec![
        Expr::Function {
            name: "sub".to_string(),
            args: vec!["a".to_string(), "b".to_string()],
            body: vec![Expr::Return(bx(op(Op::Sub, var("a"), var("b"))))],
        },
        stdout(call("sub", vec![num(10.0), num(4.0)])),
    ];
    let (out, _) = run_ast(ast);
    assert_eq!(out, "6");
}

// Laws, on concrete values.

#[test]
fn frames_are_back_to_the_bottom_one_after_a_run() {
    let (_, r) = run_ast(fact_program());
    let vm = r.unwrap();
    assert_eq!(vm.fp, 0);
    assert_eq!(vm.call_stack.len(), 1);
    assert_eq!(vm.local_addrs.len(), 0);
}

#[test]
fn call_leaves_one_more_cell() {
    // Without the statement's `Pop`: the prelude, then `print` called on "x".
    let (mut program, start) = Instr::compile(vec![]).unwrap();
    assert_eq!(start, 6);
    program.push(lit(Type::String("x".to_string())));
    program.push(Instr::LoadGlobal(0));
    program.push(Instr::Call);
    let (_, r) = execute(program);
    let vm = r.unwrap();
    assert_eq!(vm.stack.len(), 1);
    assert_eq!(vm.peek_stack(), Some(&Type::Nil));
}

#[test]
fn peephole_twice_is_peephole_once() {
    let p = vec![
        lit(Type::Nil),
        Instr::Pop,
        Instr::Pop,
        Instr::LoadLocal(3),
        Instr::Pop,
        lit(Type::Bool(true)),
        Instr::Add,
        Instr::Pop,
    ];
    let once = peephole(&p);
    assert_eq!(
        once,
        vec![
            Instr::Noop,
            Instr::Noop,
            Instr::Pop,
            Instr::Noop,
            Instr::Noop,
            lit(Type::Bool(true)),
            Instr::Add,
            Instr::Pop,
        ]
    );
    assert_eq!(peephole(&once), once);
    let (compiled, _) = Instr::compile(fact_program()).unwrap();
    assert_eq!(peephole(&compiled), compiled);
}

fn step_once(program: Vec<Instr>) -> VM {
    let mut vm = VM::new();
    vm.program = program;
    let last = vm.program.len() - 1;
    while vm.pc < last {
        assert_eq!(vm.step(), Ok(Effect::Continue));
    }
    assert_eq!(vm.step(), Ok(Effect::Continue));
    vm
}

#[test]
fn jump_if_and_jump_if_not_are_exclusive() {
    for v in [Type::Bool(true), Type::Bool(false), Type::Nil, number(1.0)] {
        let a = step_once(vec![lit(v.clone()), Instr::JumpIf(7)]);
        let b = step_once(vec![lit(v.clone()), Instr::JumpIfNot(7)]);
        assert!(!(a.pc == 7 && b.pc == 7));
    }
    assert_eq!(step_once(vec![lit(Type::Bool(true)), Instr::JumpIf(7)]).pc, 7);
    assert_eq!(step_once(vec![lit(Type::Bool(false)), Instr::JumpIfNot(7)]).pc, 7);
    assert_eq!(step_once(vec![lit(Type::Nil), Instr::JumpIfNot(7)]).pc, 2);
}

fn targets(p: &[Instr]) -> Vec<usize> {
    p.iter()
        .filter_map(|i| match i {
            Instr::Jump(t) | Instr::JumpIf(t) | Instr::JumpIfNot(t) => Some(*t),
            Instr::Push(StackValue::Literal(Type::FuncPtr(t))) => Some(*t),
            _ => None,
        })
        .collect()
}

#[test]
fn jump_targets_stay_within_the_program() {
    let (p, _) = Instr::compile(fact_program()).unwrap();
    assert!(!targets(&p).is_empty());
    assert!(targets(&p).iter().all(|t| *t < p.len()));
    // An `if` that ends the program jumps to its very end.
    let ast = vec![Expr::If {
        condition: bx(var("print")),
        then: vec![],
        otherwise: vec![Expr::Nil],
    }];
    let (p, _) = Instr::compile(ast).unwrap();
    assert!(targets(&p).iter().all(|t| *t <= p.len()));
    assert!(targets(&p).contains(&p.len()));
}

#[test]
fn negation_twice_is_identity() {
    for x in [0.0, -0.0, 1.5, -2.25, f64::INFINITY, f64::MAX] {
        let vm = step_once(vec![lit(number(x)), Instr::Neg]);
        assert_eq!(vm.peek_stack(), Some(&number(-x)));
        let vm = step_once(vec![lit(number(x)), Instr::Neg, Instr::Neg]);
        assert_eq!(vm.peek_stack(), Some(&number(x)));
    }
}

#[test]
fn not_twice_is_identity() {
    for b in [true, false] {
        let vm = step_once(vec![lit(Type::Bool(b)), Instr::Not]);
        assert_eq!(vm.peek_stack(), Some(&Type::Bool(!b)));
        let vm = step_once(vec![lit(Type::Bool(b)), Instr::Not, Instr::Not]);
        assert_eq!(vm.peek_stack(), Some(&Type::Bool(b)));
    }
}

#[test]
fn string_addition_is_associative() {
    let s = |x: &str| lit(Type::String(x.to_string()));
    let left = step_once(vec![s("a"), s("b"), Instr::Add, s("c"), Instr::Add]);
    let right = step_once(vec![s("a"), s("b"), s("c"), Instr::Add, Instr::Add]);
    assert_eq!(left.peek_stack(), Some(&Type::String("abc".to_string())));
    assert_eq!(right.peek_stack(), Some(&Type::String("abc".to_string())));
    let (out, _) = run_ast(vec![stdout(op(Op::Add, op(Op::Add, st("a"), st("b")), st("c")))]);
    assert_eq!(out, "abc");
}

#[test]
fn single_part_format_string_is_its_part() {
    let plain = Instr::compile(vec![let_("x", st("hi")), stdout(var("x"))]).unwrap();
    let formatted = Instr::compile(vec![
        let_("x", st("hi")),
        stdout(Expr::FormatString(vec![var("x")])),
    ])
    .unwrap();
    assert_eq!(plain, formatted);
    let (out, _) = execute(formatted.0);
    assert_eq!(out, "hi");
}

// Values and operations.

#[test]
fn display_rules() {
    assert_eq!(display_text(&Type::Bool(true)), Some("true".to_string()));
    assert_eq!(display_text(&Type::Bool(false)), Some("false".to_string()));
    assert_eq!(display_text(&Type::Nil), Some("none".to_string()));
    assert_eq!(display_text(&Type::Null), Some("null".to_string()));
    assert_eq!(display_text(&Type::FuncPtr(12)), Some("<function at=12>".to_string()));
    assert_eq!(display_text(&Type::Addr(305)), Some("<addr=305>".to_string()));
    assert_eq!(display_text(&Type::Error("bad".to_string())), Some("Error(bad)".to_string()));
    assert_eq!(display_text(&number(1.0)), None);
}

#[test]
fn concatenation_with_a_number_goes_to_the_host() {
    let mut vm = VM::new();
    vm.program = vec![lit(Type::String("n=".to_string())), lit(number(4.0)), Instr::Join];
    assert_eq!(vm.run(10), Ok(Effect::Concat(vec![Type::String("n=".to_string()), number(4.0)])));
}

#[test]
fn concatenation_without_numbers_is_done_here() {
    let vm = step_once(vec![lit(Type::Bool(true)), lit(Type::String("!".to_string())), Instr::Add]);
    assert_eq!(vm.peek_stack(), Some(&Type::String("true!".to_string())));
    let vm = step_once(vec![
        lit(Type::Nil),
        lit(Type::String("b".to_string())),
        lit(Type::String("a".to_string())),
        Instr::JoinMany(3),
    ]);
    assert_eq!(vm.peek_stack(), Some(&Type::String("abnone".to_string())));
}

#[test]
fn join_many_edge_cases() {
    let vm = step_once(vec![Instr::JoinMany(0)]);
    assert_eq!(vm.peek_stack(), Some(&Type::Nil));
    let vm = step_once(vec![lit(number(3.0)), Instr::JoinMany(1)]);
    assert_eq!(vm.peek_stack(), Some(&number(3.0)));
}

#[test]
fn numeric_work_goes_to_the_host() {
    let mut vm = VM::new();
    vm.program = vec![lit(number(7.0)), lit(number(2.0)), Instr::Mod];
    assert_eq!(vm.run(10), Ok(Effect::Numeric(NumOp::Mod, 7.0f64.to_bits(), 2.0f64.to_bits())));
    assert_eq!(vm.stack.len(), 0);
}

#[test]
fn equality_across_kinds() {
    let vm = step_once(vec![lit(Type::String("a".to_string())), lit(Type::Nil), Instr::Eq]);
    assert_eq!(vm.peek_stack(), Some(&Type::Bool(false)));
    let vm = step_once(vec![lit(Type::String("a".to_string())), lit(Type::Nil), Instr::Neq]);
    assert_eq!(vm.peek_stack(), Some(&Type::Bool(true)));
    let vm = step_once(vec![
        lit(Type::String("a".to_string())),
        lit(Type::String("a".to_string())),
        Instr::Eq,
    ]);
    assert_eq!(vm.peek_stack(), Some(&Type::Bool(true)));
}

#[test]
fn logical_operators_on_booleans() {
    let vm = step_once(vec![lit(Type::Bool(true)), lit(Type::Bool(false)), Instr::And]);
    assert_eq!(vm.peek_stack(), Some(&Type::Bool(false)));
    let vm = step_once(vec![lit(Type::Bool(true)), lit(Type::Bool(false)), Instr::Or]);
    assert_eq!(vm.peek_stack(), Some(&Type::Bool(true)));
}

// Run-time errors.

fn failure(program: Vec<Instr>) -> RuntimeError {
    execute(program).1.err().unwrap()
}

#[test]
fn runtime_errors() {
    assert_eq!(failure(vec![Instr::Pop]), RuntimeError::StackUnderflow);
    assert_eq!(failure(vec![Instr::LoadAddr(5), Instr::Print]), RuntimeError::InvalidAddress(5));
    assert_eq!(
        failure(vec![lit(Type::Bool(true)), lit(number(1.0)), Instr::Sub]),
        RuntimeError::TypeMismatch(2)
    );
    assert_eq!(
        failure(vec![lit(number(1.0)), lit(number(1.0)), Instr::Lt, Instr::Neg]),
        RuntimeError::TypeMismatch(3)
    );
    assert_eq!(
        failure(vec![lit(number(1.0)), Instr::Call]),
        RuntimeError::CallToNonFunction(number(1.0))
    );
    assert_eq!(failure(vec![lit(Type::Nil), Instr::Return]), RuntimeError::ReturnOutsideFunction);
}

// Compile-time errors.

#[test]
fn compile_errors() {
    assert_eq!(
        Instr::compile(vec![stdout(var("nope"))]),
        Err(CompileError::UndefinedName("nope".to_string()))
    );
    assert_eq!(
        Instr::compile(vec![Expr::Assignment(bx(num(1.0)), bx(num(2.0)))]),
        Err(CompileError::InvalidAssignmentTarget)
    );
    assert_eq!(
        Instr::compile(vec![Expr::NativeCall("shout".to_string(), vec![])]),
        Err(CompileError::UnknownNative("shout".to_string()))
    );
    assert_eq!(
        Instr::compile(vec![Expr::Lambda(vec![], vec![])]),
        Err(CompileError::Unsupported)
    );
}

#[test]
fn too_deep_nesting_is_refused() {
    let mut ins = Vec::new();
    let mut state = State::default();
    let mut next = 0;
    let f = Expr::Function { name: "f".to_string(), args: vec![], body: vec![] };
    assert_eq!(
        Instr::build(&mut ins, f, &mut state, usize::MAX, &mut next),
        Err(CompileError::TooManyBindings)
    );
}

// Lowering details.

#[test]
fn expression_statement_value_is_dropped() {
    let (p, start) = Instr::compile(vec![num(1.0), call("print", vec![num(2.0)])]).unwrap();
    // `1` and its `Pop` are blanked; the call's result is popped.
    assert_eq!(p[start], Instr::Noop);
    assert_eq!(p[start + 1], Instr::Noop);
    assert_eq!(p[p.len() - 1], Instr::Pop);
    assert_eq!(p[p.len() - 2], Instr::Call);
}

#[test]
fn constant_conditions_keep_only_the_live_block() {
    let ast = vec![Expr::If {
        condition: bx(Expr::Bool(false)),
        then: vec![stdout(st("a"))],
        otherwise: vec![stdout(st("b"))],
    }];
    let (p, _) = Instr::compile(ast).unwrap();
    assert!(p.contains(&lit(Type::String("b".to_string()))));
    assert!(!p.contains(&lit(Type::String("a".to_string()))));
}

#[test]
fn empty_format_string_is_empty_text() {
    let (out, _) = run_ast(vec![stdout(Expr::FormatString(vec![]))]);
    assert_eq!(out, "");
    let (p, start) = Instr::compile(vec![let_("e", Expr::FormatString(vec![]))]).unwrap();
    assert_eq!(p[start], lit(Type::String(String::new())));
}

#[test]
fn native_names() {
    assert_eq!(NativeFunction::from("stdout"), Some(NativeFunction::stdout));
    assert_eq!(NativeFunction::from("time"), Some(NativeFunction::time));
    assert_eq!(NativeFunction::from("stdou"), None);
    assert_eq!(NativeFunction::flushout.name(), "flushout");
    assert_eq!(NativeFunction::stdout.arity(), 1);
    assert_eq!(NativeFunction::stdin.arity(), 0);
}

// Heap, stack, scope, escapes.

#[test]
fn heap_set_pads_with_null_and_cleanup_trims() {
    let mut m = Memory::new();
    m.set(3, number(1.0));
    assert_eq!(m.0, vec![Type::Null, Type::Null, Type::Null, number(1.0)]);
    assert_eq!(m.add(Type::Nil), 4);
    m.free(4);
    m.free(3);
    m.free(99);
    m.cleanup();
    assert_eq!(m.0.len(), 0);
    m.set(0, Type::Bool(true));
    m.set(1, Type::Null);
    m.cleanup();
    assert_eq!(m.0, vec![Type::Bool(true)]);
    assert_eq!(m.get(0), &Type::Bool(true));
}

#[test]
fn locals_are_freed_on_return() {
    let ast = vec![
        Expr::Function {
            name: "f".to_string(),
            args: vec!["a".to_string()],
            body: vec![let_("b", num(2.0)), Expr::Return(bx(var("b")))],
        },
        stdout(call("f", vec![num(1.0)])),
    ];
    let (out, r) = run_ast(ast);
    assert_eq!(out, "2");
    let vm = r.unwrap();
    // Only the two globals remain: `print` and `f`.
    assert_eq!(vm.heap.0.len(), 2);
}

#[test]
fn stack_operations() {
    let mut s = Stack::new_with(StackValue::Addr(1));
    s.push(StackValue::Literal(Type::Nil));
    assert_eq!(s.peek(), Some(&StackValue::Literal(Type::Nil)));
    *s.peek_mut() = StackValue::Addr(9);
    assert_eq!(s.pop(), Some(StackValue::Addr(9)));
    assert_eq!(s.pop(), Some(StackValue::Addr(1)));
    assert_eq!(s.pop(), None);
    assert_eq!(Stack::new().len(), 0);
}

#[test]
fn scope_table() {
    let mut s = Scope::new();
    assert_eq!(s.get(3), None);
    s.set(3, 40);
    s.set(3, 41);
    assert_eq!(s.get(3), Some(41));
}

#[test]
fn escapes_are_resolved() {
    let chars: Vec<char> = "a\\nb\\tc\\\\d\\qe\\".chars().collect();
    assert_eq!(fix_str(chars), "a\nb\tc\\dqe");
    assert_eq!(fix_str("\\r".chars().collect()), "\r");
    assert_eq!(fix_str(vec![]), "");
}

#[test]
fn instructions_that_push() {
    assert!(lit(Type::Nil).pushes_to_stack());
    assert!(Instr::Call.pushes_to_stack());
    assert!(Instr::LoadLocal(0).pushes_to_stack());
    assert!(!Instr::StoreGlobal(0).pushes_to_stack());
    assert!(!Instr::Return.pushes_to_stack());
    assert!(!Instr::Print.pushes_to_stack());
}
