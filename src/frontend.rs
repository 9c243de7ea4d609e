use vstd::prelude::*;

use crate::backend::text::push_char;

verus! {

/// A node of the syntax tree. A number literal is held as the bit pattern of
/// an IEEE-754 double.
#[derive(Debug, PartialEq)]
pub enum Expr {
    Number(u64),
    String(String),
    FormatString(Vec<Expr>),
    Bool(bool),
    /// The literal `none`.
    Nil,
    Identifier(String),
    Declaration(String, Box<Expr>),
    Assignment(Box<Expr>, Box<Expr>),
    Index { item: Box<Expr>, index: Box<Expr> },
    Slice { item: Box<Expr>, start: Box<Expr>, end: Box<Expr> },
    Function { name: String, args: Vec<String>, body: Vec<Expr> },
    Lambda(Vec<String>, Vec<Expr>),
    Call(Box<Expr>, Vec<Expr>),
    NativeCall(String, Vec<Expr>),
    Join(Box<Expr>, Box<Expr>),
    /// A binary operation; for `Not` and `Neg` the second operand is a placeholder.
    Op(Op, Box<Expr>, Box<Expr>),
    If { condition: Box<Expr>, then: Vec<Expr>, otherwise: Vec<Expr> },
    Return(Box<Expr>),
}

impl Clone for Expr {
    fn clone(&self) -> (r: Expr)
        decreases self,
    {
        match self {
            Expr::Number(n) => Expr::Number(*n),
            Expr::String(s) => Expr::String(s.clone()),
            Expr::FormatString(parts) => Expr::FormatString(clone_all(parts)),
            Expr::Bool(b) => Expr::Bool(*b),
            Expr::Nil => Expr::Nil,
            Expr::Identifier(s) => Expr::Identifier(s.clone()),
            Expr::Declaration(n, v) => Expr::Declaration(n.clone(), Box::new((**v).clone())),
            Expr::Assignment(t, v) => Expr::Assignment(
                Box::new((**t).clone()),
                Box::new((**v).clone()),
            ),
            Expr::Index { item, index } => Expr::Index {
                item: Box::new((**item).clone()),
                index: Box::new((**index).clone()),
            },
            Expr::Slice { item, start, end } => Expr::Slice {
                item: Box::new((**item).clone()),
                start: Box::new((**start).clone()),
                end: Box::new((**end).clone()),
            },
            Expr::Function { name, args, body } => Expr::Function {
                name: name.clone(),
                args: args.clone(),
                body: clone_all(body),
            },
            Expr::Lambda(args, body) => Expr::Lambda(args.clone(), clone_all(body)),
            Expr::Call(c, args) => Expr::Call(Box::new((**c).clone()), clone_all(args)),
            Expr::NativeCall(n, args) => Expr::NativeCall(n.clone(), clone_all(args)),
            Expr::Join(l, r) => Expr::Join(Box::new((**l).clone()), Box::new((**r).clone())),
            Expr::Op(op, l, r) => Expr::Op(*op, Box::new((**l).clone()), Box::new((**r).clone())),
            Expr::If { condition, then, otherwise } => Expr::If {
                condition: Box::new((**condition).clone()),
                then: clone_all(then),
                otherwise: clone_all(otherwise),
            },
            Expr::Return(v) => Expr::Return(Box::new((**v).clone())),
        }
    }
}

/// A copy of each tree in `v`.
#[verifier::loop_isolation(false)]
fn clone_all(v: &Vec<Expr>) -> (r: Vec<Expr>)
    ensures
        r@.len() == v@.len(),
    decreases v,
{
    let mut out: Vec<Expr> = Vec::new();
    let mut i: usize = 0;
    while i < v.len()
        invariant
            0 <= i <= v@.len(),
            out@.len() == i,
        decreases v@.len() - i,
    {
        proof {
            assert(decreases_to!(v => v@));
            assert(decreases_to!(v@ => v@[i as int]));
        }
        out.push(v[i].clone());
        i = i + 1;
    }
    out
}

#[derive(Clone, Copy, Debug, PartialEq, Eq)]
pub enum Op {
    Add,
    Sub,
    Mul,
    Div,
    Mod,
    Pow,
    Eq,
    Neq,
    Lt,
    Gt,
    Lte,
    Gte,
    And,
    Or,
    Not,
    Neg,
}

#[allow(non_camel_case_types)]
pub type Node = Expr;

#[allow(non_camel_case_types)]
pub type AST = Vec<Node>;

/// The character that the escape `\c` stands for.
pub open spec fn escaped(c: char) -> char {
    if c == 'n' {
        '\n'
    } else if c == 'r' {
        '\r'
    } else if c == 't' {
        '\t'
    } else {
        c
    }
}

/// Reads `s` left to right: the text produced so far, and whether a backslash
/// is waiting for the character it escapes.
pub open spec fn unescape_scan(s: Seq<char>) -> (Seq<char>, bool)
    decreases s.len(),
{
    if s.len() == 0 {
        (Seq::empty(), false)
    } else {
        let (out, pending) = unescape_scan(s.drop_last());
        let c = s.last();
        if pending {
            (out.push(escaped(c)), false)
        } else if c == '\\' {
            (out, true)
        } else {
            (out.push(c), false)
        }
    }
}

/// The text of a string literal's body with its escapes resolved; a lone
/// trailing backslash is dropped.
pub open spec fn unescape(s: Seq<char>) -> Seq<char> {
    unescape_scan(s).0
}

/// Resolves the escapes `\n`, `\r`, `\t` and `\\` in the body of a string
/// literal; a backslash before any other character leaves that character.
pub fn fix_str(s: Vec<char>) -> (r: String)
    ensures
        r@ == unescape(s@),
{
    let mut f = String::new();
    let mut rep = false;
    let mut i: usize = 0;
    while i < s.len()
        invariant
            0 <= i <= s@.len(),
            (f@, rep) == unescape_scan(s@.take(i as int)),
        decreases s@.len() - i,
    {
        let c = s[i];
        assert(s@.take(i + 1).drop_last() =~= s@.take(i as int));
        if rep {
            let e = if c == 'n' {
                '\n'
            } else if c == 'r' {
                '\r'
            } else if c == 't' {
                '\t'
            } else {
                c
            };
            push_char(&mut f, e);
            rep = false;
        } else if c == '\\' {
            rep = true;
        } else {
            push_char(&mut f, c);
        }
        i = i + 1;
    }
    assert(s@.take(s@.len() as int) =~= s@);
    f
}

} // verus!
