use vstd::prelude::*;

use super::instruction::Type;

verus! {

/// Relies on `String::push`: appends one character.
#[verifier::external_body]
pub(crate) fn push_char(s: &mut String, c: char)
    ensures
        final(s)@ == old(s)@.push(c),
{
    s.push(c);
}

/// Relies on `String::push_str`: appends the characters of `t`.
#[verifier::external_body]
pub(crate) fn push_str(s: &mut String, t: &str)
    ensures
        final(s)@ == old(s)@ + t@,
{
    s.push_str(t);
}

/// Relies on `str::chars`: the Unicode scalar values of `s`, in order.
#[verifier::external_body]
pub(crate) fn chars_of(s: &str) -> (r: Vec<char>)
    ensures
        r@ == s@,
{
    s.chars().collect()
}

} // verus!

verus! {

pub open spec fn digit(d: nat) -> char {
    if d == 0 {
        '0'
    } else if d == 1 {
        '1'
    } else if d == 2 {
        '2'
    } else if d == 3 {
        '3'
    } else if d == 4 {
        '4'
    } else if d == 5 {
        '5'
    } else if d == 6 {
        '6'
    } else if d == 7 {
        '7'
    } else if d == 8 {
        '8'
    } else {
        '9'
    }
}

/// The decimal digits of `n`, most significant first.
pub open spec fn decimal(n: nat) -> Seq<char>
    decreases n,
{
    if n < 10 {
        seq![digit(n)]
    } else {
        decimal(n / 10).push(digit(n % 10))
    }
}

/// The display text of a value, or `None` for a number, whose text is the
/// shortest decimal that reads back as the same double and is the host's to write.
pub open spec fn display(v: Type) -> Option<Seq<char>> {
    match v {
        Type::Number(_) => None,
        Type::String(s) => Some(s@),
        Type::Bool(b) => Some(if b { "true"@ } else { "false"@ }),
        Type::Nil => Some("none"@),
        Type::Null => Some("null"@),
        Type::Addr(a) => Some("<addr="@ + decimal(a as nat) + ">"@),
        Type::FuncPtr(p) => Some("<function at="@ + decimal(p as nat) + ">"@),
        Type::Error(m) => Some("Error("@ + m@ + ")"@),
    }
}

fn push_decimal(s: &mut String, n: usize)
    ensures
        final(s)@ == old(s)@ + decimal(n as nat),
    decreases n,
{
    if n >= 10 {
        push_decimal(s, n / 10);
    }
    let d = n % 10;
    let c = if d == 0 {
        '0'
    } else if d == 1 {
        '1'
    } else if d == 2 {
        '2'
    } else if d == 3 {
        '3'
    } else if d == 4 {
        '4'
    } else if d == 5 {
        '5'
    } else if d == 6 {
        '6'
    } else if d == 7 {
        '7'
    } else if d == 8 {
        '8'
    } else {
        '9'
    };
    push_char(s, c);
    assert(final(s)@ =~= old(s)@ + decimal(n as nat));
}

/// Appends the display text of `v` to `out`; a number is left to the host,
/// and `out` is then unchanged.
pub fn push_display(out: &mut String, v: &Type) -> (shown: bool)
    ensures
        shown == (display(*v) is Some),
        shown ==> final(out)@ == old(out)@ + display(*v)->0,
        !shown ==> final(out)@ == old(out)@,
{
    match v {
        Type::Number(_) => {
            return false;
        },
        Type::String(s) => push_str(out, s.as_str()),
        Type::Bool(b) => {
            if *b {
                push_str(out, "true");
            } else {
                push_str(out, "false");
            }
        },
        Type::Nil => push_str(out, "none"),
        Type::Null => push_str(out, "null"),
        Type::Addr(a) => {
            push_str(out, "<addr=");
            push_decimal(out, *a);
            push_str(out, ">");
        },
        Type::FuncPtr(p) => {
            push_str(out, "<function at=");
            push_decimal(out, *p);
            push_str(out, ">");
        },
        Type::Error(m) => {
            push_str(out, "Error(");
            push_str(out, m.as_str());
            push_str(out, ")");
        },
    }
    assert(final(out)@ =~= old(out)@ + display(*v)->0);
    true
}

/// The display text of `v`; `None` for a number (see [`display`]).
pub fn display_text(v: &Type) -> (r: Option<String>)
    ensures
        r is None <==> display(*v) is None,
        r matches Some(s) ==> display(*v) == Some(s@),
{
    let mut s = String::new();
    if push_display(&mut s, v) {
        assert(s@ =~= display(*v)->0);
        Some(s)
    } else {
        None
    }
}

} // verus!
