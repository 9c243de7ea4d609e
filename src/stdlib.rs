use vstd::prelude::*;

use crate::backend::text::{chars_of, push_str};

verus! {

/// The fixed set of host primitives reached through `Instr::NativeCall`.
#[allow(non_camel_case_types)]
#[derive(Debug, Clone, Copy, PartialEq, Eq)]
pub enum NativeFunction {
    /// Writes its argument's text, without a newline.
    stdout,
    /// Reads one line.
    stdin,
    /// Flushes standard output.
    flushout,
    /// Milliseconds since the Unix epoch.
    time,
}

pub open spec fn spec_name(f: NativeFunction) -> Seq<char> {
    match f {
        NativeFunction::stdout => "stdout"@,
        NativeFunction::stdin => "stdin"@,
        NativeFunction::flushout => "flushout"@,
        NativeFunction::time => "time"@,
    }
}

/// The primitive whose name is `name`, if there is one.
pub open spec fn native_named(name: Seq<char>) -> Option<NativeFunction> {
    if exists|f: NativeFunction| spec_name(f) == name {
        Some(choose|f: NativeFunction| spec_name(f) == name)
    } else {
        None
    }
}

/// No two primitives share a name.
pub proof fn lemma_names_distinct(f: NativeFunction, g: NativeFunction)
    ensures
        spec_name(f) == spec_name(g) ==> f == g,
{
    reveal_strlit("stdout");
    reveal_strlit("stdin");
    reveal_strlit("flushout");
    reveal_strlit("time");
    assert(spec_name(f).len() == spec_name(g).len() ==> f == g);
}

/// How many arguments the primitive takes off the stack.
pub open spec fn spec_arity(f: NativeFunction) -> nat {
    match f {
        NativeFunction::stdout => 1,
        _ => 0,
    }
}

fn same_chars(a: &Vec<char>, b: &str) -> (r: bool)
    ensures
        r == (a@ == b@),
{
    let bc = chars_of(b);
    if a.len() != bc.len() {
        return false;
    }
    let mut i: usize = 0;
    while i < a.len()
        invariant
            a@.len() == bc@.len(),
            bc@ == b@,
            0 <= i <= a@.len(),
            a@.take(i as int) == bc@.take(i as int),
        decreases a@.len() - i,
    {
        if a[i] != bc[i] {
            assert(a@[i as int] != b@[i as int]);
            return false;
        }
        assert(a@.take(i + 1) =~= a@.take(i as int).push(a@[i as int]));
        assert(bc@.take(i + 1) =~= bc@.take(i as int).push(bc@[i as int]));
        i = i + 1;
    }
    assert(a@ =~= a@.take(a@.len() as int));
    assert(bc@ =~= bc@.take(bc@.len() as int));
    true
}

impl NativeFunction {
    pub fn name(&self) -> (r: String)
        ensures
            r@ == spec_name(*self),
    {
        let mut s = String::new();
        match self {
            NativeFunction::stdout => push_str(&mut s, "stdout"),
            NativeFunction::stdin => push_str(&mut s, "stdin"),
            NativeFunction::flushout => push_str(&mut s, "flushout"),
            NativeFunction::time => push_str(&mut s, "time"),
        }
        assert(s@ =~= spec_name(*self));
        s
    }

    pub fn arity(&self) -> (n: usize)
        ensures
            n == spec_arity(*self),
    {
        match self {
            NativeFunction::stdout => 1,
            _ => 0,
        }
    }

    /// The primitive called `name`, if there is one.
    pub fn from(name: &str) -> (r: Option<NativeFunction>)
        ensures
            r == native_named(name@),
    {
        proof {
            assert forall|f: NativeFunction, g: NativeFunction|
                spec_name(f) == spec_name(g) implies f == g by {
                lemma_names_distinct(f, g);
            }
        }
        let c = chars_of(name);
        let r = if same_chars(&c, "stdout") {
            Some(NativeFunction::stdout)
        } else if same_chars(&c, "stdin") {
            Some(NativeFunction::stdin)
        } else if same_chars(&c, "flushout") {
            Some(NativeFunction::flushout)
        } else if same_chars(&c, "time") {
            Some(NativeFunction::time)
        } else {
            None
        };
        proof {
            if let Some(f) = r {
                assert(spec_name(f) == name@);
                let g = choose|g: NativeFunction| spec_name(g) == name@;
                assert(spec_name(g) == spec_name(f));
            } else {
                assert(forall|f: NativeFunction| spec_name(f) != name@);
            }
        }
        r
    }
}

} // verus!
