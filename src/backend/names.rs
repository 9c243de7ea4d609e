use vstd::prelude::*;

use fxhash::FxHashMap;

verus! {

/// fxhash's hasher, which `FxHashMap` names in its type; held opaque.
#[verifier::external_type_specification]
#[verifier::external_body]
pub struct ExFxHasher(fxhash::FxHasher);

/// std's builder of default-constructed hashers, which `FxHashMap` names in its type; held opaque.
#[verifier::external_type_specification]
#[verifier::external_body]
#[verifier::reject_recursive_types(H)]
pub struct ExBuildHasherDefault<H>(std::hash::BuildHasherDefault<H>);

/// Identifier -> `(offset, depth)` for the bindings in scope while compiling.
pub type State = FxHashMap<String, (usize, usize)>;

/// The bindings a name table holds, keyed by identifier text.
pub uninterp spec fn bindings(t: State) -> Map<Seq<char>, Binding>;

/// `(offset, depth)` of one binding.
pub type Binding = (usize, usize);

/// Relies on `FxHashMap::default` (std's `HashMap::default`): an empty map.
#[verifier::external_body]
pub(crate) fn empty_state() -> (r: State)
    ensures
        bindings(r).dom() == Set::<Seq<char>>::empty(),
{
    FxHashMap::default()
}

/// Relies on `HashMap::get`: the binding of `name`, if any.
#[verifier::external_body]
pub(crate) fn lookup(t: &State, name: &str) -> (r: Option<(usize, usize)>)
    ensures
        bindings(*t).contains_key(name@) ==> r == Some(bindings(*t)[name@]),
        !bindings(*t).contains_key(name@) ==> r is None,
{
    t.get(name).copied()
}

/// Relies on `HashMap::insert`: binds `name`, replacing an earlier binding.
#[verifier::external_body]
pub(crate) fn bind(t: &mut State, name: String, v: (usize, usize))
    ensures
        bindings(*final(t)) == bindings(*old(t)).insert(name@, v),
{
    t.insert(name, v);
}

/// Relies on `HashMap::clone`: a map with the same bindings.
#[verifier::external_body]
pub(crate) fn fork(t: &State) -> (r: State)
    ensures
        bindings(r) == bindings(*t),
{
    t.clone()
}

} // verus!
