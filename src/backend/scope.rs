use vstd::prelude::*;

use fxhash::FxHashMap;

verus! {

#[allow(non_camel_case_types)]
pub type id = usize;

#[allow(non_camel_case_types)]
pub type addr = usize;

/// The slots a scope table holds, by identifier number.
pub uninterp spec fn slots(m: FxHashMap<id, addr>) -> Map<id, addr>;

/// Relies on `FxHashMap::default` (std's `HashMap::default`): an empty map.
#[verifier::external_body]
fn empty_slots() -> (r: FxHashMap<id, addr>)
    ensures
        slots(r).dom() == Set::<id>::empty(),
{
    FxHashMap::default()
}

/// Relies on `HashMap::get`: the address held for `key`, if any.
#[verifier::external_body]
fn slot_of(m: &FxHashMap<id, addr>, key: id) -> (r: Option<addr>)
    ensures
        slots(*m).contains_key(key) ==> r == Some(slots(*m)[key]),
        !slots(*m).contains_key(key) ==> r is None,
{
    m.get(&key).cloned()
}

/// Relies on `HashMap::insert`: holds `value` for `key`, replacing an earlier one.
#[verifier::external_body]
fn put_slot(m: &mut FxHashMap<id, addr>, key: id, value: addr)
    ensures
        slots(*final(m)) == slots(*old(m)).insert(key, value),
{
    m.insert(key, value);
}

/// A table from identifier numbers to heap addresses.
pub struct Scope(pub FxHashMap<id, addr>);

impl View for Scope {
    type V = Map<id, addr>;

    open spec fn view(&self) -> Map<id, addr> {
        slots(self.0)
    }
}

impl Scope {
    pub fn new() -> (s: Scope)
        ensures
            s@ == Map::<id, addr>::empty(),
    {
        let s = Scope(empty_slots());
        assert(s@ =~= Map::<id, addr>::empty());
        s
    }

    #[inline]
    pub fn get(&self, id: id) -> (r: Option<addr>)
        ensures
            self@.contains_key(id) ==> r == Some(self@[id]),
            !self@.contains_key(id) ==> r is None,
    {
        slot_of(&self.0, id)
    }

    #[inline]
    pub fn set(&mut self, id: id, addr: addr)
        ensures
            final(self)@ == old(self)@.insert(id, addr),
    {
        put_slot(&mut self.0, id, addr);
    }
}

} // verus!
