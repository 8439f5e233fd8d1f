//! The table of global variables.

use vstd::prelude::*;
use vstd::hash_map::StringHashMap;
use crate::value::{Value, ValueView};

verus! {

/// Global variables by name. A name is bound to at most one value; binding it
/// again replaces the value.
pub struct Globals {
    table: StringHashMap<Value>,
}

impl View for Globals {
    type V = Map<Seq<char>, ValueView>;

    closed spec fn view(&self) -> Map<Seq<char>, ValueView> {
        self.table@.map_values(|v: Value| v@)
    }
}

impl Globals {
    /// A table without any binding.
    pub fn new() -> (globals: Globals)
        ensures
            globals@ == Map::<Seq<char>, ValueView>::empty(),
    {
        let globals = Globals { table: StringHashMap::new() };
        assert(globals@ =~= Map::<Seq<char>, ValueView>::empty());
        globals
    }

    /// The number of names that are bound.
    pub fn len(&self) -> (n: usize)
        ensures
            n == self@.len(),
    {
        broadcast use vstd::hash_map::axiom_string_hash_map_spec_len;

        assert(self@.dom() =~= self.table@.dom());
        self.table.len()
    }

    /// Tells whether `name` is bound.
    pub fn contains(&self, name: &str) -> (found: bool)
        ensures
            found == self@.contains_key(name@),
    {
        self.table.contains_key(name)
    }

    /// The value bound to `name`, or `None` where the name is not bound.
    pub fn get(&self, name: &str) -> (value: Option<&Value>)
        ensures
            self@.contains_key(name@) ==> value.is_some() && value.unwrap()@ == self@[name@],
            !self@.contains_key(name@) ==> value.is_none(),
    {
        self.table.get(name)
    }

    /// Binds `name` to `value`, in place of what it was bound to before.
    pub fn insert(&mut self, name: String, value: Value)
        ensures
            final(self)@ == old(self)@.insert(name@, value@),
    {
        self.table.insert(name, value);
        assert(self@ =~= old(self)@.insert(name@, value@));
    }
}

} // verus!
