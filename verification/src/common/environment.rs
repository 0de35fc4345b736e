//! Nested scopes that bind names.

use vstd::hash_map::StringHashMap;
use vstd::prelude::*;

verus! {

/// A map from names to values.
#[verifier::reject_recursive_types(T)]
pub struct NameMap<T> {
    entries: StringHashMap<T>,
}

impl<T> View for NameMap<T> {
    type V = Map<Seq<char>, T>;

    closed spec fn view(&self) -> Map<Seq<char>, T> {
        self.entries@
    }
}

impl<T> NameMap<T> {
    pub fn new() -> (map: Self)
        ensures
            map@ == Map::<Seq<char>, T>::empty(),
    {
        NameMap { entries: StringHashMap::new() }
    }

    /// Binds `name` to `value`, in place of what it was bound to.
    pub fn insert(&mut self, name: String, value: T)
        ensures
            final(self)@ == old(self)@.insert(name@, value),
    {
        self.entries.insert(name, value);
    }

    /// What `name` is bound to.
    pub fn get(&self, name: &str) -> (found: Option<&T>)
        ensures
            found == (if self@.contains_key(name@) {
                Some(&self@[name@])
            } else {
                None
            }),
    {
        self.entries.get(name)
    }
}

/// A scope and the scopes that enclose it.
#[verifier::reject_recursive_types(T)]
pub struct Environment<T> {
    pub current: NameMap<T>,
    pub enclosing: Option<Box<Environment<T>>>,
}

/// What `name` is bound to in the innermost scope that binds it; the innermost
/// scope comes first.
pub open spec fn lookup<T>(scopes: Seq<Map<Seq<char>, T>>, name: Seq<char>) -> Option<T>
    decreases scopes.len(),
{
    if scopes.len() == 0 {
        None
    } else if scopes.first().contains_key(name) {
        Some(scopes.first()[name])
    } else {
        lookup(scopes.drop_first(), name)
    }
}

/// The scopes once the innermost one binds `name` to `value`.
pub open spec fn declare<T>(
    scopes: Seq<Map<Seq<char>, T>>,
    name: Seq<char>,
    value: T,
) -> Seq<Map<Seq<char>, T>> {
    scopes.update(0, scopes[0].insert(name, value))
}

impl<T> Environment<T> {
    /// The bindings of each scope, the innermost one first.
    pub open spec fn scopes(self) -> Seq<Map<Seq<char>, T>>
        decreases self,
    {
        match self.enclosing {
            Some(outer) => seq![self.current@] + outer.scopes(),
            None => seq![self.current@],
        }
    }

    /// An empty scope inside of `enclosing`.
    pub fn new(enclosing: Option<Box<Environment<T>>>) -> (env: Self)
        ensures
            env.enclosing == enclosing,
            env.current@ == Map::<Seq<char>, T>::empty(),
    {
        Environment { current: NameMap::new(), enclosing }
    }

    /// Binds `name` in the innermost scope.
    pub fn declare_var(&mut self, name: String, value: T)
        ensures
            final(self).scopes() == declare(old(self).scopes(), name@, value),
            final(self).enclosing == old(self).enclosing,
    {
        self.current.insert(name, value);
        assert(self.scopes() =~= declare(old(self).scopes(), name@, value));
    }

    /// What `name` is bound to.
    pub fn get_var(&self, name: &String) -> (found: Option<&T>)
        ensures
            match lookup(self.scopes(), name@) {
                Some(value) => found == Some(&value),
                None => found is None,
            },
        decreases self,
    {
        match self.current.get(name.as_str()) {
            Some(value) => Some(value),
            None => match &self.enclosing {
                Some(outer) => {
                    assert(self.scopes().drop_first() =~= outer.scopes());
                    outer.get_var(name)
                },
                None => {
                    assert(lookup(self.scopes().drop_first(), name@) is None);
                    None
                },
            },
        }
    }
}

} // verus!
