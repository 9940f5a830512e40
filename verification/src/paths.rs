//! A map from repository paths to what is known of them.

use vstd::hash_map::StringHashMap;
use vstd::prelude::*;

verus! {

/// A map keyed by path.
#[verifier::reject_recursive_types(V)]
pub struct PathMap<V> {
    entries: StringHashMap<V>,
}

impl<V> View for PathMap<V> {
    type V = Map<Seq<char>, V>;

    closed spec fn view(&self) -> Map<Seq<char>, V> {
        self.entries@
    }
}

impl<V> PathMap<V> {
    /// A map without entries.
    pub fn new() -> (r: Self)
        ensures
            r@ == Map::<Seq<char>, V>::empty(),
    {
        PathMap { entries: StringHashMap::new() }
    }

    /// Enter `value` for `path`, in place of what was there.
    pub fn insert(&mut self, path: String, value: V)
        ensures
            final(self)@ == old(self)@.insert(path@, value),
    {
        self.entries.insert(path, value);
    }

    /// What is known of `path`.
    pub fn get(&self, path: &str) -> (r: Option<&V>)
        ensures
            match r {
                Some(v) => self@.contains_key(path@) && *v == self@[path@],
                None => !self@.contains_key(path@),
            },
    {
        self.entries.get(path)
    }
}

} // verus!
