//! Hash collections keyed by an index, as the mappings and caches use them.
//!
//! Both collections are `hashbrown` tables. Nothing in this file is proved:
//! each function states what the `hashbrown` method it calls is documented
//! to do, over the contents named by [`index_map_contents`] and
//! [`index_set_contents`].

use vstd::prelude::*;

verus! {

/// A `hashbrown::HashMap` from an index to a list of indices.
#[verifier::external_body]
#[derive(Debug)]
pub struct IndexMap {
    inner: hashbrown::HashMap<usize, Vec<usize>>,
}

/// A `hashbrown::HashSet` of indices.
#[verifier::external_body]
#[derive(Debug)]
pub struct IndexSet {
    inner: hashbrown::HashSet<usize>,
}

/// What an [`IndexMap`] holds: for each key present, its list.
pub uninterp spec fn index_map_contents(m: IndexMap) -> Map<usize, Seq<usize>>;

/// What an [`IndexSet`] holds.
pub uninterp spec fn index_set_contents(s: IndexSet) -> Set<usize>;

/// The list stored under `key`, or the empty list when the key is absent.
pub open spec fn list_at(m: Map<usize, Seq<usize>>, key: usize) -> Seq<usize> {
    if m.contains_key(key) {
        m[key]
    } else {
        Seq::empty()
    }
}

impl View for IndexMap {
    type V = Map<usize, Seq<usize>>;

    open spec fn view(&self) -> Map<usize, Seq<usize>> {
        index_map_contents(*self)
    }
}

impl View for IndexSet {
    type V = Set<usize>;

    open spec fn view(&self) -> Set<usize> {
        index_set_contents(*self)
    }
}

impl IndexMap {
    /// `hashbrown::HashMap::new`: a map that holds nothing.
    #[verifier::external_body]
    pub(crate) fn new() -> (fresh: IndexMap)
        ensures
            index_map_contents(fresh) == (Map::<usize, Seq<usize>>::empty()),
    {
        IndexMap { inner: hashbrown::HashMap::new() }
    }

    /// `hashbrown::HashMap::get`: the list stored under `key`, if any.
    #[verifier::external_body]
    pub(crate) fn get(&self, key: usize) -> (found: Option<&Vec<usize>>)
        ensures
            found.is_some() == index_map_contents(*self).contains_key(key),
            found.is_some() ==> found.unwrap()@ == index_map_contents(*self)[key],
    {
        self.inner.get(&key)
    }

    /// `hashbrown::HashMap::entry` followed by `Entry::or_default`: the list
    /// stored under `key`, inserted empty first when the key was absent.
    /// Whatever the caller leaves in that list is what the map holds under
    /// `key` afterwards; no other key changes.
    #[verifier::external_body]
    pub(crate) fn entry_or_default(&mut self, key: usize) -> (list: &mut Vec<usize>)
        ensures
            list@ == list_at(index_map_contents(*old(self)), key),
            index_map_contents(*final(self)) == index_map_contents(*old(self)).insert(
                key,
                final(list)@,
            ),
    {
        self.inner.entry(key).or_default()
    }
}

impl IndexSet {
    /// `hashbrown::HashSet::new`: a set that holds nothing.
    #[verifier::external_body]
    pub(crate) fn new() -> (fresh: IndexSet)
        ensures
            index_set_contents(fresh) == Set::<usize>::empty(),
    {
        IndexSet { inner: hashbrown::HashSet::new() }
    }

    /// `hashbrown::HashSet::insert`: adds `value`, and says whether the set
    /// did not hold it before.
    #[verifier::external_body]
    pub(crate) fn insert(&mut self, value: usize) -> (added: bool)
        ensures
            added == !index_set_contents(*old(self)).contains(value),
            index_set_contents(*final(self)) == index_set_contents(*old(self)).insert(value),
    {
        self.inner.insert(value)
    }

    /// `hashbrown::HashSet::len`: the number of values held.
    #[verifier::external_body]
    pub(crate) fn len(&self) -> (count: usize)
        ensures
            count == index_set_contents(*self).len(),
    {
        self.inner.len()
    }
}

} // verus!
