//! A finite map keyed by `u64`, the one keyed container every registry of the
//! scheduler is built on.

use std::collections::BTreeMap;
use vstd::prelude::*;
use vstd::std_specs::btree::*;

verus! {

/// A finite map from `u64` keys to values, viewed as a `Map<u64, V>`.
pub struct Table<V> {
    entries: BTreeMap<u64, V>,
}

impl<V> View for Table<V> {
    type V = Map<u64, V>;

    closed spec fn view(&self) -> Map<u64, V> {
        self.entries@
    }
}

/// Calls `BTreeMap::append` of std, which moves every entry of `source` into
/// `target`; where both bind a key, the value of `source` replaces the one
/// that `target` held.
#[verifier::external_body]
fn append_entries<V>(target: &mut BTreeMap<u64, V>, source: BTreeMap<u64, V>)
    ensures
        final(target)@ == old(target)@.union_prefer_right(source@),
{
    let mut source = source;
    target.append(&mut source);
}

impl<V> Table<V> {
    /// The empty table.
    pub fn new() -> (t: Self)
        ensures
            t@ == Map::<u64, V>::empty(),
    {
        Table { entries: BTreeMap::new() }
    }

    /// Binds `key` to `value` and hands back the value it replaced, if any.
    pub fn insert(&mut self, key: u64, value: V) -> (prev: Option<V>)
        ensures
            final(self)@ == old(self)@.insert(key, value),
            prev == (if old(self)@.contains_key(key) {
                Some(old(self)@[key])
            } else {
                None
            }),
    {
        broadcast use {group_btree_axioms, vstd::laws_cmp::group_laws_cmp};

        self.entries.insert(key, value)
    }

    /// Unbinds `key` and hands back the value it was bound to, if any.
    pub fn remove(&mut self, key: u64) -> (prev: Option<V>)
        ensures
            final(self)@ == old(self)@.remove(key),
            prev == (if old(self)@.contains_key(key) {
                Some(old(self)@[key])
            } else {
                None
            }),
    {
        broadcast use {group_btree_axioms, vstd::laws_cmp::group_laws_cmp};

        self.entries.remove(&key)
    }

    /// The value bound to `key`, if any.
    pub fn get(&self, key: u64) -> (found: Option<&V>)
        ensures
            found == (if self@.contains_key(key) {
                Some(&self@[key])
            } else {
                None
            }),
    {
        broadcast use {group_btree_axioms, vstd::laws_cmp::group_laws_cmp};

        self.entries.get(&key)
    }

    /// Moves every entry of `other` into this table; on a key that both
    /// bind, the value of `other` wins.
    pub fn absorb(&mut self, other: Self)
        ensures
            final(self)@ == old(self)@.union_prefer_right(other@),
    {
        append_entries(&mut self.entries, other.entries);
    }

    /// The number of bound keys.
    pub fn len(&self) -> (n: usize)
        ensures
            n == self@.len(),
            self@.dom().finite(),
    {
        broadcast use {group_btree_axioms, vstd::laws_cmp::group_laws_cmp};

        self.entries.len()
    }

    /// Whether `key` is bound.
    pub fn contains_key(&self, key: u64) -> (found: bool)
        ensures
            found == self@.contains_key(key),
    {
        broadcast use {group_btree_axioms, vstd::laws_cmp::group_laws_cmp};

        self.entries.contains_key(&key)
    }
}

} // verus!
