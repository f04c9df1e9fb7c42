//! The dependency store: a container of shared singletons, one per type key.

use crate::table::Table;
use std::rc::Rc;
use vstd::prelude::*;

verus! {

/// The identity of a type of dependency. A store holds at most one value per
/// key; callers that need several values of one type give each a key of its
/// own.
pub type TypeKey = u64;

/// What a store answers when asked for a key that it does not hold.
#[derive(Clone, Copy, Debug, PartialEq, Eq, Structural)]
pub struct MissingDependency {
    /// The key that was asked for.
    pub key: TypeKey,
}

/// A reference-counted slot that every holder shares. The slot type `T` is the
/// host's: it brings whatever synchronisation its values need.
pub struct Dependency<T> {
    inner: Rc<T>,
}

impl<T> View for Dependency<T> {
    type V = T;

    closed spec fn view(&self) -> T {
        *self.inner
    }
}

/// Calls `Rc::clone` of std, which makes another pointer to the same
/// allocation: the pointee is the one the argument points to.
#[verifier::external_body]
fn share<T>(slot: &Rc<T>) -> (shared: Rc<T>)
    ensures
        shared == *slot,
{
    Rc::clone(slot)
}

impl<T> Dependency<T> {
    /// Puts `item` into a fresh slot.
    pub fn new(item: T) -> (dep: Self)
        ensures
            dep@ == item,
    {
        Dependency { inner: Rc::new(item) }
    }

    /// Another handle to the same slot.
    pub fn inner(&self) -> (slot: Rc<T>)
        ensures
            *slot == self@,
    {
        share(&self.inner)
    }

    /// Another dependency that shares this one's slot.
    pub fn share(&self) -> (dep: Self)
        ensures
            dep == *self,
    {
        Dependency { inner: share(&self.inner) }
    }
}

/// A store of dependencies keyed by type, viewed as a map from key to
/// dependency.
pub struct DependencyMap<T> {
    map: Table<Dependency<T>>,
}

impl<T> View for DependencyMap<T> {
    type V = Map<TypeKey, Dependency<T>>;

    closed spec fn view(&self) -> Map<TypeKey, Dependency<T>> {
        self.map@
    }
}

/// What a lookup of `key` in a store with contents `store` answers.
pub open spec fn lookup<T>(store: Map<TypeKey, Dependency<T>>, key: TypeKey) -> Result<
    Dependency<T>,
    MissingDependency,
> {
    if store.contains_key(key) {
        Ok(store[key])
    } else {
        Err(MissingDependency { key })
    }
}

/// What a store holds under `key`, if anything.
pub open spec fn held<T>(store: Map<TypeKey, Dependency<T>>, key: TypeKey) -> Option<
    Dependency<T>,
> {
    if store.contains_key(key) {
        Some(store[key])
    } else {
        None
    }
}

impl<T> DependencyMap<T> {
    /// The empty store.
    pub fn new() -> (store: Self)
        ensures
            store@ == Map::<TypeKey, Dependency<T>>::empty(),
    {
        DependencyMap { map: Table::new() }
    }

    /// Stores `item` under `key` and hands back the dependency it replaced,
    /// if there was one: the last write wins.
    pub fn insert(&mut self, key: TypeKey, item: Dependency<T>) -> (prev: Option<Dependency<T>>)
        ensures
            final(self)@ == old(self)@.insert(key, item),
            prev == held(old(self)@, key),
    {
        self.map.insert(key, item)
    }

    /// Absorbs every entry of `container`; on a key that both stores hold,
    /// the entry of `container` wins.
    pub fn insert_container(&mut self, container: Self)
        ensures
            final(self)@ == old(self)@.union_prefer_right(container@),
    {
        self.map.absorb(container.map);
    }

    /// Takes the dependency under `key` out of the store.
    pub fn remove(&mut self, key: TypeKey) -> (taken: Result<Dependency<T>, MissingDependency>)
        ensures
            final(self)@ == old(self)@.remove(key),
            taken == lookup(old(self)@, key),
    {
        match self.map.remove(key) {
            Some(dep) => Ok(dep),
            None => Err(MissingDependency { key }),
        }
    }

    /// The dependency under `key`, shared with every other holder.
    pub fn get(&self, key: TypeKey) -> (found: Result<Dependency<T>, MissingDependency>)
        ensures
            found == lookup(self@, key),
    {
        match self.map.get(key) {
            Some(dep) => Ok(dep.share()),
            None => Err(MissingDependency { key }),
        }
    }
}

/// Last write wins: after `a` and then `b` went in under one key, a lookup
/// answers `b`; taking the key out answers `b` too, and a lookup after that
/// finds nothing.
pub proof fn theorem_last_write_wins<T>(
    store: Map<TypeKey, Dependency<T>>,
    key: TypeKey,
    a: Dependency<T>,
    b: Dependency<T>,
)
    ensures
        lookup(store.insert(key, a).insert(key, b), key) == Ok::<_, MissingDependency>(b),
        lookup(store.insert(key, a).insert(key, b).remove(key), key) == Err::<Dependency<T>, _>(
            MissingDependency { key },
        ),
        held(store.insert(key, a), key) == Some(a),
{
}

/// A merge is a sequence of inserts: each key of the absorbed store answers
/// as that store did, every other key as before.
pub proof fn theorem_merge_prefers_absorbed<T>(
    store: Map<TypeKey, Dependency<T>>,
    absorbed: Map<TypeKey, Dependency<T>>,
    key: TypeKey,
)
    ensures
        lookup(store.union_prefer_right(absorbed), key) == (if absorbed.contains_key(key) {
            lookup(absorbed, key)
        } else {
            lookup(store, key)
        }),
{
}

} // verus!
