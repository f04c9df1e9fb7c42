//! State keys: the values by which a system tells its states apart.

use vstd::prelude::*;

verus! {

/// The identity of a state within one system. Two systems may use the same
/// key for different states: a key is only ever looked up inside one system.
pub type StateKey = u64;

/// A type of states, each of which stands for one state key.
pub trait Key {
    /// The key that this state stands for. A type that does not say which
    /// is taken to stand for an unknown one.
    open spec fn key(&self) -> StateKey {
        arbitrary()
    }

    /// Computes the key that this state stands for.
    fn hash(&self) -> (k: StateKey)
        ensures
            k == self.key(),
    ;

    /// Whether two states stand for the same key.
    fn eq(&self, other: &Self) -> (same: bool)
        ensures
            same == (self.key() == other.key()),
    ;
}

/// Erases a state to its key.
pub fn into_key<K: Key>(key: K) -> (k: StateKey)
    ensures
        k == key.key(),
{
    Key::hash(&key)
}

} // verus!
