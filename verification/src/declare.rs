//! Declaring new capabilities from plain value types.

use crate::extensions::Extension;
use vstd::prelude::*;

verus! {

/// A capability declared from a plain value type.
///
/// `Declared<K, V>` wraps a value of `V` and identifies itself by the key
/// `K`, so a new capability takes one line to declare:
/// `type ConnectionCount = Declared<4, u32>;`. The wrapped value is the
/// public field `value`. Every declared capability must use a key of its
/// own: the key stands for the wrapper type in the registry.
pub struct Declared<const K: u64, V> {
    /// The wrapped value.
    pub value: V,
}

impl<const K: u64, V: Send + 'static> Declared<K, V> {
    /// Wraps `value` into the capability.
    pub fn new(value: V) -> (r: Declared<K, V>)
        ensures
            r.value == value,
    {
        Declared { value }
    }
}

impl<const K: u64, V: Send + 'static> From<V> for Declared<K, V> {
    fn from(value: V) -> (r: Declared<K, V>) {
        Declared { value }
    }
}

impl<const K: u64, V: Send + 'static> vstd::std_specs::convert::FromSpecImpl<V> for Declared<K, V> {
    open spec fn obeys_from_spec() -> bool {
        true
    }

    open spec fn from_spec(v: V) -> Self {
        Declared { value: v }
    }
}

impl<const K: u64, V: Send + 'static> Extension for Declared<K, V> {
    open spec fn key_spec() -> u64 {
        K
    }

    fn key() -> (r: u64) {
        K
    }

    fn type_key(&self) -> (r: u64) {
        K
    }
}

} // verus!
