//! The registry's governing properties, stated over its model.
//!
//! Every public operation of [`crate::extensions::Extensions`] describes
//! its effect on the registry's contents `self@`, a map from type key to
//! erased instance. The lemmas here state, over such maps, the rules the
//! registry lives by: what registration, lookup, deregistration and
//! merging may and may not change.

use crate::erased::ErasedExt;
use vstd::prelude::*;

verus! {

/// Registering a capability of one type never affects the lookup of a
/// different type: a key absent before an insertion under another key is
/// still absent after it.
pub proof fn lemma_register_preserves_absence(
    m: Map<u64, ErasedExt>,
    b: ErasedExt,
    k1: u64,
    k2: u64,
)
    requires
        k1 != k2,
        !m.contains_key(k2),
    ensures
        !m.insert(k1, b).contains_key(k2),
{
}

/// Registering and then looking up the same type finds exactly the
/// instance just registered.
pub proof fn lemma_register_then_lookup(m: Map<u64, ErasedExt>, b: ErasedExt, k: u64)
    ensures
        m.insert(k, b).contains_key(k),
        m.insert(k, b)[k] == b,
{
}

/// After a first insert-only registration the key is occupied, so a
/// second insert-only registration under the same key must report it
/// already registered and leave the registry unchanged: the first
/// instance stays in place.
pub proof fn lemma_insert_only_blocks_second(m: Map<u64, ErasedExt>, b1: ErasedExt, k: u64)
    requires
        !m.contains_key(k),
    ensures
        m.insert(k, b1).contains_key(k),
        m.insert(k, b1)[k] == b1,
{
}

/// Registering the same type twice permissively keeps only the second
/// instance; the first is no longer reachable under any key.
pub proof fn lemma_overwrite_keeps_latest(
    m: Map<u64, ErasedExt>,
    b1: ErasedExt,
    b2: ErasedExt,
    k: u64,
)
    ensures
        m.insert(k, b1).insert(k, b2) == m.insert(k, b2),
        m.insert(k, b1).insert(k, b2)[k] == b2,
{
    assert(m.insert(k, b1).insert(k, b2) =~= m.insert(k, b2));
}

/// Deregistering removes exactly the named type: its key is absent
/// afterwards, and deregistering an absent type changes nothing.
pub proof fn lemma_deregister_removes(m: Map<u64, ErasedExt>, k: u64)
    ensures
        !m.remove(k).contains_key(k),
        !m.contains_key(k) ==> m.remove(k) == m,
        forall|k2: u64|
            k2 != k ==> (m.remove(k).contains_key(k2) <==> m.contains_key(k2)) && (
            m.contains_key(k2) ==> m.remove(k)[k2] == m[k2]),
{
    if !m.contains_key(k) {
        assert(m.remove(k) =~= m);
    }
}

/// Merging is overwrite-biased toward the merged-in registry: where both
/// registries hold a type, the merged-in instance wins; a type held by
/// only one side survives untouched.
pub proof fn lemma_merge_prefers_newer(a: Map<u64, ErasedExt>, b: Map<u64, ErasedExt>, k: u64)
    ensures
        a.union_prefer_right(b).contains_key(k) <==> a.contains_key(k) || b.contains_key(k),
        b.contains_key(k) ==> a.union_prefer_right(b)[k] == b[k],
        !b.contains_key(k) && a.contains_key(k) ==> a.union_prefer_right(b)[k] == a[k],
{
}

} // verus!
