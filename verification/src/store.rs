//! The registry store: a mapping from type keys to owned values.
//!
//! `Store<P>` keeps its entries in a vector of `(key, value)` pairs whose
//! keys are pairwise distinct, and is specified throughout as the
//! [`Map`] its entries denote.

use vstd::prelude::*;

verus! {

/// The map denoted by a sequence of key/value pairs, later pairs winning.
closed spec fn map_of<P>(s: Seq<(u64, P)>) -> Map<u64, P>
    decreases s.len(),
{
    if s.len() == 0 {
        Map::empty()
    } else {
        map_of(s.drop_last()).insert(s.last().0, s.last().1)
    }
}

/// All keys in the sequence are pairwise distinct.
spec fn distinct_keys<P>(s: Seq<(u64, P)>) -> bool {
    forall|i: int, j: int| 0 <= i < j < s.len() ==> s[i].0 != s[j].0
}

/// The keys of a sequence of pairs, in order.
spec fn keys_of<P>(s: Seq<(u64, P)>) -> Seq<u64> {
    s.map_values(|e: (u64, P)| e.0)
}

/// A key is in the denoted map exactly when some pair carries it.
proof fn lemma_map_of_contains<P>(s: Seq<(u64, P)>, k: u64)
    ensures
        map_of(s).contains_key(k) <==> exists|i: int| 0 <= i < s.len() && s[i].0 == k,
    decreases s.len(),
{
    if s.len() > 0 {
        lemma_map_of_contains(s.drop_last(), k);
        if s.last().0 == k {
            assert(s[s.len() - 1].0 == k);
        } else if map_of(s).contains_key(k) {
            let i = choose|i: int| 0 <= i < s.drop_last().len() && s.drop_last()[i].0 == k;
            assert(s[i].0 == k);
        } else {
            assert forall|i: int| 0 <= i < s.len() implies s[i].0 != k by {
                if i < s.len() - 1 {
                    assert(s.drop_last()[i].0 != k);
                }
            }
        }
    }
}

/// With distinct keys, the pair carrying a key gives that key's value.
proof fn lemma_map_of_index<P>(s: Seq<(u64, P)>, i: int)
    requires
        distinct_keys(s),
        0 <= i < s.len(),
    ensures
        map_of(s).contains_key(s[i].0),
        map_of(s)[s[i].0] == s[i].1,
    decreases s.len(),
{
    lemma_map_of_contains(s, s[i].0);
    if i < s.len() - 1 {
        assert(s.last().0 != s[i].0);
        assert(s.drop_last()[i] == s[i]);
        lemma_map_of_index(s.drop_last(), i);
    }
}

/// Replacing the value of the pair at `i` updates the denoted map at that
/// pair's key and changes nothing else.
proof fn lemma_map_of_update<P>(s: Seq<(u64, P)>, i: int)
    requires
        distinct_keys(s),
        0 <= i < s.len(),
    ensures
        forall|v: P| #[trigger] map_of(s.update(i, (s[i].0, v))) == map_of(s).insert(s[i].0, v),
    decreases s.len(),
{
    let k = s[i].0;
    let d = s.drop_last();
    if i == s.len() - 1 {
        assert forall|v: P| #[trigger] map_of(s.update(i, (k, v))) == map_of(s).insert(k, v) by {
            let t = s.update(i, (k, v));
            assert(t.drop_last() =~= d);
            assert(t.last() == (k, v));
            assert(map_of(t) == map_of(t.drop_last()).insert(k, v));
            assert(map_of(s) == map_of(d).insert(k, s.last().1));
            assert(map_of(d).insert(k, s.last().1).insert(k, v) =~= map_of(d).insert(k, v));
        }
    } else {
        lemma_map_of_update(d, i);
        assert forall|v: P| #[trigger] map_of(s.update(i, (k, v))) == map_of(s).insert(k, v) by {
            let t = s.update(i, (k, v));
            let lk = s.last().0;
            let lv = s.last().1;
            assert(d[i].0 == k);
            assert(map_of(d.update(i, (d[i].0, v))) == map_of(d).insert(d[i].0, v));
            assert(t.drop_last() =~= d.update(i, (k, v)));
            assert(t.last() == (lk, lv));
            assert(map_of(t) == map_of(t.drop_last()).insert(lk, lv));
            assert(map_of(s) == map_of(d).insert(lk, lv));
            assert(k != lk);
            assert(map_of(d).insert(k, v).insert(lk, lv) =~= map_of(d).insert(lk, lv).insert(
                k,
                v,
            ));
        }
    }
}

/// Removing the pair at `i` removes that pair's key from the denoted map
/// and changes nothing else.
proof fn lemma_map_of_remove<P>(s: Seq<(u64, P)>, i: int)
    requires
        distinct_keys(s),
        0 <= i < s.len(),
    ensures
        map_of(s.remove(i)) == map_of(s).remove(s[i].0),
        distinct_keys(s.remove(i)),
    decreases s.len(),
{
    let k = s[i].0;
    let t = s.remove(i);
    assert forall|x: int, y: int| 0 <= x < y < t.len() implies t[x].0 != t[y].0 by {
        if y < i {
            assert(t[x] == s[x] && t[y] == s[y]);
        } else if x < i {
            assert(t[x] == s[x] && t[y] == s[y + 1]);
        } else {
            assert(t[x] == s[x + 1] && t[y] == s[y + 1]);
        }
    }
    if i == s.len() - 1 {
        assert(t =~= s.drop_last());
        lemma_map_of_contains(s.drop_last(), k);
        assert(map_of(s).remove(k) =~= map_of(s.drop_last()));
    } else {
        lemma_map_of_remove(s.drop_last(), i);
        let lk = s.last().0;
        let lv = s.last().1;
        assert(t.drop_last() =~= s.drop_last().remove(i));
        assert(t.last() == (lk, lv));
        assert(map_of(t) == map_of(s.drop_last()).remove(k).insert(lk, lv));
        assert(k != lk);
        assert(map_of(s.drop_last()).remove(k).insert(lk, lv) =~= map_of(s.drop_last()).insert(
            lk,
            lv,
        ).remove(k));
    }
}

/// With distinct keys, the denoted map has exactly one entry per pair.
proof fn lemma_map_of_dom<P>(s: Seq<(u64, P)>)
    requires
        distinct_keys(s),
    ensures
        map_of(s).dom().finite(),
        map_of(s).dom().len() == s.len(),
    decreases s.len(),
{
    broadcast use vstd::set::group_set_axioms;

    if s.len() > 0 {
        lemma_map_of_dom(s.drop_last());
        lemma_map_of_contains(s.drop_last(), s.last().0);
        assert(forall|i: int|
            0 <= i < s.drop_last().len() ==> s.drop_last()[i] == s[i] && s[i].0 != s.last().0);
        assert(map_of(s).dom() =~= map_of(s.drop_last()).dom().insert(s.last().0));
    }
}

/// Any sequence of pairs carrying the same keys, pairwise, as a sequence
/// with distinct keys again has distinct keys and denotes a map with the
/// same domain.
proof fn lemma_same_keys_same_dom<P>(s: Seq<(u64, P)>)
    requires
        distinct_keys(s),
    ensures
        forall|t: Seq<(u64, P)>|
            t.len() == s.len() && (forall|i: int| 0 <= i < t.len() ==> (#[trigger] t[i]).0
                == s[i].0) ==> keys_of(t) == keys_of(s) && distinct_keys(t) && (#[trigger] map_of(
                t,
            ).dom()) == map_of(s).dom(),
{
    assert forall|t: Seq<(u64, P)>|
        t.len() == s.len() && (forall|i: int| 0 <= i < t.len() ==> (#[trigger] t[i]).0
            == s[i].0) implies keys_of(t) == keys_of(s) && distinct_keys(t) && (#[trigger] map_of(
        t,
    ).dom()) == map_of(s).dom() by {
        assert(keys_of(t) =~= keys_of(s));
        assert forall|k: u64| map_of(t).contains_key(k) == map_of(s).contains_key(k) by {
            lemma_map_of_contains(t, k);
            lemma_map_of_contains(s, k);
            if exists|i: int| 0 <= i < t.len() && t[i].0 == k {
                let i = choose|i: int| 0 <= i < t.len() && t[i].0 == k;
                assert(s[i].0 == k);
            }
            if exists|i: int| 0 <= i < s.len() && s[i].0 == k {
                let i = choose|i: int| 0 <= i < s.len() && s[i].0 == k;
                assert(t[i].0 == k);
            }
        }
        assert(map_of(t).dom() =~= map_of(s).dom());
    }
}

/// Collects a mutable reference to each pair's value, in order, keeping
/// each pair's key both in the result and in the slice.
fn slice_pairs_mut<'a, P>(s: &'a mut [(u64, P)]) -> (r: Vec<(u64, &'a mut P)>)
    ensures
        r@.len() == old(s)@.len(),
        final(s)@.len() == old(s)@.len(),
        forall|i: int| 0 <= i < r@.len() ==> (#[trigger] r@[i]).0 == old(s)@[i].0,
        forall|i: int| 0 <= i < r@.len() ==> *(#[trigger] r@[i]).1 == old(s)@[i].1,
        forall|i: int| 0 <= i < final(s)@.len() ==> (#[trigger] final(s)@[i]).0 == old(s)@[i].0,
    decreases s@.len(),
{
    if s.len() == 0 {
        Vec::new()
    } else {
        let n = s.len();
        let (left, right) = s.split_at_mut(n - 1);
        let ghost l0 = left@;
        let ghost r0 = right@;
        let e = right.first_mut().unwrap();
        let k = e.0;
        let v = &mut e.1;
        let mut r = slice_pairs_mut(left);
        r.push((k, v));
        proof {
            assert(l0 == old(s)@.subrange(0, n as int - 1));
            assert(r0 == old(s)@.subrange(n as int - 1, n as int));
        }
        r
    }
}

/// A store of owned values, at most one per key.
pub struct Store<P> {
    entries: Vec<(u64, P)>,
}

impl<P> View for Store<P> {
    type V = Map<u64, P>;

    closed spec fn view(&self) -> Map<u64, P> {
        map_of(self.entries@)
    }
}

impl<P> Store<P> {
    /// The store's structural invariant: keys are pairwise distinct.
    pub closed spec fn wf(&self) -> bool {
        distinct_keys(self.entries@)
    }

    /// The store's keys, in entry order.
    pub closed spec fn keys_seq(&self) -> Seq<u64> {
        keys_of(self.entries@)
    }

    /// Finds the position of the entry carrying `key`, if any.
    fn index_of(&self, key: u64) -> (r: Option<usize>)
        ensures
            (match r {
                Some(i) => i < self.entries@.len() && self.entries@[i as int].0 == key,
                None => !self@.contains_key(key),
            }),
    {
        let n = self.entries.len();
        let mut i: usize = 0;
        while i < n
            invariant
                n == self.entries@.len(),
                0 <= i <= n,
                forall|j: int| 0 <= j < i ==> self.entries@[j].0 != key,
            decreases n - i,
        {
            if self.entries[i].0 == key {
                return Some(i);
            }
            i += 1;
        }
        proof {
            lemma_map_of_contains(self.entries@, key);
        }
        None
    }

    /// Creates an empty store.
    pub fn new() -> (s: Store<P>)
        ensures
            s.wf(),
            s@ == Map::<u64, P>::empty(),
    {
        Store { entries: Vec::new() }
    }

    /// Returns whether a value is stored under `key`.
    pub fn contains_key(&self, key: u64) -> (r: bool)
        ensures
            r == self@.contains_key(key),
    {
        match self.index_of(key) {
            Some(i) => {
                proof {
                    lemma_map_of_contains(self.entries@, key);
                    assert(self.entries@[i as int].0 == key);
                }
                true
            },
            None => false,
        }
    }

    /// Stores `value` under `key`, replacing and dropping any value already
    /// stored under that key.
    pub fn insert(&mut self, key: u64, value: P)
        requires
            old(self).wf(),
        ensures
            final(self).wf(),
            final(self)@ == old(self)@.insert(key, value),
    {
        match self.index_of(key) {
            Some(i) => {
                proof {
                    lemma_map_of_update(self.entries@, i as int);
                }
                let e = vstd::std_specs::vec::vec_index_mut(&mut self.entries, i);
                *e = (key, value);
                proof {
                    assert(self.entries@ =~= old(self).entries@.update(i as int, (key, value)));
                    assert forall|x: int, y: int|
                        0 <= x < y < self.entries@.len() implies self.entries@[x].0
                        != self.entries@[y].0 by {
                        assert(self.entries@[x].0 == old(self).entries@[x].0);
                        assert(self.entries@[y].0 == old(self).entries@[y].0);
                    }
                }
            },
            None => {
                proof {
                    lemma_map_of_contains(self.entries@, key);
                }
                self.entries.push((key, value));
                proof {
                    let s = old(self).entries@;
                    assert(self.entries@.drop_last() =~= s);
                    assert(map_of(self.entries@) == map_of(s).insert(key, value));
                    assert forall|x: int, y: int|
                        0 <= x < y < self.entries@.len() implies self.entries@[x].0
                        != self.entries@[y].0 by {
                        if y < s.len() {
                            assert(self.entries@[x] == s[x] && self.entries@[y] == s[y]);
                        } else {
                            assert(self.entries@[x] == s[x]);
                        }
                    }
                }
            },
        }
    }

    /// Returns a mutable reference to the value stored under `key`, or
    /// nothing if the key is absent.
    pub fn get_mut(&mut self, key: u64) -> (r: Option<&mut P>)
        requires
            old(self).wf(),
        ensures
            final(self).wf(),
            r is Some ==> old(self)@.contains_key(key) && *r.unwrap() == old(self)@[key]
                && final(self)@ == old(self)@.insert(key, *final(r.unwrap())),
            r is None ==> !old(self)@.contains_key(key) && *final(self) == *old(self),
    {
        match self.index_of(key) {
            Some(i) => {
                proof {
                    lemma_map_of_index(self.entries@, i as int);
                    lemma_map_of_update(self.entries@, i as int);
                }
                let e = vstd::std_specs::vec::vec_index_mut(&mut self.entries, i);
                Some(&mut e.1)
            },
            None => None,
        }
    }

    /// Removes and drops the value stored under `key`; returns whether one
    /// was present.
    pub fn remove(&mut self, key: u64) -> (r: bool)
        requires
            old(self).wf(),
        ensures
            final(self).wf(),
            r == old(self)@.contains_key(key),
            final(self)@ == old(self)@.remove(key),
    {
        match self.index_of(key) {
            Some(i) => {
                proof {
                    lemma_map_of_contains(self.entries@, key);
                    assert(self.entries@[i as int].0 == key);
                    lemma_map_of_remove(self.entries@, i as int);
                }
                let _ = self.entries.remove(i);
                true
            },
            None => {
                proof {
                    assert(old(self)@.remove(key) =~= old(self)@);
                }
                false
            },
        }
    }

    /// The number of stored values.
    pub fn len(&self) -> (r: usize)
        requires
            self.wf(),
        ensures
            r == self@.dom().len(),
            r == self.keys_seq().len(),
    {
        proof {
            lemma_map_of_dom(self.entries@);
        }
        self.entries.len()
    }

    /// The stored keys, in entry order: one per stored value, each distinct.
    pub fn keys(&self) -> (r: Vec<u64>)
        requires
            self.wf(),
        ensures
            r@ == self.keys_seq(),
            r@.len() == self@.dom().len(),
            forall|i: int, j: int| 0 <= i < j < r@.len() ==> r@[i] != r@[j],
            forall|k: u64| r@.contains(k) <==> self@.contains_key(k),
    {
        proof {
            lemma_map_of_dom(self.entries@);
        }
        let n = self.entries.len();
        let mut r: Vec<u64> = Vec::new();
        let mut i: usize = 0;
        while i < n
            invariant
                n == self.entries@.len(),
                0 <= i <= n,
                r@.len() == i,
                forall|j: int| 0 <= j < i ==> r@[j] == self.entries@[j].0,
            decreases n - i,
        {
            r.push(self.entries[i].0);
            i += 1;
        }
        proof {
            assert(r@ =~= keys_of(self.entries@));
            assert forall|k: u64| r@.contains(k) <==> self@.contains_key(k) by {
                lemma_map_of_contains(self.entries@, k);
                if self@.contains_key(k) {
                    let w = choose|i: int|
                        0 <= i < self.entries@.len() && self.entries@[i].0 == k;
                    assert(r@[w] == k);
                }
                if r@.contains(k) {
                    let w = choose|i: int| 0 <= i < r@.len() && r@[i] == k;
                    assert(self.entries@[w].0 == k);
                }
            }
        }
        r
    }

    /// Hands out one mutable reference per stored value, in entry order,
    /// paired with its key. The store keeps its keys; the values are
    /// whatever the caller leaves behind through the references.
    pub fn pairs_mut(&mut self) -> (r: Vec<(u64, &mut P)>)
        requires
            old(self).wf(),
        ensures
            final(self).wf(),
            final(self)@.dom() == old(self)@.dom(),
            final(self).keys_seq() == old(self).keys_seq(),
            r@.len() == old(self)@.dom().len(),
            forall|i: int|
                0 <= i < r@.len() ==> (#[trigger] r@[i]).0 == old(self).keys_seq()[i] && old(
                    self,
                )@.contains_key(r@[i].0) && *r@[i].1 == old(self)@[r@[i].0],
            forall|i: int, j: int| 0 <= i < j < r@.len() ==> r@[i].0 != r@[j].0,
    {
        proof {
            lemma_map_of_dom(self.entries@);
            lemma_same_keys_same_dom(self.entries@);
            assert forall|i: int| 0 <= i < self.entries@.len() implies map_of(self.entries@)[(
            #[trigger] self.entries@[i]).0] == self.entries@[i].1 && map_of(
                self.entries@,
            ).contains_key(self.entries@[i].0) by {
                lemma_map_of_index(self.entries@, i);
            }
        }
        let s = self.entries.as_mut_slice();
        slice_pairs_mut(s)
    }

    /// Moves every entry of `other` into `self`; an entry of `other` wins
    /// over an entry of `self` stored under the same key.
    pub fn merge(&mut self, other: Store<P>)
        requires
            old(self).wf(),
            other.wf(),
        ensures
            final(self).wf(),
            final(self)@ == old(self)@.union_prefer_right(other@),
    {
        let mut o = other;
        while o.entries.len() > 0
            invariant
                self.wf(),
                distinct_keys(o.entries@),
                old(self)@.union_prefer_right(other@) == self@.union_prefer_right(
                    map_of(o.entries@),
                ),
            decreases o.entries@.len(),
        {
            let e = o.entries.pop().unwrap();
            proof {
                let s = o.entries@.push(e);
                assert(s.drop_last() =~= o.entries@);
                assert(map_of(s) == map_of(o.entries@).insert(e.0, e.1));
                lemma_map_of_contains(o.entries@, e.0);
                assert forall|i: int| 0 <= i < o.entries@.len() implies o.entries@[i].0 != e.0 by {
                    assert(s[i] == o.entries@[i]);
                    assert(s[s.len() - 1].0 == e.0);
                }
                assert(!map_of(o.entries@).contains_key(e.0));
                assert(self@.union_prefer_right(map_of(s)) =~= self@.insert(
                    e.0,
                    e.1,
                ).union_prefer_right(map_of(o.entries@)));
            }
            self.insert(e.0, e.1);
        }
        proof {
            assert(self@.union_prefer_right(map_of(o.entries@)) =~= self@);
        }
    }
}

} // verus!
