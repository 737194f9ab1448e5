//! The keyed store behind a memoized computation.
use std::collections::BTreeMap;
use vstd::laws_cmp::obeys_cmp;
use vstd::prelude::*;

verus! {

broadcast use vstd::laws_cmp::group_laws_cmp;

/// Results computed so far, one per distinct key.
///
/// Keys are compared by their `Ord` impl; the cache is meaningful for key
/// types whose order is lawful (`obeys_cmp`), which holds of integers and of
/// tuples of them.
pub struct MemoCache<K, V> {
    entries: BTreeMap<K, V>,
}

impl<K, V> View for MemoCache<K, V> {
    type V = Map<K, V>;

    closed spec fn view(&self) -> Map<K, V> {
        self.entries@
    }
}

/// What a cache holds for `key`, if anything.
pub open spec fn cached<K, V>(m: Map<K, V>, key: K) -> Option<V> {
    if m.contains_key(key) {
        Some(m[key])
    } else {
        None
    }
}

impl<K: Ord, V: Copy> MemoCache<K, V> {
    /// An empty cache.
    pub fn new() -> (c: Self)
        requires
            obeys_cmp::<K>(),
        ensures
            c@ == Map::<K, V>::empty(),
    {
        MemoCache { entries: BTreeMap::new() }
    }

    /// The value stored under `key`, if any. The cache is not changed.
    pub fn lookup(&self, key: &K) -> (r: Option<V>)
        requires
            obeys_cmp::<K>(),
        ensures
            r == cached(self@, *key),
    {
        match self.entries.get(key) {
            Some(v) => Some(*v),
            None => None,
        }
    }

    /// Whether a value is stored under `key`.
    pub fn contains(&self, key: &K) -> (r: bool)
        requires
            obeys_cmp::<K>(),
        ensures
            r == self@.contains_key(*key),
    {
        self.entries.contains_key(key)
    }

    /// Stores `value` under `key`; a value already there is replaced.
    pub fn insert(&mut self, key: K, value: V)
        requires
            obeys_cmp::<K>(),
        ensures
            final(self)@ == old(self)@.insert(key, value),
    {
        self.entries.insert(key, value);
    }

    /// Completes a call on a miss: a successful `outcome` is stored under
    /// `key`, a failed one leaves the cache as it was. Returns `outcome`.
    pub fn record(&mut self, key: K, outcome: Option<V>) -> (r: Option<V>)
        requires
            obeys_cmp::<K>(),
        ensures
            r == outcome,
            match outcome {
                Some(v) => final(self)@ == old(self)@.insert(key, v),
                None => final(self)@ == old(self)@,
            },
    {
        match outcome {
            Some(v) => {
                self.insert(key, v);
                Some(v)
            },
            None => None,
        }
    }

    /// A cache holds finitely many entries.
    pub proof fn lemma_finite(&self)
        ensures
            self@.dom().finite(),
    {
        assert(self.entries@.dom().finite());
    }

    /// The number of distinct keys stored.
    pub fn len(&self) -> (n: usize)
        requires
            obeys_cmp::<K>(),
        ensures
            n == self@.len(),
    {
        self.entries.len()
    }
}

} // verus!
