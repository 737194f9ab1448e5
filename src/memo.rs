//! What a memoized call promises, stated once for every computation.
//!
//! A computation is described by `f`, which gives for each key the value the
//! body returns, or `None` where the body fails. A cache agrees with `f` when
//! every entry it holds is the successful result of `f` for its key.
use vstd::prelude::*;

use crate::cache::cached;

verus! {

/// Every entry of `m` is the successful result of `f` for its key.
pub open spec fn agrees_with<K, V>(m: Map<K, V>, f: spec_fn(K) -> Option<V>) -> bool {
    forall|k: K| #[trigger] m.contains_key(k) ==> f(k) == Some(m[k])
}

/// A call with `key` that found the cache `before`, returned `r` and left the
/// cache `after`:
/// - it returned what `f` gives for the key;
/// - entries are only ever added, never changed or removed;
/// - the cache still agrees with `f`;
/// - the key is stored exactly when the call succeeded;
/// - on a hit the cache is left as it was, so the body did not run.
pub open spec fn memo_call<K, V>(
    f: spec_fn(K) -> Option<V>,
    before: Map<K, V>,
    key: K,
    r: Option<V>,
    after: Map<K, V>,
) -> bool {
    &&& r == f(key)
    &&& before.submap_of(after)
    &&& agrees_with(after, f)
    &&& (after.contains_key(key) <==> r is Some)
    &&& (before.contains_key(key) ==> after == before)
}

/// Storing the successful result of `f` for a key keeps the cache in
/// agreement with `f`.
pub proof fn lemma_store_keeps_agreement<K, V>(
    f: spec_fn(K) -> Option<V>,
    m: Map<K, V>,
    key: K,
    v: V,
)
    requires
        agrees_with(m, f),
        f(key) == Some(v),
    ensures
        agrees_with(m.insert(key, v), f),
{
    assert forall|k: K| #[trigger] m.insert(key, v).contains_key(k) implies f(k) == Some(
        m.insert(key, v)[k],
    ) by {
        if k != key {
            assert(m.contains_key(k));
        }
    }
}

/// Calling twice with one key gives one result; when the first call
/// succeeded, the second is a hit: it changes nothing and runs no body.
pub proof fn lemma_repeat_call<K, V>(
    f: spec_fn(K) -> Option<V>,
    c0: Map<K, V>,
    c1: Map<K, V>,
    c2: Map<K, V>,
    key: K,
    r1: Option<V>,
    r2: Option<V>,
)
    requires
        memo_call(f, c0, key, r1, c1),
        memo_call(f, c1, key, r2, c2),
    ensures
        r2 == r1,
        r1 is Some ==> c2 == c1 && cached(c1, key) == r1,
{
}

/// A call that failed leaves no entry for its key, so the next call with
/// that key misses and runs the body again.
pub proof fn lemma_failure_not_stored<K, V>(
    f: spec_fn(K) -> Option<V>,
    before: Map<K, V>,
    key: K,
    after: Map<K, V>,
)
    requires
        memo_call(f, before, key, None, after),
    ensures
        !after.contains_key(key),
        cached(after, key) is None,
{
}

/// Storing a value under one key leaves what is stored under any other key
/// as it was.
pub proof fn lemma_other_keys_unaffected<K, V>(m: Map<K, V>, k1: K, v: V, k2: K)
    requires
        k1 != k2,
    ensures
        cached(m.insert(k1, v), k2) == cached(m, k2),
{
}

} // verus!
