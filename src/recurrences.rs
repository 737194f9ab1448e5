//! Recurrences evaluated through a memo cache.
//!
//! Each computation comes in two forms: one that works against a cache the
//! caller owns (`*_with`), and one that makes a fresh cache for the call.
use vstd::prelude::*;
use vstd::set_lib::{lemma_len_subset, lemma_len_union};

use crate::cache::MemoCache;
use crate::memo::{agrees_with, lemma_store_keeps_agreement, memo_call};

verus! {

broadcast use {vstd::laws_cmp::group_laws_cmp, vstd::map_lib::lemma_submap_of_trans};

/// The Fibonacci numbers: 0, 1, 1, 2, 3, 5, ...
pub open spec fn fib_spec(n: nat) -> nat
    decreases n,
{
    if n <= 1 {
        n
    } else {
        fib_spec((n - 1) as nat) + fib_spec((n - 2) as nat)
    }
}

/// What the body computes for `n`: the Fibonacci number where it fits an
/// `i64`, `None` where the sum overflows.
pub open spec fn fib_value(n: i64) -> Option<i64> {
    if 0 <= n && fib_spec(n as nat) <= i64::MAX {
        Some(fib_spec(n as nat) as i64)
    } else {
        None
    }
}

/// [`fib_value`] as a function value, for [`memo_call`].
pub open spec fn fib_fn() -> spec_fn(i64) -> Option<i64> {
    |n: i64| fib_value(n)
}

/// Fibonacci of `n` through `cache`; `None` where the result overflows.
/// Only keys from 0 to `n` are added.
pub fn fib_with(cache: &mut MemoCache<i64, i64>, n: i64) -> (r: Option<i64>)
    requires
        0 <= n,
        agrees_with(old(cache)@, fib_fn()),
    ensures
        memo_call(fib_fn(), old(cache)@, n, r, final(cache)@),
        forall|k: i64| #[trigger]
            final(cache)@.contains_key(k) ==> old(cache)@.contains_key(k) || 0 <= k <= n,
    decreases n,
{
    if let Some(v) = cache.lookup(&n) {
        return Some(v);
    }
    let outcome = if n == 0 || n == 1 {
        Some(n)
    } else {
        match fib_with(cache, n - 1) {
            None => None,
            Some(x) => match fib_with(cache, n - 2) {
                None => None,
                Some(y) => x.checked_add(y),
            },
        }
    };
    proof {
        if n >= 2 {
            assert(fib_spec(n as nat) == fib_spec((n - 1) as nat) + fib_spec((n - 2) as nat));
        }
        assert(outcome == fib_value(n));
        if let Some(v) = outcome {
            lemma_store_keeps_agreement(fib_fn(), cache@, n, v);
        }
    }
    cache.record(n, outcome)
}

/// Fibonacci of `n`, computed with a fresh cache.
pub fn fib(n: i64) -> (r: i64)
    requires
        0 <= n,
        fib_spec(n as nat) <= i64::MAX,
    ensures
        r == fib_spec(n as nat),
{
    let mut cache: MemoCache<i64, i64> = MemoCache::new();
    match fib_with(&mut cache, n) {
        Some(v) => v,
        None => 0,
    }
}

/// The binomial coefficient "n choose m", for `m >= 0`: 1 when `m` is 0,
/// 0 when `n < m`, and Pascal's rule otherwise.
pub open spec fn comb_spec(n: int, m: int) -> nat
    decreases n,
{
    if m <= 0 {
        1
    } else if n < m {
        0
    } else {
        comb_spec(n - 1, m - 1) + comb_spec(n - 1, m)
    }
}

/// The cache key of a call: both arguments, in order.
pub open spec fn comb_key(n: i64, m: i64) -> (i64, i64) {
    (n, m)
}

/// What the body computes for a key: the coefficient where it fits an
/// `i64`, `None` where a sum overflows.
pub open spec fn comb_value(k: (i64, i64)) -> Option<i64> {
    if 0 <= k.1 && comb_spec(k.0 as int, k.1 as int) <= i64::MAX {
        Some(comb_spec(k.0 as int, k.1 as int) as i64)
    } else {
        None
    }
}

/// [`comb_value`] as a function value, for [`memo_call`].
pub open spec fn comb_fn() -> spec_fn((i64, i64)) -> Option<i64> {
    |k: (i64, i64)| comb_value(k)
}

/// "n choose m" through `cache`; `None` where the result overflows.
/// Only keys with a first part up to `n` and a second from 0 to `m` are
/// added.
pub fn comb_with(cache: &mut MemoCache<(i64, i64), i64>, n: i64, m: i64) -> (r: Option<i64>)
    requires
        0 <= m,
        agrees_with(old(cache)@, comb_fn()),
    ensures
        memo_call(comb_fn(), old(cache)@, comb_key(n, m), r, final(cache)@),
        forall|k: (i64, i64)| #[trigger]
            final(cache)@.contains_key(k) ==> old(cache)@.contains_key(k)
                || (k.0 <= n && 0 <= k.1 <= m),
    decreases n,
{
    if let Some(v) = cache.lookup(&(n, m)) {
        return Some(v);
    }
    let outcome = if m == 0 {
        Some(1)
    } else if n < m {
        Some(0)
    } else {
        match comb_with(cache, n - 1, m - 1) {
            None => None,
            Some(x) => match comb_with(cache, n - 1, m) {
                None => None,
                Some(y) => x.checked_add(y),
            },
        }
    };
    proof {
        assert(outcome == comb_value((n, m)));
        if let Some(v) = outcome {
            lemma_store_keeps_agreement(comb_fn(), cache@, (n, m), v);
        }
    }
    cache.record((n, m), outcome)
}

/// "n choose m", computed with a fresh cache.
pub fn comb(n: i64, m: i64) -> (r: i64)
    requires
        0 <= m,
        comb_spec(n as int, m as int) <= i64::MAX,
    ensures
        r == comb_spec(n as int, m as int),
{
    let mut cache: MemoCache<(i64, i64), i64> = MemoCache::new();
    match comb_with(&mut cache, n, m) {
        Some(v) => v,
        None => 0,
    }
}

/// Two calls share a cache entry exactly when both their arguments are equal.
pub proof fn lemma_comb_key_equal_iff(n1: i64, m1: i64, n2: i64, m2: i64)
    ensures
        comb_key(n1, m1) == comb_key(n2, m2) <==> (n1 == n2 && m1 == m2),
{
}

/// `x + y` modulo `usize::MAX + 1`, as `usize::wrapping_add` computes it.
pub open spec fn wrapping_sum(x: usize, y: usize) -> usize {
    if x + y > usize::MAX {
        (x + y - usize::MAX - 1) as usize
    } else {
        (x + y) as usize
    }
}

/// A count over a three-dimensional grid: 1 on the faces where a coordinate
/// is 0, else the sum, with wrapping, of the three neighbours one step
/// closer to them.
pub open spec fn ftup_spec(a: nat, b: nat, c: nat) -> usize
    decreases a + b + c,
{
    if a == 0 || b == 0 || c == 0 {
        1
    } else {
        wrapping_sum(
            wrapping_sum(ftup_spec((a - 1) as nat, b, c), ftup_spec(a, (b - 1) as nat, c)),
            ftup_spec(a, b, (c - 1) as nat),
        )
    }
}

/// The cache key of a call: the pair argument, then the scalar.
pub open spec fn ftup_key(ab: (usize, usize), c: usize) -> ((usize, usize), usize) {
    (ab, c)
}

/// What the body computes for a key: it never fails.
pub open spec fn ftup_fn() -> spec_fn(((usize, usize), usize)) -> Option<usize> {
    |k: ((usize, usize), usize)| Some(ftup_spec(k.0.0 as nat, k.0.1 as nat, k.1 as nat))
}

/// The grid count at `(ab.0, ab.1, c)` through `cache`. Only keys whose
/// coordinates are each at most those of the call are added.
pub fn ftup_with(
    cache: &mut MemoCache<((usize, usize), usize), usize>,
    ab: (usize, usize),
    c: usize,
) -> (r: usize)
    requires
        agrees_with(old(cache)@, ftup_fn()),
    ensures
        memo_call(ftup_fn(), old(cache)@, ftup_key(ab, c), Some(r), final(cache)@),
        forall|k: ((usize, usize), usize)| #[trigger]
            final(cache)@.contains_key(k) ==> old(cache)@.contains_key(k)
                || (k.0.0 <= ab.0 && k.0.1 <= ab.1 && k.1 <= c),
    decreases ab.0 + ab.1 + c,
{
    if let Some(v) = cache.lookup(&(ab, c)) {
        return v;
    }
    let (a, b) = ab;
    let v = if a == 0 || b == 0 || c == 0 {
        1
    } else {
        let x = ftup_with(cache, (a - 1, b), c);
        let y = ftup_with(cache, (a, b - 1), c);
        let z = ftup_with(cache, (a, b), c - 1);
        x.wrapping_add(y).wrapping_add(z)
    };
    proof {
        assert(Some(v) == ftup_fn()((ab, c)));
        lemma_store_keeps_agreement(ftup_fn(), cache@, (ab, c), v);
    }
    cache.insert((ab, c), v);
    v
}

/// The grid count at `(ab.0, ab.1, c)`, computed with a fresh cache.
pub fn ftup(ab: (usize, usize), c: usize) -> (r: usize)
    ensures
        r == ftup_spec(ab.0 as nat, ab.1 as nat, c as nat),
{
    let mut cache: MemoCache<((usize, usize), usize), usize> = MemoCache::new();
    ftup_with(&mut cache, ab, c)
}

/// Two calls share a cache entry exactly when all three coordinates are
/// equal.
pub proof fn lemma_ftup_key_equal_iff(
    ab1: (usize, usize),
    c1: usize,
    ab2: (usize, usize),
    c2: usize,
)
    ensures
        ftup_key(ab1, c1) == ftup_key(ab2, c2)
            <==> (ab1.0 == ab2.0 && ab1.1 == ab2.1 && c1 == c2),
{
}

/// A record argument of two fields.
#[derive(Clone, Copy, Debug, PartialEq, Eq, Structural, Hash)]
pub struct Foo {
    pub a: usize,
    pub b: usize,
}

/// Lattice paths on a grid: 1 on the edges where a field is 0, else the sum,
/// with wrapping, of the two neighbours one step closer to them.
pub open spec fn foo_spec(a: nat, b: nat) -> usize
    decreases a + b,
{
    if a == 0 || b == 0 {
        1
    } else {
        wrapping_sum(foo_spec(a, (b - 1) as nat), foo_spec((a - 1) as nat, b))
    }
}

/// The cache key of a call: the record's fields, in declaration order.
pub open spec fn foo_key(x: Foo) -> (usize, usize) {
    (x.a, x.b)
}

/// What the body computes for a key: it never fails.
pub open spec fn foo_fn() -> spec_fn((usize, usize)) -> Option<usize> {
    |k: (usize, usize)| Some(foo_spec(k.0 as nat, k.1 as nat))
}

/// The path count at `x` through `cache`. Only keys with fields each at most
/// those of `x` are added.
pub fn foo_with(cache: &mut MemoCache<(usize, usize), usize>, x: Foo) -> (r: usize)
    requires
        agrees_with(old(cache)@, foo_fn()),
    ensures
        memo_call(foo_fn(), old(cache)@, foo_key(x), Some(r), final(cache)@),
        forall|k: (usize, usize)| #[trigger]
            final(cache)@.contains_key(k) ==> old(cache)@.contains_key(k)
                || (k.0 <= x.a && k.1 <= x.b),
        final(cache)@.len() <= old(cache)@.len() + (x.a + 1) * (x.b + 1),
    decreases x.a + x.b,
{
    let key = (x.a, x.b);
    if let Some(v) = cache.lookup(&key) {
        return v;
    }
    let Foo { a, b } = x;
    let v = if a == 0 || b == 0 {
        1
    } else {
        let y = foo_with(cache, Foo { a, b: b - 1 });
        let z = foo_with(cache, Foo { a: a - 1, b });
        y.wrapping_add(z)
    };
    proof {
        assert(Some(v) == foo_fn()(key));
        lemma_store_keeps_agreement(foo_fn(), cache@, key, v);
    }
    cache.insert(key, v);
    proof {
        old(cache).lemma_finite();
        lemma_foo_entries_bounded(old(cache)@, cache@, x);
    }
    v
}

/// The path count at `x`, computed with a fresh cache.
pub fn foo(x: Foo) -> (r: usize)
    ensures
        r == foo_spec(x.a as nat, x.b as nat),
{
    let mut cache: MemoCache<(usize, usize), usize> = MemoCache::new();
    foo_with(&mut cache, x)
}

/// Two calls share a cache entry exactly when the records are equal field
/// by field.
pub proof fn lemma_foo_key_equal_iff(x: Foo, y: Foo)
    ensures
        foo_key(x) == foo_key(y) <==> (x.a == y.a && x.b == y.b),
{
}

/// The keys `(i, j)` with `j <= b` of row `i`.
spec fn grid_row(i: usize, b: usize) -> Set<(usize, usize)> {
    Set::new(|k: (usize, usize)| k.0 == i && k.1 <= b)
}

/// The keys `(i, j)` with `i <= a` and `j <= b`.
spec fn grid(a: usize, b: usize) -> Set<(usize, usize)> {
    Set::new(|k: (usize, usize)| k.0 <= a && k.1 <= b)
}

proof fn lemma_grid_row_len(i: usize, b: usize)
    ensures
        grid_row(i, b).finite(),
        grid_row(i, b).len() <= b + 1,
    decreases b,
{
    if b == 0 {
        assert(grid_row(i, b) =~= Set::empty().insert((i, 0usize)));
    } else {
        lemma_grid_row_len(i, (b - 1) as usize);
        assert(grid_row(i, b) =~= grid_row(i, (b - 1) as usize).insert((i, b)));
    }
}

proof fn lemma_grid_len(a: usize, b: usize)
    ensures
        grid(a, b).finite(),
        grid(a, b).len() <= (a + 1) * (b + 1),
    decreases a,
{
    lemma_grid_row_len(a, b);
    if a == 0 {
        assert(grid(a, b) =~= grid_row(0, b));
    } else {
        let prev = (a - 1) as usize;
        lemma_grid_len(prev, b);
        assert(grid(a, b) =~= grid(prev, b).union(grid_row(a, b)));
        lemma_len_union(grid(prev, b), grid_row(a, b));
        assert((prev + 1) * (b + 1) + (b + 1) == (a + 1) * (b + 1)) by (nonlinear_arith)
            requires
                prev + 1 == a,
        ;
    }
}

/// An evaluation of the path count at `x` that adds only keys with fields
/// up to those of `x` adds at most `(x.a + 1) * (x.b + 1)` entries: the work
/// grows with the number of distinct keys, not with the number of paths.
pub proof fn lemma_foo_entries_bounded(
    before: Map<(usize, usize), usize>,
    after: Map<(usize, usize), usize>,
    x: Foo,
)
    requires
        before.dom().finite(),
        forall|k: (usize, usize)| #[trigger]
            after.contains_key(k) ==> before.contains_key(k) || (k.0 <= x.a && k.1 <= x.b),
    ensures
        after.len() <= before.len() + (x.a + 1) * (x.b + 1),
{
    lemma_grid_len(x.a, x.b);
    let within = before.dom().union(grid(x.a, x.b));
    lemma_len_union(before.dom(), grid(x.a, x.b));
    assert(after.dom().subset_of(within));
    lemma_len_subset(after.dom(), within);
}

} // verus!
