use memor::recurrences::{comb, comb_with, fib, fib_with, foo, foo_with, ftup, ftup_with, Foo};
use memor::MemoCache;

#[test]
fn fib_base_cases() {
    assert_eq!(fib(0), 0);
    assert_eq!(fib(1), 1);
    assert_eq!(fib(10), 55);
}

fn naive_fib(n: i64) -> i64 {
    if n <= 1 {
        n
    } else {
        naive_fib(n - 1) + naive_fib(n - 2)
    }
}

#[test]
fn fib_matches_naive_definition() {
    for n in 0..25 {
        assert_eq!(fib(n), naive_fib(n));
    }
}

#[test]
fn fib_largest_that_fits() {
    assert_eq!(fib(92), 7540113804746346429);
}

#[test]
fn repeated_call_is_a_hit() {
    let mut cache = MemoCache::new();
    assert_eq!(fib_with(&mut cache, 30), Some(832040));
    let entries = cache.len();
    assert_eq!(entries, 31);
    assert_eq!(fib_with(&mut cache, 30), Some(832040));
    assert_eq!(cache.len(), entries);
}

#[test]
fn overflow_is_not_cached() {
    let mut cache = MemoCache::new();
    assert_eq!(fib_with(&mut cache, 100), None);
    assert!(!cache.contains(&100));
    assert!(!cache.contains(&93));
    assert_eq!(cache.lookup(&92), Some(7540113804746346429));
    assert_eq!(cache.len(), 93);
    assert_eq!(fib_with(&mut cache, 100), None);
    assert!(!cache.contains(&100));
    assert_eq!(cache.len(), 93);
}

#[test]
fn comb_edges() {
    assert_eq!(comb(7, 0), 1);
    assert_eq!(comb(0, 0), 1);
    assert_eq!(comb(3, 5), 0);
    assert_eq!(comb(5, 2), 10);
}

#[test]
fn comb_overflow_is_not_cached() {
    let mut cache = MemoCache::new();
    assert_eq!(comb_with(&mut cache, 70, 35), None);
    assert!(!cache.contains(&(70, 35)));
    assert_eq!(cache.lookup(&(50, 25)), Some(126410606437752));
}

#[test]
fn keys_differ_in_one_argument() {
    let mut cache = MemoCache::new();
    assert_eq!(comb_with(&mut cache, 6, 3), Some(20));
    assert_eq!(cache.lookup(&(6, 3)), Some(20));
    assert_eq!(cache.lookup(&(6, 2)), None);
    assert_eq!(cache.lookup(&(7, 3)), None);
    assert_eq!(comb_with(&mut cache, 6, 2), Some(15));
    assert_eq!(cache.lookup(&(6, 3)), Some(20));
    assert_eq!(cache.lookup(&(6, 2)), Some(15));
}

#[test]
fn insert_leaves_other_keys() {
    let mut cache: MemoCache<i64, i64> = MemoCache::new();
    assert_eq!(cache.len(), 0);
    assert_eq!(cache.lookup(&1), None);
    cache.insert(1, 10);
    cache.insert(2, 20);
    assert_eq!(cache.lookup(&1), Some(10));
    cache.insert(2, 21);
    assert_eq!(cache.lookup(&1), Some(10));
    assert_eq!(cache.lookup(&2), Some(21));
    assert_eq!(cache.len(), 2);
}

#[test]
fn record_stores_only_success() {
    let mut cache: MemoCache<i64, i64> = MemoCache::new();
    assert_eq!(cache.record(4, None), None);
    assert!(!cache.contains(&4));
    assert_eq!(cache.record(4, Some(9)), Some(9));
    assert_eq!(cache.lookup(&4), Some(9));
}

#[test]
fn ftup_small_values() {
    assert_eq!(ftup((0, 5), 5), 1);
    assert_eq!(ftup((1, 1), 1), 3);
    assert_eq!(ftup((1, 1), 2), 5);
}

#[test]
fn ftup_keys_from_the_pair_and_scalar() {
    let mut cache = MemoCache::new();
    assert_eq!(ftup_with(&mut cache, (1, 1), 1), 3);
    assert_eq!(cache.lookup(&((1, 1), 1)), Some(3));
    assert_eq!(cache.lookup(&((1, 1), 0)), Some(1));
    assert_eq!(cache.lookup(&((1, 1), 2)), None);
}

#[test]
fn foo_small_values() {
    assert_eq!(foo(Foo { a: 0, b: 9 }), 1);
    assert_eq!(foo(Foo { a: 2, b: 2 }), 6);
    assert_eq!(foo(Foo { a: 3, b: 4 }), 35);
}

#[test]
fn foo_entries_bounded_by_grid() {
    let mut cache = MemoCache::new();
    assert_eq!(foo_with(&mut cache, Foo { a: 50, b: 50 }), 1184508333840160104);
    assert!(cache.len() <= 51 * 51);
    assert_eq!(cache.len(), 51 * 51 - 1);
}
