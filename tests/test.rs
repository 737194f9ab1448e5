use memor::recurrences::{comb, fib, foo, ftup, Foo};

#[test]
fn test_fib() {
    assert_eq!(12586269025, fib(50));
}

#[test]
fn test_comb() {
    assert_eq!(126410606437752, comb(50, 25));
}

#[test]
fn test_ftup() {
    assert_eq!(ftup((30, 30), 30), 16767162301104664577);
}

#[test]
fn test_foo() {
    assert_eq!(foo(Foo { a: 50, b: 50 }), 1184508333840160104);
}
