//! Currying and composition: supplying arguments one at a time matches the
//! direct call, uncurrying recovers the original callable, and composition
//! pipes one callable's output into the next.
use naan::fun::compose::Compose;
use naan::fun::curry2;
use naan::fun::curry3;
use naan::apply::ApplyOnce;
use naan::fun::{tuple2, tuple3, F1, F1Once, F2Once, F3Once};

#[test]
fn curry2_roundtrip() {
    let f = |a: u64, b: u64| a * 10 + b;
    // uncurry recovers the original callable
    let back = curry2::Applied0::<_, u64, u64, u64>::curry(f).uncurry();
    assert_eq!(back.call1(4, 2), f(4, 2));
    // supplying both arguments one at a time matches the direct call
    let curried = curry2::Applied0::curry(f);
    assert_eq!(curried.call1(4).call1(2), f(4, 2));
    assert_eq!(f(4, 2), 42);
}

#[test]
fn curry2_repeatable_partial_application() {
    let f = |a: u64, b: u64| a - b;
    let curried = curry2::Applied0::curry(f);
    let minus_from_ten = curried.call(10);
    assert_eq!(minus_from_ten.call(3), 7);
    assert_eq!(minus_from_ten.call(4), 6);
}

#[test]
fn curry3_roundtrip() {
    let f = |a: u64, b: u64, c: u64| a * 100 + b * 10 + c;
    let back = curry3::Applied0::<_, u64, u64, u64, u64>::curry(f).uncurry();
    assert_eq!(back.call1(1, 2, 3), f(1, 2, 3));
    let curried = curry3::Applied0::curry(f);
    assert_eq!(curried.call1(1).call1(2).call1(3), 123);
    let curried2 = curry3::Applied0::curry(f);
    assert_eq!(curried2.call(9).call(8).call(7), f(9, 8, 7));
}

#[test]
fn compose_pipes_left_to_right() {
    let h = Compose::compose(|x: u64| x + 1, |y: u64| y * 2);
    assert_eq!(h.call(3), 8);
    let longer = Compose::compose(|x: u64| x + 1, |y: u64| y * 2).chain(|z: u64| z + 100);
    assert_eq!(longer.call1(3), 108);
}

#[test]
fn tuples_collect_arguments() {
    assert_eq!(tuple2(1u8, "x"), (1, "x"));
    assert_eq!(tuple3(1u8, 2u16, 3u32), (1, 2, 3));
}

#[test]
fn curried_tuple_through_apply() {
    let paired = Some(curry2::Applied0::curry(tuple2::<u64, u64>))
        .apply1(Some(1u64))
        .apply1(Some(2u64));
    assert_eq!(paired, Some((1, 2)));
}
