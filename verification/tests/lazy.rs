//! The lazy computation engine: construction performs no side effect;
//! executing the chain performs each wrapped effect exactly once, in
//! composition order, and yields the composed value.
use std::cell::RefCell;

use naan::io::{ApplicativeSurrogate, ApplySurrogate, FunctorSurrogate, IOLike, MonadSurrogate, IO};

#[test]
fn pure_executes_to_its_value() {
    let io = IO::pure(42u64);
    assert_eq!(io.exec(), 42);
}

#[test]
fn suspend_defers_until_exec() {
    let calls = RefCell::new(0u64);
    let io = IO::suspend(|_u: ()| {
        *calls.borrow_mut() += 1;
        7u64
    });
    assert_eq!(*calls.borrow(), 0);
    assert_eq!(io.exec(), 7);
    assert_eq!(*calls.borrow(), 1);
}

#[test]
fn chain_runs_each_effect_once_in_order() {
    let log: RefCell<Vec<u64>> = RefCell::new(Vec::new());
    let argument = IO::suspend(|_u: ()| {
        log.borrow_mut().push(1);
        3u64
    }).map_(|x: u64| {
        log.borrow_mut().push(2);
        x + 1
    }).bind_(|x: u64| {
        log.borrow_mut().push(3);
        IO::pure(x * 2)
    });
    let function = IO::suspend(|_u: ()| {
        log.borrow_mut().push(4);
        |y: u64| y + 5
    });
    let whole = function.apply_(argument);
    // construction performed no observable side effect
    assert_eq!(log.borrow().len(), 0);
    let out = whole.exec();
    // ((3 + 1) * 2) + 5, function node first, then the argument chain
    assert_eq!(out, 13);
    assert_eq!(*log.borrow(), vec![4, 1, 2, 3]);
}

#[test]
fn surrogate_pure_lifts() {
    let io: IO<u64> = <IO<u64> as ApplicativeSurrogate<u64>>::pure(9);
    assert_eq!(io.exec(), 9);
}

#[test]
fn map_transforms_the_result() {
    let io = IO::pure(10u64).map_(|x: u64| x * 3);
    assert_eq!(io.exec(), 30);
}

#[test]
fn bind_sequences_dependently() {
    let io = IO::pure(2u64).bind_(|x: u64| IO::suspend(move |_u: ()| x + 100));
    assert_eq!(io.exec(), 102);
}
