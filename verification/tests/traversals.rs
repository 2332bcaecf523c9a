//! Traversal and sequencing: swapping the container layer with the
//! single-outcome target, and the cross-product into the multi-outcome
//! target.
use naan::traverse::{Sequence, Traversable, TraversableOnce};

#[test]
fn vec_traversal_short_circuits_on_failure() {
    let ns: Vec<u64> = vec![1, 2, 3];
    let r: Result<Vec<u64>, String> = ns.traversem1(|n: u64| {
        if n == 2 {
            Err(String::from("failure"))
        } else {
            Ok(n * 10)
        }
    });
    assert_eq!(r, Err(String::from("failure")));
}

#[test]
fn vec_traversal_collects_successes() {
    let ns: Vec<u64> = vec![1, 3];
    let r: Result<Vec<u64>, String> = ns.traversem1(|n: u64| Ok(n * 10));
    assert_eq!(r, Ok(vec![10, 30]));
}

#[test]
fn vec_sequence_roundtrip_all_ok() {
    let rs: Vec<Result<u64, String>> = vec![Ok(1), Ok(2), Ok(3)];
    assert_eq!(rs.sequence(), Ok(vec![1, 2, 3]));
}

#[test]
fn vec_sequence_failure_is_position_independent() {
    let early: Vec<Result<u64, String>> = vec![Err(String::from("e")), Ok(2)];
    assert_eq!(early.sequence(), Err(String::from("e")));
    let middle: Vec<Result<u64, String>> = vec![Ok(1), Err(String::from("e")), Ok(3)];
    assert_eq!(middle.sequence(), Err(String::from("e")));
    let late: Vec<Result<u64, String>> = vec![Ok(1), Err(String::from("e"))];
    assert_eq!(late.sequence(), Err(String::from("e")));
}

#[test]
fn vec_traversemm_is_the_cross_product() {
    let ns: Vec<u64> = vec![2, 4];
    let table: Vec<Vec<u64>> = ns.traversemm(|n: u64| vec![n * 10, n * 20]);
    assert_eq!(table, vec![vec![20, 40], vec![20, 80], vec![40, 40], vec![40, 80]]);
}

#[test]
fn option_traverse_swaps_layers() {
    let none: Option<u64> = None;
    let r: Result<Option<u64>, String> = none.traverse11(|n: u64| Ok(n));
    assert_eq!(r, Ok(None));
    let some: Option<u64> = Some(4);
    let r2: Result<Option<u64>, String> = some.traverse11(|n: u64| Ok(n * 2));
    assert_eq!(r2, Ok(Some(8)));
    let r3: Result<Option<u64>, String> = some.traverse11(|_n: u64| Err(String::from("no")));
    assert_eq!(r3, Err(String::from("no")));
}

#[test]
fn option_traverse_replicates() {
    let some: Option<u64> = Some(5);
    assert_eq!(some.traverse1m(|_n: u64| vec![1u64, 2]), vec![Some(1), Some(2)]);
    let none: Option<u64> = None;
    assert_eq!(none.traverse1m(|_n: u64| vec![1u64, 2]), vec![None]);
}

#[test]
fn option_sequence_inverts() {
    let s: Option<Result<u64, String>> = Some(Ok(3));
    assert_eq!(s.sequence(), Ok(Some(3)));
    let e: Option<Result<u64, String>> = Some(Err(String::from("x")));
    assert_eq!(e.sequence(), Err(String::from("x")));
    let n: Option<Result<u64, String>> = None;
    assert_eq!(n.sequence(), Ok(None));
}

#[test]
fn result_traverse_carries_errors_through() {
    let ok: Result<u64, u8> = Ok(3);
    let r: Result<Result<u64, u8>, String> = ok.traverse11(|n: u64| Ok(n + 1));
    assert_eq!(r, Ok(Ok(4)));
    let inner_err: Result<u64, u8> = Err(7);
    let r2: Result<Result<u64, u8>, String> = inner_err.traverse11(|n: u64| Ok(n + 1));
    assert_eq!(r2, Ok(Err(7)));
    let r3: Result<Result<u64, u8>, String> = Ok::<u64, u8>(3).traverse11(|_n: u64| {
        Err(String::from("outer"))
    });
    assert_eq!(r3, Err(String::from("outer")));
}
