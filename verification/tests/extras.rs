//! Smaller corners: flattening, the two-slot wrapper, lifted borrowing, and
//! the fixed-capacity boundary.
use naan::alt::Alt;
use naan::apply::Applicative;
use naan::bifunctor::Join;
use naan::fun::{call_deref, F1Once};
use naan::impls::result::ResultHkt;
use naan::impls::tinyvec::ArrayVec;
use naan::monad::Monad;
use naan::semigroup::Semigroup;

#[test]
fn option_flatten() {
    let nested: Option<Option<u64>> = Some(Some(3));
    assert_eq!(nested.flatten(), Some(3));
    let inner_none: Option<Option<u64>> = Some(None);
    assert_eq!(inner_none.flatten(), None::<u64>);
    let outer_none: Option<Option<u64>> = None;
    assert_eq!(outer_none.flatten(), None::<u64>);
}

#[test]
fn vec_flatten_concatenates() {
    let nested: Vec<Vec<u64>> = vec![vec![1, 2], vec![], vec![3]];
    assert_eq!(nested.flatten(), vec![1, 2, 3]);
}

#[test]
fn result_flatten() {
    let nested: Result<Result<u64, u8>, u8> = Ok(Ok(5));
    assert_eq!(nested.flatten(), Ok(5));
    let inner_err: Result<Result<u64, u8>, u8> = Ok(Err(3));
    assert_eq!(inner_err.flatten(), Err(3));
    let outer_err: Result<Result<u64, u8>, u8> = Err(9);
    assert_eq!(outer_err.flatten(), Err(9));
}

#[test]
fn append_one_lifts_and_combines() {
    let grown = vec![1u64, 2].append_one(3);
    assert_eq!(grown, vec![1, 2, 3]);
    let o: Option<String> = Some(String::from("ab"));
    assert_eq!(o.append_one(String::from("c")), Some(String::from("abc")));
}

#[test]
fn join_maps_both_slots() {
    let same: Result<u64, u64> = Ok(4);
    let j: Join<ResultHkt, Result<u64, u64>, u64> = Join::join(same);
    let mapped = j.fmap(|x: u64| x + 1);
    assert_eq!(mapped.unjoin(), Ok::<u64, u64>(5));
    let err_side: Result<u64, u64> = Err(7);
    let j2: Join<ResultHkt, Result<u64, u64>, u64> = Join::join(err_side);
    assert_eq!(j2.fmap(|x: u64| x * 2).unjoin(), Err::<u64, u64>(14));
}

#[test]
fn call_deref_borrows_the_owned_value() {
    let v: Vec<u64> = vec![1, 2, 3];
    let len = call_deref(|s: &[u64]| s.len(), v);
    assert_eq!(len, 3);
    let text = String::from("hi");
    let upper = call_deref(|s: &str| s.to_uppercase(), text);
    assert_eq!(upper, "HI");
}

#[test]
fn fixed_capacity_combines_exactly_to_the_brim() {
    let a: ArrayVec<u32, 4> = ArrayVec { elems: vec![1, 2] };
    let b: ArrayVec<u32, 4> = ArrayVec { elems: vec![3, 4] };
    let full = a.alt(b);
    assert_eq!(full.elems, vec![1, 2, 3, 4]);
    let c: ArrayVec<u32, 4> = ArrayVec { elems: vec![9] };
    let joined = Semigroup::append(c, ArrayVec { elems: vec![8] });
    assert_eq!(joined.elems, vec![9, 8]);
}

#[test]
fn chained_callables_compose() {
    let add_then_show = naan::fun::compose::Compose::compose(
        |x: u64| x + 1,
        |y: u64| format!("{}", y),
    );
    assert_eq!(add_then_show.call1(41), "42");
}
