//! The fixed-capacity sequence adapter.
use naan::alt::Plus;
use naan::fold::Foldable;
use naan::functor::Functor;
use naan::impls::tinyvec::ArrayVec;
use naan::semigroup::Semigroup;
use naan::traverse::Sequence;

#[test]
fn tinyvec() {
    type V = ArrayVec<u32, 32>;

    let v = V::empty();
    assert_eq!(v, V::default());

    let v = v.append(V::pure(1)).append(V::pure(2)).append(V::pure(3));
    assert_eq!(v.elems, vec![1, 2, 3]);

    let sum = v.clone().foldl(|sum: u32, n: u32| sum + n, 0u32);
    assert_eq!(sum, 6);

    type R = Result<u32, ()>;
    type RV = ArrayVec<R, 32>;

    let rv = RV::empty().append(RV::pure(R::Ok(1))).append(RV::pure(R::Ok(2)));
    assert_eq!(rv.sequence(), Result::<V, ()>::Ok(ArrayVec { elems: vec![1, 2] }));
}

#[test]
fn fixed_capacity_fmap_and_append_fn() {
    let v: ArrayVec<u32, 4> = ArrayVec { elems: vec![1, 2] };
    let doubled = v.fmap(|x: u32| x * 2);
    assert_eq!(doubled.elems, vec![2, 4]);
    let grown = naan::impls::tinyvec::append(9u32, doubled);
    assert_eq!(grown.elems, vec![2, 4, 9]);
}

#[test]
fn fixed_capacity_bind_truncates_to_capacity() {
    let v: ArrayVec<u32, 3> = ArrayVec { elems: vec![1, 2] };
    let r = v.bind(|n: u32| vec![n, n * 10]);
    assert_eq!(r.elems, vec![1, 10, 2]);
}

#[test]
fn fixed_capacity_apply_with_table() {
    let fs: ArrayVec<fn(u32) -> u32, 8> = ArrayVec { elems: vec![add_one, triple] };
    let args: ArrayVec<u32, 8> = ArrayVec { elems: vec![10, 20] };
    let r = fs.apply_with(args, |x: &u32| *x);
    assert_eq!(r.elems, vec![11, 21, 30, 60]);
}

fn add_one(x: u32) -> u32 {
    x + 1
}

fn triple(x: u32) -> u32 {
    x * 3
}
