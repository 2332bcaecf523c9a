//! Folding sequences: the concrete fold scenarios, the derived operations,
//! and the sequence adapters' combination operators.
use naan::alt::{Alt, Plus};
use naan::apply::{Applicative, Apply};
use naan::fold::{Foldable, FoldableIndexed, FoldableOnce};
use naan::functor::Functor;
use naan::monad::Monad;
use naan::semigroup::{Monoid, Semigroup};

#[test]
fn vec_foldl_sum_is_six() {
    let ns: Vec<u64> = vec![1, 2, 3];
    assert_eq!(ns.foldl(|sum: u64, n: u64| sum + n, 0u64), 6);
}

#[test]
fn vec_foldl_empty_returns_seed() {
    let ns: Vec<u64> = Vec::new();
    assert_eq!(ns.foldl(|sum: u64, n: u64| sum + n, 41u64), 41);
}

#[test]
fn vec_foldr_builds_from_the_right() {
    let ns: Vec<u64> = vec![1, 2, 3];
    let r = ns.foldr(|n: u64, acc: Vec<u64>| naan::impls::vec::append(n, acc), Vec::new());
    assert_eq!(r, vec![3, 2, 1]);
}

#[test]
fn vec_fold_idx_sees_positions() {
    let ns: Vec<u64> = vec![10, 11, 12];
    let r = ns.foldl_idx(
        |acc: Vec<(usize, u64)>, i: usize, n: u64| naan::impls::vec::append((i, n), acc),
        Vec::new(),
    );
    assert_eq!(r, vec![(0, 10), (1, 11), (2, 12)]);
    let ns2: Vec<u64> = vec![0, 1, 2];
    ns2.foldr_idx(
        |i: usize, n: u64, acc: ()| {
            assert_eq!(i as u64, n);
            acc
        },
        (),
    );
}

#[test]
fn vec_fmap_and_functor_laws_concrete() {
    let ns: Vec<u64> = vec![1, 2, 3];
    assert_eq!(ns.clone().fmap(|x: u64| x), ns);
    let stepwise = ns.clone().fmap(|x: u64| x + 1).fmap(|x: u64| x * 2);
    let composed = ns.fmap(|x: u64| (x + 1) * 2);
    assert_eq!(stepwise, composed);
    assert_eq!(stepwise, vec![4, 6, 8]);
}

#[test]
fn vec_alt_and_plus_identity() {
    let v: Vec<u64> = vec![1, 2];
    let e: Vec<u64> = Vec::empty();
    assert_eq!(v.clone().alt(e), v);
    let e2: Vec<u64> = Vec::empty();
    assert_eq!(e2.alt(v.clone()), v);
    assert_eq!(vec![1u64].alt(vec![2]), vec![1, 2]);
}

#[test]
fn vec_monoid_concat() {
    let a: Vec<u64> = vec![1];
    let b: Vec<u64> = vec![2, 3];
    assert_eq!(Semigroup::append(a, b), vec![1, 2, 3]);
    let e: Vec<u64> = Monoid::identity();
    assert_eq!(Semigroup::append(e, vec![9u64]), vec![9]);
}

#[test]
fn vec_bind_concatenates() {
    let ns: Vec<u64> = vec![1, 2];
    assert_eq!(ns.bind(|n: u64| vec![n, n * 10]), vec![1, 10, 2, 20]);
    let empty: Vec<u64> = Vec::new();
    assert_eq!(empty.bind(|n: u64| vec![n]), Vec::<u64>::new());
}

#[test]
fn vec_apply_combines_pairwise() {
    let fs = vec![|x: u64| x + 1];
    let r = fs.apply(vec![10u64, 20]);
    assert_eq!(r, vec![11, 21]);
    assert_eq!(Vec::<u64>::pure(5), vec![5]);
}

#[test]
fn vec_derived_folds() {
    let strings: Vec<String> = vec![String::from("a"), String::from("b"), String::from("c")];
    assert_eq!(strings.clone().fold(), String::from("abc"));
    assert_eq!(strings.clone().intercalate(String::from(", ")), String::from("a, b, c"));
    assert_eq!(strings.clone().fold_map(|s: String| s), String::from("abc"));
    assert_eq!(strings.length(), 3);
    assert!(!strings.is_empty());
    assert!(Vec::<u64>::new().is_empty());
    let ns: Vec<u64> = vec![2, 4, 8];
    assert!(!ns.any(|n: &u64| n % 2 == 1));
    assert!(ns.all(|n: &u64| n % 2 == 0));
    assert_eq!(ns.clone().find(|n: &u64| *n > 3), Some(4));
    assert_eq!(ns.find_map(|n: u64| if n > 5 { Some(n + 1) } else { None }), Some(9));
    let nobody: Vec<u64> = Vec::new();
    assert!(!nobody.any(|_n: &u64| true));
    let everybody: Vec<u64> = Vec::new();
    assert!(everybody.all(|_n: &u64| false));
}

#[test]
fn fold_once_defaults() {
    let none: Option<String> = None;
    assert_eq!(none.get_or_default(), String::new());
    assert_eq!(Some(String::from("kept")).get_or_default(), String::from("kept"));
}
