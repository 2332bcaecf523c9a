//! The map adapters: insertion, mapping over values, folding, and the
//! left-biased union.
use naan::alt::{Alt, Plus};
use naan::fold::{Foldable, FoldableIndexed};
use naan::functor::Functor;
use naan::impls::btree_map;
use naan::impls::btree_map::BTreeMap;
use naan::impls::hash_map;
use naan::impls::hash_map::HashMap;
use naan::semigroup::{Monoid, Semigroup};

fn unordered(pairs: &[(u64, i64)]) -> HashMap<i64> {
    let mut m = HashMap::new();
    for p in pairs {
        m = hash_map::insert(p.0, p.1, m);
    }
    m
}

fn ordered(pairs: &[(u64, i64)]) -> BTreeMap<i64> {
    let mut m = BTreeMap::new();
    for p in pairs {
        m = btree_map::insert(p.0, p.1, m);
    }
    m
}

#[test]
fn hash_map_alt_is_left_biased() {
    let a = unordered(&[(1, 1), (2, 2)]);
    let b = unordered(&[(2, 3), (3, 4)]);
    let union = a.alt(b);
    assert_eq!(union.entries, vec![(1, 1), (2, 2), (3, 4)]);
}

#[test]
fn hash_map_plus_identity() {
    let a = unordered(&[(5, 50)]);
    let e: HashMap<i64> = HashMap::empty();
    assert_eq!(a.clone().alt(e), a);
    let e2: HashMap<i64> = HashMap::empty();
    assert_eq!(e2.alt(a.clone()), a);
    let e3: HashMap<i64> = Monoid::identity();
    assert_eq!(Semigroup::append(a.clone(), e3), a);
}

#[test]
fn hash_map_insert_replaces() {
    let m = unordered(&[(1, 1), (2, 2)]);
    let m2 = hash_map::insert(1, 10, m);
    assert_eq!(m2.entries, vec![(1, 10), (2, 2)]);
}

#[test]
fn hash_map_fmap_and_folds() {
    let m = unordered(&[(1, 2), (2, 5)]);
    let doubled = m.clone().fmap(|v: i64| v * 2);
    assert_eq!(doubled.entries, vec![(1, 4), (2, 10)]);
    assert_eq!(m.clone().foldl(|acc: i64, v: i64| acc + v, 0), 7);
    assert_eq!(m.foldl_idx(|acc: u64, k: u64, _v: i64| acc + k, 0u64), 3);
}

#[test]
fn btree_map_insert_keeps_keys_sorted() {
    let m = ordered(&[(9, 90), (1, 10), (5, 50)]);
    assert_eq!(m.entries, vec![(1, 10), (5, 50), (9, 90)]);
    let m2 = btree_map::insert(5, 55, m);
    assert_eq!(m2.entries, vec![(1, 10), (5, 55), (9, 90)]);
}

#[test]
fn btree_map_alt_is_left_biased_union() {
    let a = ordered(&[(1, 1), (2, 2)]);
    let b = ordered(&[(2, 3), (3, 4)]);
    let union = a.alt(b);
    assert_eq!(union.entries, vec![(1, 1), (2, 2), (3, 4)]);
}

#[test]
fn btree_map_folds_ascend_by_key() {
    let m = ordered(&[(3, 30), (1, 10), (2, 20)]);
    let seen = m.clone().foldl(
        |acc: Vec<i64>, v: i64| naan::impls::vec::append(v, acc),
        Vec::new(),
    );
    assert_eq!(seen, vec![10, 20, 30]);
    assert_eq!(m.clone().foldr(|v: i64, acc: i64| acc * 100 + v, 0), 302010);
    let doubled = m.fmap(|v: i64| v + 1);
    assert_eq!(doubled.entries, vec![(1, 11), (2, 21), (3, 31)]);
}

#[test]
fn map_traversal_short_circuits() {
    let m = unordered(&[(1, 2), (2, 5)]);
    let ok: Result<HashMap<i64>, String> = m.clone().traversem1(|v: i64| Ok(v * 10));
    assert_eq!(ok.unwrap().entries, vec![(1, 20), (2, 50)]);
    let err: Result<HashMap<i64>, String> = m.traversem1(|v: i64| {
        if v == 5 {
            Err(String::from("five"))
        } else {
            Ok(v)
        }
    });
    assert_eq!(err, Err(String::from("five")));
    let b = ordered(&[(2, 5), (1, 2)]);
    let ok2: Result<BTreeMap<i64>, String> = b.traversem1(|v: i64| Ok(v + 1));
    assert_eq!(ok2.unwrap().entries, vec![(1, 3), (2, 6)]);
}

#[test]
fn map_traversal_cross_product() {
    let m = unordered(&[(1, 2), (2, 3)]);
    let table: Vec<HashMap<i64>> = m.traversemm(|v: i64| vec![v, v * 10]);
    let expected: Vec<Vec<(u64, i64)>> = vec![
        vec![(1, 2), (2, 3)],
        vec![(1, 2), (2, 30)],
        vec![(1, 20), (2, 3)],
        vec![(1, 20), (2, 30)],
    ];
    assert_eq!(table.len(), expected.len());
    for k in 0..table.len() {
        assert_eq!(table[k].entries, expected[k]);
    }
    let b = ordered(&[(7, 1)]);
    let table2: Vec<BTreeMap<i64>> = b.traversemm(|v: i64| vec![v + 1, v + 2]);
    assert_eq!(table2.len(), 2);
    assert_eq!(table2[0].entries, vec![(7, 2)]);
    assert_eq!(table2[1].entries, vec![(7, 3)]);
}

#[test]
fn btree_map_plus_identity() {
    let a = ordered(&[(4, 40), (6, 60)]);
    let e: BTreeMap<i64> = BTreeMap::empty();
    assert_eq!(a.clone().alt(e), a);
    let e2: BTreeMap<i64> = BTreeMap::empty();
    assert_eq!(e2.alt(a.clone()), a);
}
