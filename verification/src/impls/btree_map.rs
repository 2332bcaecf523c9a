//! The ordered-map adapter: a map from machine-integer keys to values, kept
//! sorted by strictly ascending key.  Folds therefore visit values in
//! ascending key order, and insertion keeps the order.
use vstd::prelude::*;

use crate::alt::{Alt, Plus};
use crate::fold::{foldl_graph, foldl_upto, foldr_from, foldr_graph};
use crate::traverse::Traversable;
use crate::fold::{Foldable, FoldableIndexed};
use crate::fun::{F1, F2, F3};
use crate::functor::Functor;
use crate::impls::hash_map::{entries_at, entries_contain, entries_map, entries_traverse_failure, entries_traverse_prefix, values_view};
use crate::semigroup::{Monoid, Semigroup};
use crate::HKT1;

verus! {

/// The ordered map lifted to a one-slot type-constructor marker with a
/// fixed key type.
pub struct BTreeMapValues;

impl<A> HKT1<A> for BTreeMapValues {
    type T = BTreeMap<A>;
}

/// Whether an entry sequence is sorted by strictly ascending key.
pub open spec fn entries_sorted<V>(entries: Seq<(u64, V)>) -> bool {
    forall|i: int, j: int|
        0 <= i < j < entries.len() ==> (#[trigger] entries[i]).0 < (#[trigger] entries[j]).0
}

/// A map from machine-integer keys to values of type `V`, held as an
/// association list sorted by strictly ascending key.
#[derive(Debug, Clone, PartialEq, Eq)]
pub struct BTreeMap<V> {
    /// The key-value entries, sorted by strictly ascending key.
    pub entries: Vec<(u64, V)>,
}

impl<V> BTreeMap<V> {
    /// Well-formedness: the keys ascend strictly (so each occurs at most
    /// once).
    pub open spec fn wf(self) -> bool {
        entries_sorted(self.entries@)
    }

    /// The finite map this value stands for.
    pub open spec fn as_map(self) -> Map<u64, V> {
        entries_map(self.entries@)
    }

    /// Create an empty map.
    pub fn new() -> (r: Self)
        ensures
            r.entries@ == Seq::<(u64, V)>::empty(),
            r.wf(),
    {
        BTreeMap { entries: Vec::new() }
    }
}

/// Insert an entry into an ordered map, replacing the value under an
/// already-present key and splicing a new entry in at its sorted position
/// otherwise.
pub fn insert<V>(k: u64, a: V, m: BTreeMap<V>) -> (r: BTreeMap<V>)
    requires
        m.wf(),
    ensures
        (if entries_contain(m.entries@, k) {
            exists|i: int|
                0 <= i < m.entries@.len() && (#[trigger] m.entries@[i]).0 == k && r.entries@
                    == m.entries@.update(i, (k, a))
        } else {
            exists|i: int|
                0 <= i <= m.entries@.len() && (forall|j: int|
                    0 <= j < i ==> (#[trigger] m.entries@[j]).0 < k) && (forall|j: int|
                    i <= j < m.entries@.len() ==> (#[trigger] m.entries@[j]).0 > k)
                    && r.entries@ == m.entries@.insert(i, (k, a))
        }),
        r.wf(),
{
    let ghost orig = m.entries@;
    let mut m2 = m;
    let mut i: usize = 0;
    while i < m2.entries.len() && m2.entries[i].0 < k
        invariant
            i <= orig.len(),
            m2.entries@ == orig,
            forall|j: int| 0 <= j < i ==> (#[trigger] orig[j]).0 < k,
        decreases orig.len() - i,
    {
        i = i + 1;
    }
    if i < m2.entries.len() && m2.entries[i].0 == k {
        m2.entries.set(i, (k, a));
        proof {
            assert(entries_sorted(m2.entries@));
        }
        m2
    } else {
        proof {
            assert(forall|j: int| i <= j < orig.len() ==> (#[trigger] orig[j]).0 > k) by {
                assert forall|j: int| i <= j < orig.len() implies (#[trigger] orig[j]).0 > k by {
                    if i < orig.len() {
                        assert(orig[i as int].0 != k && orig[i as int].0 >= k);
                        if j > i {
                            assert(orig[i as int].0 < orig[j].0);
                        }
                    }
                }
            }
            assert(!entries_contain(orig, k)) by {
                if entries_contain(orig, k) {
                    let t = choose|t: int| 0 <= t < orig.len() && (#[trigger] orig[t]).0 == k;
                }
            }
        }
        m2.entries.insert(i, (k, a));
        proof {
            assert forall|p: int, q: int|
                0 <= p < q < m2.entries@.len() implies (#[trigger] m2.entries@[p]).0 < (
            #[trigger] m2.entries@[q]).0 by {
                if p < i && q == i {
                } else if p == i && q > i {
                } else if p < i && q > i {
                    assert(m2.entries@[p] == orig[p] && m2.entries@[q] == orig[q - 1]);
                } else if q < i {
                    assert(m2.entries@[p] == orig[p] && m2.entries@[q] == orig[q]);
                } else if p > i {
                    assert(m2.entries@[p] == orig[p - 1] && m2.entries@[q] == orig[q - 1]);
                }
            }
        }
        m2
    }
}

impl<V> BTreeMap<V> {
    /// Traverse the values into the single-outcome target: send each value
    /// through `f` in ascending key order, short-circuiting on the first
    /// failure; on success the keys are kept, in order.
    #[verifier::loop_isolation(false)]
    pub fn traversem1<B, E, F>(self, f: F) -> (r: Result<BTreeMap<B>, E>)
        where
            F: F1<V, Ret = Result<B, E>>,
        requires
            forall|v: V| #[trigger] f.pre1(v),
        ensures
            (match r {
                Ok(m2) => m2.entries@.len() == self.entries@.len() && forall|i: int|
                    0 <= i < self.entries@.len() ==> (#[trigger] m2.entries@[i]).0
                        == self.entries@[i].0 && f.post1(
                        self.entries@[i].1,
                        Result::<B, E>::Ok(m2.entries@[i].1),
                    ),
                Err(e) => entries_traverse_failure(self.entries@, f, e),
            }),
            (self.wf() && r is Ok ==> r->Ok_0.wf()),
    {
        let ghost orig = self.entries@;
        let mut v = self.entries;
        let mut out: Vec<(u64, B)> = Vec::new();
        while v.len() > 0
            invariant
                out@.len() + v@.len() == orig.len(),
                v@ == orig.skip(out@.len() as int),
                forall|t: int|
                    0 <= t < out@.len() ==> (#[trigger] out@[t]).0 == orig[t].0 && f.post1(
                        orig[t].1,
                        Result::<B, E>::Ok(out@[t].1),
                    ),
            decreases v.len(),
        {
            let ghost i = out@.len() as int;
            let p = v.remove(0);
            proof {
                assert(p == orig[i]);
                assert(v@ =~= orig.skip(i + 1));
            }
            match f.call(p.1) {
                Ok(b) => {
                    out.push((p.0, b));
                },
                Err(e) => {
                    proof {
                        let vals = Seq::new(out@.len(), |t: int| out@[t].1);
                        assert(f.post1(orig[i].1, Result::<B, E>::Err(e)));
                        assert(entries_traverse_prefix(orig, f, i, vals));
                        assert(entries_traverse_failure(orig, f, e));
                    }
                    return Err(e);
                },
            }
        }
        Ok(BTreeMap { entries: out })
    }

    /// Traverse the values into the multi-outcome target: one map per
    /// combination of value outcomes, every map keeping this map's keys in
    /// order (beware the combinatorial size on large inputs).
    #[verifier::loop_isolation(false)]
    pub fn traversemm<B, F>(self, f: F) -> (r: Vec<BTreeMap<B>>)
        where
            F: F1<V, Ret = Vec<B>>,
            B: Copy,
        requires
            forall|v: V| #[trigger] f.pre1(v),
        ensures
            (exists|t: Seq<Seq<B>>|
                #[trigger] crate::traverse::product_graph(
                    values_view(self.entries@),
                    crate::impls::vec::bind_fn_rel(f),
                    t,
                ) && r@.len() == t.len() && (forall|k: int|
                    0 <= k < t.len() ==> (#[trigger] r@[k]).entries@.len() == self.entries@.len()
                        && (forall|i: int|
                        0 <= i < self.entries@.len() ==> (#[trigger] r@[k].entries@[i]).0
                            == self.entries@[i].0 && r@[k].entries@[i].1 == t[k][i]))),
            self.wf() ==> (forall|k: int| 0 <= k < r@.len() ==> (#[trigger] r@[k]).wf()),
    {
        let ghost orig = self.entries@;
        let ghost vv = values_view(orig);
        let mut v = self.entries;
        let mut keys: Vec<u64> = Vec::new();
        let mut vals: Vec<V> = Vec::new();
        while v.len() > 0
            invariant
                keys@.len() == vals@.len(),
                keys@.len() + v@.len() == orig.len(),
                v@ == orig.skip(keys@.len() as int),
                forall|t: int| 0 <= t < keys@.len() ==> (#[trigger] keys@[t]) == orig[t].0,
                forall|t: int| 0 <= t < vals@.len() ==> (#[trigger] vals@[t]) == orig[t].1,
            decreases v.len(),
        {
            let ghost i = keys@.len() as int;
            let p = v.remove(0);
            proof {
                assert(p == orig[i]);
                assert(v@ =~= orig.skip(i + 1));
            }
            keys.push(p.0);
            vals.push(p.1);
        }
        proof {
            assert(vals@ =~= vv);
        }
        let table = vals.traversemm(f);
        let ghost rel = crate::impls::vec::bind_fn_rel(f);
        let ghost rows = crate::traverse::rows_view(table@);
        proof {
            crate::traverse::lemma_product_rows_len(vv, vv.len() as int, rel, rows);
        }
        let mut tv = table;
        let mut out: Vec<BTreeMap<B>> = Vec::new();
        while tv.len() > 0
            invariant
                out@.len() + tv@.len() == rows.len(),
                forall|t: int|
                    0 <= t < tv@.len() ==> (#[trigger] tv@[t])@ == rows[out@.len() + t],
                keys@.len() == orig.len(),
                forall|t: int|
                    0 <= t < keys@.len() ==> (#[trigger] keys@[t]) == orig[t].0,
                forall|k: int| 0 <= k < rows.len() ==> (#[trigger] rows[k]).len() == orig.len(),
                forall|k: int|
                    0 <= k < out@.len() ==> (#[trigger] out@[k]).entries@.len() == orig.len() && (
                    forall|i: int|
                        0 <= i < orig.len() ==> (#[trigger] out@[k].entries@[i]).0 == orig[i].0
                            && out@[k].entries@[i].1 == rows[k][i]),
            decreases tv.len(),
        {
            let ghost k0 = out@.len() as int;
            let ghost tvpre = tv@;
            let row = tv.remove(0);
            proof {
                assert(row == tvpre[0]);
                assert(row@ == rows[k0]);
                assert forall|t: int| 0 <= t < tv@.len() implies (#[trigger] tv@[t])@ == rows[k0 + 1
                    + t] by {
                    assert(tv@[t] == tvpre[t + 1]);
                }
            }
            let mut ents: Vec<(u64, B)> = Vec::new();
            let mut i: usize = 0;
            while i < keys.len()
                invariant
                    i <= keys@.len(),
                    keys@.len() == orig.len(),
                    row@.len() == orig.len(),
                    ents@.len() == i,
                    forall|t: int|
                        0 <= t < i ==> (#[trigger] ents@[t]).0 == keys@[t] && ents@[t].1 == row@[t],
                decreases keys@.len() - i,
            {
                ents.push((keys[i], row[i]));
                i = i + 1;
            }
            out.push(BTreeMap { entries: ents });
        }
        proof {
            assert(crate::traverse::product_graph(vv, rel, rows));
            if self.wf() {
                assert forall|k: int| 0 <= k < out@.len() implies (#[trigger] out@[k]).wf() by {
                    assert(forall|i: int|
                        0 <= i < orig.len() ==> (#[trigger] out@[k].entries@[i]).0 == orig[i].0);
                }
            }
        }
        out
    }
}

impl<V> Functor<BTreeMapValues, V> for BTreeMap<V> {
    #[verifier::loop_isolation(false)]
    fn fmap<B, AB>(self, f: AB) -> (r: <BTreeMapValues as HKT1<B>>::T)
        where
            AB: F1<V, Ret = B>,
        ensures
            r.entries@.len() == self.entries@.len(),
            forall|i: int|
                0 <= i < self.entries@.len() ==> (#[trigger] r.entries@[i]).0 == self.entries@[i].0
                    && f.post1(self.entries@[i].1, r.entries@[i].1),
            self.wf() ==> r.wf(),
    {
        let ghost orig = self.entries@;
        let mut v = self.entries;
        let mut out: Vec<(u64, B)> = Vec::new();
        while v.len() > 0
            invariant
                out@.len() + v@.len() == orig.len(),
                v@ == orig.skip(out@.len() as int),
                forall|t: int|
                    0 <= t < out@.len() ==> (#[trigger] out@[t]).0 == orig[t].0 && f.post1(
                        orig[t].1,
                        out@[t].1,
                    ),
            decreases v.len(),
        {
            let ghost i = out@.len() as int;
            let p = v.remove(0);
            proof {
                assert(p == orig[i]);
                assert(v@ =~= orig.skip(i + 1));
            }
            let b = f.call(p.1);
            out.push((p.0, b));
        }
        BTreeMap { entries: out }
    }
}

impl<V> Foldable<BTreeMapValues, V> for BTreeMap<V> {
    /// The elements are the values, in entry order.
    open spec fn view_elems(self) -> Seq<V> {
        values_view(self.entries@)
    }

    #[verifier::loop_isolation(false)]
    fn foldl<B, BAB>(self, f: BAB, b: B) -> (r: B)
        where
            BAB: F2<B, V, Ret = B>,
    {
        let ghost rel = crate::fold::foldl_fn_rel::<V, B, BAB>(f);
        let ghost vv = values_view(self.entries@);
        let ghost orig = self.entries@;
        let ghost b0 = b;
        let mut v = self.entries;
        let mut acc = b;
        proof {
            assert(vv.skip(0) =~= vv);
        }
        while v.len() > 0
            invariant
                v@.len() <= orig.len(),
                v@ == orig.skip((orig.len() - v@.len()) as int),
                foldl_upto(vv, (orig.len() - v@.len()) as int, rel, b0, acc),
                crate::fold::foldl_ok(vv.skip((orig.len() - v@.len()) as int), f, acc),
            decreases v.len(),
        {
            let ghost i = (orig.len() - v@.len()) as int;
            let ghost suffix = vv.skip(i);
            let p = v.remove(0);
            proof {
                assert(p == orig[i]);
                assert(v@ =~= orig.skip(i + 1));
                assert(suffix[0] == vv[i] && vv[i] == orig[i].1);
            }
            let acc2 = f.call(acc, p.1);
            proof {
                assert(f.post2(acc, suffix[0], acc2));
                assert(rel(acc, vv[i], acc2));
                crate::fold::lemma_foldl_upto_step(vv, i + 1, rel, b0, acc, acc2);
                assert(suffix.drop_first() =~= vv.skip(i + 1));
            }
            acc = acc2;
        }
        acc
    }

    #[verifier::loop_isolation(false)]
    fn foldr<B, ABB>(self, f: ABB, b: B) -> (r: B)
        where
            ABB: F2<V, B, Ret = B>,
    {
        let ghost rel = crate::fold::foldr_fn_rel::<V, B, ABB>(f);
        let ghost vv = values_view(self.entries@);
        let ghost orig = self.entries@;
        let ghost b0 = b;
        let mut v = self.entries;
        let mut acc = b;
        proof {
            assert(vv.take(vv.len() as int) =~= vv);
        }
        while v.len() > 0
            invariant
                v@ == orig.take(v@.len() as int),
                v@.len() <= orig.len(),
                foldr_from(vv, v@.len() as int, rel, b0, acc),
                crate::fold::foldr_ok(vv.take(v@.len() as int), f, acc),
            decreases v.len(),
        {
            let ghost prefix = vv.take(v@.len() as int);
            let p = v.pop().unwrap();
            let ghost i = v@.len() as int;
            proof {
                assert(p == orig[i]);
                assert(v@ =~= orig.take(i));
                assert(prefix.last() == vv[i] && vv[i] == orig[i].1);
            }
            let acc2 = f.call(p.1, acc);
            proof {
                assert(f.post2(prefix.last(), acc, acc2));
                assert(rel(vv[i], acc, acc2));
                crate::fold::lemma_foldr_from_step(vv, i, rel, b0, acc, acc2);
                assert(prefix.drop_last() =~= vv.take(i));
            }
            acc = acc2;
        }
        acc
    }

    #[verifier::loop_isolation(false)]
    fn foldl_ref<'a, B, BAB>(&'a self, f: BAB, b: B) -> (r: B)
        where
            BAB: F2<B, &'a V, Ret = B>,
    {
        let ghost rel = crate::fold::foldl_ref_fn_rel::<V, B, BAB>(f);
        let ghost vv = values_view(self.entries@);
        let ghost b0 = b;
        let mut acc = b;
        let mut i: usize = 0;
        proof {
            assert(vv.skip(0) =~= vv);
        }
        while i < self.entries.len()
            invariant
                i <= self.entries@.len(),
                vv.len() == self.entries@.len(),
                foldl_upto(vv, i as int, rel, b0, acc),
                crate::fold::foldl_ref_ok(vv.skip(i as int), f, acc),
            decreases self.entries@.len() - i,
        {
            let ghost suffix = vv.skip(i as int);
            proof {
                assert(suffix[0] == vv[i as int] && vv[i as int] == self.entries@[i as int].1);
            }
            let p = &self.entries[i];
            let acc2 = f.call(acc, &p.1);
            proof {
                assert(f.post2(acc, &suffix[0], acc2));
                assert(rel(acc, vv[i as int], acc2));
                crate::fold::lemma_foldl_upto_step(vv, i as int + 1, rel, b0, acc, acc2);
                assert(suffix.drop_first() =~= vv.skip(i as int + 1));
            }
            acc = acc2;
            i = i + 1;
        }
        acc
    }

    #[verifier::loop_isolation(false)]
    fn foldr_ref<'a, B, ABB>(&'a self, f: ABB, b: B) -> (r: B)
        where
            ABB: F2<&'a V, B, Ret = B>,
    {
        let ghost rel = crate::fold::foldr_ref_fn_rel::<V, B, ABB>(f);
        let ghost vv = values_view(self.entries@);
        let ghost b0 = b;
        let mut acc = b;
        let mut i: usize = self.entries.len();
        proof {
            assert(vv.take(vv.len() as int) =~= vv);
        }
        while i > 0
            invariant
                i <= self.entries@.len(),
                vv.len() == self.entries@.len(),
                foldr_from(vv, i as int, rel, b0, acc),
                crate::fold::foldr_ref_ok(vv.take(i as int), f, acc),
            decreases i,
        {
            let ghost prefix = vv.take(i as int);
            i = i - 1;
            proof {
                assert(prefix.last() == vv[i as int] && vv[i as int] == self.entries@[i as int].1);
            }
            let p = &self.entries[i];
            let acc2 = f.call(&p.1, acc);
            proof {
                assert(f.post2(&prefix.last(), acc, acc2));
                assert(rel(vv[i as int], acc, acc2));
                crate::fold::lemma_foldr_from_step(vv, i as int, rel, b0, acc, acc2);
                assert(prefix.drop_last() =~= vv.take(i as int));
            }
            acc = acc2;
        }
        acc
    }
}

impl<V> FoldableIndexed<BTreeMapValues, u64, V> for BTreeMap<V> {
    #[verifier::loop_isolation(false)]
    fn foldl_idx<B, BAB>(self, f: BAB, b: B) -> (r: B)
        where
            BAB: F3<B, u64, V, Ret = B>,
        ensures
            foldl_graph(self.entries@, |acc: B, p: (u64, V), o: B| f.post3(acc, p.0, p.1, o), b, r),
    {
        let ghost rel = |acc: B, p: (u64, V), o: B| f.post3(acc, p.0, p.1, o);
        let ghost orig = self.entries@;
        let ghost b0 = b;
        let mut v = self.entries;
        let mut acc = b;
        while v.len() > 0
            invariant
                v@.len() <= orig.len(),
                v@ == orig.skip((orig.len() - v@.len()) as int),
                foldl_upto(orig, (orig.len() - v@.len()) as int, rel, b0, acc),
            decreases v.len(),
        {
            let ghost i = (orig.len() - v@.len()) as int;
            let p = v.remove(0);
            proof {
                assert(p == orig[i]);
                assert(v@ =~= orig.skip(i + 1));
            }
            let acc2 = f.call(acc, p.0, p.1);
            proof {
                assert(rel(acc, orig[i], acc2));
                crate::fold::lemma_foldl_upto_step(orig, i + 1, rel, b0, acc, acc2);
            }
            acc = acc2;
        }
        acc
    }

    #[verifier::loop_isolation(false)]
    fn foldr_idx<B, ABB>(self, f: ABB, b: B) -> (r: B)
        where
            ABB: F3<u64, V, B, Ret = B>,
        ensures
            foldr_graph(self.entries@, |p: (u64, V), acc: B, o: B| f.post3(p.0, p.1, acc, o), b, r),
    {
        let ghost rel = |p: (u64, V), acc: B, o: B| f.post3(p.0, p.1, acc, o);
        let ghost orig = self.entries@;
        let ghost b0 = b;
        let mut v = self.entries;
        let mut acc = b;
        while v.len() > 0
            invariant
                v@ == orig.take(v@.len() as int),
                v@.len() <= orig.len(),
                foldr_from(orig, v@.len() as int, rel, b0, acc),
            decreases v.len(),
        {
            let p = v.pop().unwrap();
            let ghost i = v@.len() as int;
            proof {
                assert(p == orig[i]);
                assert(v@ =~= orig.take(i));
            }
            let acc2 = f.call(p.0, p.1, acc);
            proof {
                assert(rel(orig[i], acc, acc2));
                crate::fold::lemma_foldr_from_step(orig, i, rel, b0, acc, acc2);
            }
            acc = acc2;
        }
        acc
    }

    #[verifier::loop_isolation(false)]
    fn foldl_idx_ref<'a, B, BAB>(&'a self, f: BAB, b: B) -> (r: B)
        where
            BAB: F3<B, u64, &'a V, Ret = B>,
        ensures
            foldl_graph(self.entries@, |acc: B, p: (u64, V), o: B| f.post3(acc, p.0, &p.1, o), b, r),
    {
        let ghost rel = |acc: B, p: (u64, V), o: B| f.post3(acc, p.0, &p.1, o);
        let ghost b0 = b;
        let mut acc = b;
        let mut i: usize = 0;
        while i < self.entries.len()
            invariant
                i <= self.entries@.len(),
                foldl_upto(self.entries@, i as int, rel, b0, acc),
            decreases self.entries@.len() - i,
        {
            let p = &self.entries[i];
            let acc2 = f.call(acc, p.0, &p.1);
            proof {
                assert(rel(acc, self.entries@[i as int], acc2));
                crate::fold::lemma_foldl_upto_step(self.entries@, i as int + 1, rel, b0, acc, acc2);
            }
            acc = acc2;
            i = i + 1;
        }
        acc
    }

    #[verifier::loop_isolation(false)]
    fn foldr_idx_ref<'a, B, ABB>(&'a self, f: ABB, b: B) -> (r: B)
        where
            ABB: F3<u64, &'a V, B, Ret = B>,
        ensures
            foldr_graph(self.entries@, |p: (u64, V), acc: B, o: B| f.post3(p.0, &p.1, acc, o), b, r),
    {
        let ghost rel = |p: (u64, V), acc: B, o: B| f.post3(p.0, &p.1, acc, o);
        let ghost b0 = b;
        let mut acc = b;
        let mut i: usize = self.entries.len();
        while i > 0
            invariant
                i <= self.entries@.len(),
                foldr_from(self.entries@, i as int, rel, b0, acc),
            decreases i,
        {
            i = i - 1;
            let p = &self.entries[i];
            let acc2 = f.call(p.0, &p.1, acc);
            proof {
                assert(rel(self.entries@[i as int], acc, acc2));
                crate::fold::lemma_foldr_from_step(self.entries@, i as int, rel, b0, acc, acc2);
            }
            acc = acc2;
        }
        acc
    }
}


/// Whether an entry sequence holds the given entry, key and value alike.
pub open spec fn has_entry<V>(s: Seq<(u64, V)>, p: (u64, V)) -> bool {
    exists|j: int| 0 <= j < s.len() && #[trigger] s[j] == p
}

/// Two entry sequences hold the same keys with the same values.
pub open spec fn same_content<V>(x: Seq<(u64, V)>, y: Seq<(u64, V)>) -> bool {
    (forall|k: u64| #[trigger] entries_contain(x, k) <==> entries_contain(y, k)) && (forall|k: u64|
        #[trigger] entries_contain(x, k) ==> entries_at(x, k) == entries_at(y, k))
}

/// In a sorted entry sequence, looking a held entry's key up yields its
/// value.
proof fn lemma_at_entry<V>(s: Seq<(u64, V)>, j: int)
    requires
        entries_sorted(s),
        0 <= j < s.len(),
    ensures
        entries_contain(s, s[j].0),
        entries_at(s, s[j].0) == s[j].1,
{
    assert(entries_contain(s, s[j].0));
    let t = choose|t: int| 0 <= t < s.len() && (#[trigger] s[t]).0 == s[j].0;
    if t < j {
        assert(s[t].0 < s[j].0);
    } else if t > j {
        assert(s[j].0 < s[t].0);
    }
}

/// The left-biased union relation pins the content: combining the same
/// operands twice yields the same keys and values.
proof fn lemma_union_content<V>(a: BTreeMap<V>, b: BTreeMap<V>, r1: BTreeMap<V>, r2: BTreeMap<V>)
    requires
        a.is_alt(b, r1),
        a.is_alt(b, r2),
    ensures
        same_content(r1.entries@, r2.entries@),
{
    let sa = a.entries@;
    let sb = b.entries@;
    assert forall|k: u64| #[trigger] entries_contain(r1.entries@, k) implies entries_at(
        r1.entries@,
        k,
    ) == entries_at(r2.entries@, k) by {
        if entries_contain(sa, k) {
            let i = choose|i: int| 0 <= i < sa.len() && (#[trigger] sa[i]).0 == k;
            assert(has_entry(r1.entries@, sa[i]) && has_entry(r2.entries@, sa[i]));
            let j1 = choose|j: int| 0 <= j < r1.entries@.len() && #[trigger] r1.entries@[j] == sa[i];
            let j2 = choose|j: int| 0 <= j < r2.entries@.len() && #[trigger] r2.entries@[j] == sa[i];
            lemma_at_entry(r1.entries@, j1);
            lemma_at_entry(r2.entries@, j2);
        } else {
            assert(entries_contain(sb, k));
            let i = choose|i: int| 0 <= i < sb.len() && (#[trigger] sb[i]).0 == k;
            assert(has_entry(r1.entries@, sb[i]) && has_entry(r2.entries@, sb[i]));
            let j1 = choose|j: int| 0 <= j < r1.entries@.len() && #[trigger] r1.entries@[j] == sb[i];
            let j2 = choose|j: int| 0 <= j < r2.entries@.len() && #[trigger] r2.entries@[j] == sb[i];
            lemma_at_entry(r1.entries@, j1);
            lemma_at_entry(r2.entries@, j2);
        }
    }
}

impl<V> Alt<BTreeMapValues, V> for BTreeMap<V> {
    /// Two ordered maps are interchangeable when they hold the same keys
    /// with the same values.
    open spec fn alt_eq(self, other: Self) -> bool {
        same_content(self.entries@, other.entries@)
    }

    /// A value is well formed when its keys ascend strictly.
    open spec fn alt_valid(self) -> bool {
        self.wf()
    }

    /// Both operands must be well formed.
    open spec fn alt_req(self, b: Self) -> bool {
        self.wf() && b.wf()
    }

    /// The left-biased union: the result holds exactly the keys of the two
    /// operands, every entry of `self`, and every entry of `b` whose key
    /// `self` does not hold.
    open spec fn is_alt(self, b: Self, r: Self) -> bool {
        self.wf() && b.wf() && r.wf() && (forall|k: u64|
            #[trigger] entries_contain(r.entries@, k) <==> entries_contain(self.entries@, k)
                || entries_contain(b.entries@, k)) && (forall|i: int|
            0 <= i < self.entries@.len() ==> has_entry(r.entries@, #[trigger] self.entries@[i]))
            && (forall|i: int|
            0 <= i < b.entries@.len() && !entries_contain(
                self.entries@,
                (#[trigger] b.entries@[i]).0,
            ) ==> has_entry(r.entries@, b.entries@[i]))
    }

    proof fn lemma_alt_eq_refl(self) {
    }

    proof fn lemma_alt_deterministic(a: Self, b: Self, r1: Self, r2: Self) {
        lemma_union_content(a, b, r1, r2);
    }

    proof fn lemma_alt_assoc(a: Self, b: Self, c: Self, ab: Self, bc: Self, ab_c: Self, a_bc: Self) {
        let sa = a.entries@;
        let sb = b.entries@;
        let sc = c.entries@;
        assert forall|k: u64| #[trigger] entries_contain(ab_c.entries@, k) implies entries_at(
            ab_c.entries@,
            k,
        ) == entries_at(a_bc.entries@, k) by {
            if entries_contain(sa, k) {
                let i = choose|i: int| 0 <= i < sa.len() && (#[trigger] sa[i]).0 == k;
                assert(has_entry(ab.entries@, sa[i]));
                let j = choose|j: int| 0 <= j < ab.entries@.len() && #[trigger] ab.entries@[j] == sa[i];
                assert(has_entry(ab_c.entries@, ab.entries@[j]));
                let j1 = choose|t: int|
                    0 <= t < ab_c.entries@.len() && #[trigger] ab_c.entries@[t] == sa[i];
                assert(has_entry(a_bc.entries@, sa[i]));
                let j2 = choose|t: int|
                    0 <= t < a_bc.entries@.len() && #[trigger] a_bc.entries@[t] == sa[i];
                lemma_at_entry(ab_c.entries@, j1);
                lemma_at_entry(a_bc.entries@, j2);
            } else if entries_contain(sb, k) {
                let i = choose|i: int| 0 <= i < sb.len() && (#[trigger] sb[i]).0 == k;
                assert(has_entry(ab.entries@, sb[i]));
                let j = choose|j: int| 0 <= j < ab.entries@.len() && #[trigger] ab.entries@[j] == sb[i];
                assert(has_entry(ab_c.entries@, ab.entries@[j]));
                let j1 = choose|t: int|
                    0 <= t < ab_c.entries@.len() && #[trigger] ab_c.entries@[t] == sb[i];
                assert(has_entry(bc.entries@, sb[i]));
                let j3 = choose|t: int| 0 <= t < bc.entries@.len() && #[trigger] bc.entries@[t] == sb[i];
                assert(has_entry(a_bc.entries@, bc.entries@[j3]));
                let j2 = choose|t: int|
                    0 <= t < a_bc.entries@.len() && #[trigger] a_bc.entries@[t] == sb[i];
                lemma_at_entry(ab_c.entries@, j1);
                lemma_at_entry(a_bc.entries@, j2);
            } else {
                assert(entries_contain(sc, k));
                let i = choose|i: int| 0 <= i < sc.len() && (#[trigger] sc[i]).0 == k;
                assert(!entries_contain(ab.entries@, k));
                assert(has_entry(ab_c.entries@, sc[i]));
                let j1 = choose|t: int|
                    0 <= t < ab_c.entries@.len() && #[trigger] ab_c.entries@[t] == sc[i];
                assert(has_entry(bc.entries@, sc[i]));
                let j3 = choose|t: int| 0 <= t < bc.entries@.len() && #[trigger] bc.entries@[t] == sc[i];
                assert(has_entry(a_bc.entries@, bc.entries@[j3]));
                let j2 = choose|t: int|
                    0 <= t < a_bc.entries@.len() && #[trigger] a_bc.entries@[t] == sc[i];
                lemma_at_entry(ab_c.entries@, j1);
                lemma_at_entry(a_bc.entries@, j2);
            }
        }
    }

    #[verifier::loop_isolation(false)]
    fn alt(self, b: Self) -> (r: Self) {
        let ghost sa = self.entries@;
        let ghost sb = b.entries@;
        let mut out = self;
        let mut v = b.entries;
        while v.len() > 0
            invariant
                v@.len() <= sb.len(),
                v@ == sb.skip((sb.len() - v@.len()) as int),
                out.wf(),
                forall|k: u64|
                    #[trigger] entries_contain(out.entries@, k) <==> entries_contain(sa, k)
                        || entries_contain(sb.take((sb.len() - v@.len()) as int), k),
                forall|i: int| 0 <= i < sa.len() ==> has_entry(out.entries@, #[trigger] sa[i]),
                forall|i: int|
                    0 <= i < (sb.len() - v@.len()) && !entries_contain(sa, (#[trigger] sb[i]).0)
                        ==> has_entry(out.entries@, sb[i]),
            decreases v.len(),
        {
            let ghost i = (sb.len() - v@.len()) as int;
            let ghost pre = out.entries@;
            let p = v.remove(0);
            proof {
                assert(p == sb[i]);
                assert(v@ =~= sb.skip(i + 1));
                assert(sb.take(i + 1).drop_last() =~= sb.take(i));
            }
            let present = contains_key(&out, p.0);
            if !present {
                out = insert(p.0, p.1, out);
                proof {
                    let pos = choose|t: int|
                        0 <= t <= pre.len() && (forall|j: int|
                            0 <= j < t ==> (#[trigger] pre[j]).0 < p.0) && (forall|j: int|
                            t <= j < pre.len() ==> (#[trigger] pre[j]).0 > p.0) && out.entries@
                            == pre.insert(t, p);
                    assert forall|k: u64| #[trigger] entries_contain(out.entries@, k) implies (
                    entries_contain(sa, k) || entries_contain(sb.take(i + 1), k)) by {
                        let t = choose|t: int|
                            0 <= t < out.entries@.len() && (#[trigger] out.entries@[t]).0 == k;
                        if t < pos {
                            assert(out.entries@[t] == pre.insert(pos, p)[t]);
                            assert(pre[t].0 == k);
                        } else if t > pos {
                            assert(out.entries@[t] == pre.insert(pos, p)[t]);
                            assert(pre[t - 1].0 == k);
                        } else {
                            assert(sb.take(i + 1)[i].0 == k);
                        }
                        if t != pos {
                            assert(entries_contain(pre, k));
                            if !entries_contain(sa, k) {
                                assert(entries_contain(sb.take(i), k));
                                let u = choose|u: int|
                                    0 <= u < sb.take(i).len() && (#[trigger] sb.take(i)[u]).0 == k;
                                assert(sb.take(i + 1)[u].0 == k);
                            }
                        }
                    }
                    assert forall|k: u64|
                        entries_contain(sa, k) || entries_contain(
                            sb.take(i + 1),
                            k,
                        ) implies #[trigger] entries_contain(out.entries@, k) by {
                        if entries_contain(pre, k) {
                            let t = choose|t: int| 0 <= t < pre.len() && (#[trigger] pre[t]).0 == k;
                            if t < pos {
                                assert(out.entries@[t].0 == k);
                            } else {
                                assert(out.entries@[t + 1].0 == k);
                            }
                        } else {
                            assert(k == p.0);
                            assert(out.entries@[pos].0 == k);
                        }
                    }
                    assert forall|q: (u64, V)| has_entry(pre, q) implies has_entry(
                        out.entries@,
                        q,
                    ) by {
                        let t = choose|t: int| 0 <= t < pre.len() && #[trigger] pre[t] == q;
                        if t < pos {
                            assert(out.entries@[t] == q);
                        } else {
                            assert(out.entries@[t + 1] == q);
                        }
                    }
                    assert(out.entries@[pos] == p);
                    assert(has_entry(out.entries@, p));
                }
            } else {
                proof {
                    assert(entries_contain(sa, p.0)) by {
                        if !entries_contain(sa, p.0) {
                            assert(entries_contain(sb.take(i), p.0));
                            let t = choose|t: int|
                                0 <= t < sb.take(i).len() && (#[trigger] sb.take(i)[t]).0 == p.0;
                            assert(sb[t].0 == p.0 && t < i && sb[i].0 == p.0);
                        }
                    }
                }
            }
        }
        proof {
            assert(sb.take(sb.len() as int) =~= sb);
        }
        out
    }
}

/// Whether the map holds the given key.
fn contains_key<V>(m: &BTreeMap<V>, k: u64) -> (r: bool)
    ensures
        r == entries_contain(m.entries@, k),
{
    let mut i: usize = 0;
    while i < m.entries.len()
        invariant
            i <= m.entries@.len(),
            forall|t: int| 0 <= t < i ==> (#[trigger] m.entries@[t]).0 != k,
        decreases m.entries@.len() - i,
    {
        if m.entries[i].0 == k {
            proof {
                assert(entries_contain(m.entries@, k));
            }
            return true;
        }
        i = i + 1;
    }
    false
}

impl<V> Plus<BTreeMapValues, V> for BTreeMap<V> {
    /// The empty map.
    open spec fn is_empty_val(x: Self) -> bool {
        x.entries@ == Seq::<(u64, V)>::empty()
    }

    proof fn lemma_empty_altable(x: Self, e: Self) {
    }

    proof fn lemma_empty_alt_right(x: Self, e: Self, r: Self) {
        lemma_union_one_sided(x, e, r);
    }

    proof fn lemma_empty_alt_left(x: Self, e: Self, r: Self) {
        let sx = x.entries@;
        assert forall|k: u64| #[trigger] entries_contain(r.entries@, k) implies entries_at(
            r.entries@,
            k,
        ) == entries_at(sx, k) by {
            assert(entries_contain(sx, k));
            let i = choose|i: int| 0 <= i < sx.len() && (#[trigger] sx[i]).0 == k;
            assert(has_entry(r.entries@, sx[i]));
            let j = choose|j: int| 0 <= j < r.entries@.len() && #[trigger] r.entries@[j] == sx[i];
            lemma_at_entry(r.entries@, j);
            lemma_at_entry(sx, i);
        }
    }

    fn empty() -> (r: Self) {
        BTreeMap { entries: Vec::new() }
    }
}

/// Combining with an empty right operand keeps the left operand's content.
proof fn lemma_union_one_sided<V>(x: BTreeMap<V>, e: BTreeMap<V>, r: BTreeMap<V>)
    requires
        x.is_alt(e, r),
        e.entries@ == Seq::<(u64, V)>::empty(),
    ensures
        same_content(r.entries@, x.entries@),
{
    let sx = x.entries@;
    assert forall|k: u64| #[trigger] entries_contain(r.entries@, k) implies entries_at(
        r.entries@,
        k,
    ) == entries_at(sx, k) by {
        assert(entries_contain(sx, k));
        let i = choose|i: int| 0 <= i < sx.len() && (#[trigger] sx[i]).0 == k;
        assert(has_entry(r.entries@, sx[i]));
        let j = choose|j: int| 0 <= j < r.entries@.len() && #[trigger] r.entries@[j] == sx[i];
        lemma_at_entry(r.entries@, j);
        lemma_at_entry(sx, i);
    }
}

impl<V> Semigroup for BTreeMap<V> {
    /// Two ordered maps are interchangeable when they hold the same keys
    /// with the same values.
    open spec fn sem_eq(self, other: Self) -> bool {
        same_content(self.entries@, other.entries@)
    }

    /// A value is well formed when its keys ascend strictly.
    open spec fn sem_valid(self) -> bool {
        self.wf()
    }

    /// Both operands must be well formed.
    open spec fn append_req(self, b: Self) -> bool {
        self.wf() && b.wf()
    }

    /// The combination is the left-biased union.
    open spec fn is_append(self, b: Self, r: Self) -> bool {
        self.is_alt(b, r)
    }

    proof fn lemma_sem_eq_refl(self) {
    }

    proof fn lemma_append_deterministic(a: Self, b: Self, r1: Self, r2: Self) {
        lemma_union_content(a, b, r1, r2);
    }

    proof fn lemma_append_assoc(a: Self, b: Self, c: Self, ab: Self, bc: Self, ab_c: Self, a_bc: Self) {
        Self::lemma_alt_assoc(a, b, c, ab, bc, ab_c, a_bc);
    }

    fn append(self, b: Self) -> (r: Self) {
        self.alt(b)
    }
}

impl<V> Monoid for BTreeMap<V> {
    /// The identity for the union is the empty map.
    open spec fn is_identity(x: Self) -> bool {
        x.entries@ == Seq::<(u64, V)>::empty()
    }

    proof fn lemma_identity_appendable(x: Self, e: Self) {
    }

    proof fn lemma_identity_right(x: Self, e: Self, r: Self) {
        lemma_union_one_sided(x, e, r);
    }

    proof fn lemma_identity_left(x: Self, e: Self, r: Self) {
        <Self as Plus<BTreeMapValues, V>>::lemma_empty_alt_left(x, e, r);
    }

    fn identity() -> (r: Self) {
        BTreeMap { entries: Vec::new() }
    }
}

} // verus!
