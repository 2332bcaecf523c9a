//! The unordered-map adapter: a map from machine-integer keys to values,
//! kept in insertion order, with distinct keys as its invariant.  Combining
//! two maps (`alt`/`append`) is a left-biased union: on a key collision the
//! first operand's value wins.
use vstd::prelude::*;

use crate::alt::{Alt, Plus};
use crate::fold::{foldl_graph, foldl_upto, foldr_from, foldr_graph};
use crate::traverse::Traversable;
use crate::fold::{Foldable, FoldableIndexed};
use crate::fun::{F1, F2, F3};
use crate::functor::Functor;
use crate::semigroup::{Monoid, Semigroup};
use crate::HKT1;

verus! {

/// The unordered map lifted to a one-slot type-constructor marker with a
/// fixed key type.
pub struct HashMapValues;

impl<A> HKT1<A> for HashMapValues {
    type T = HashMap<A>;
}

/// A map from machine-integer keys to values of type `V`, held as an
/// association list in insertion order.
#[derive(Debug, Clone, PartialEq, Eq)]
pub struct HashMap<V> {
    /// The key-value entries, each key occurring at most once.
    pub entries: Vec<(u64, V)>,
}

/// The values of an entry sequence, in entry order.
pub open spec fn values_view<V>(entries: Seq<(u64, V)>) -> Seq<V> {
    Seq::new(entries.len(), |i: int| entries[i].1)
}

/// Whether an entry sequence holds a given key.
pub open spec fn entries_contain<V>(entries: Seq<(u64, V)>, k: u64) -> bool {
    exists|i: int| 0 <= i < entries.len() && (#[trigger] entries[i]).0 == k
}

/// Whether an entry sequence holds each key at most once.
pub open spec fn entries_distinct<V>(entries: Seq<(u64, V)>) -> bool {
    forall|i: int, j: int|
        0 <= i < j < entries.len() ==> (#[trigger] entries[i]).0 != (#[trigger] entries[j]).0
}

/// The value an entry sequence holds under a given key.
pub open spec fn entries_at<V>(entries: Seq<(u64, V)>, k: u64) -> V {
    entries[choose|i: int| 0 <= i < entries.len() && (#[trigger] entries[i]).0 == k].1
}

/// The finite map an entry sequence stands for.
pub open spec fn entries_map<V>(entries: Seq<(u64, V)>) -> Map<u64, V> {
    Map::new(|k: u64| entries_contain(entries, k), |k: u64| entries_at(entries, k))
}

impl<V> HashMap<V> {
    /// Well-formedness: each key occurs at most once.
    pub open spec fn wf(self) -> bool {
        entries_distinct(self.entries@)
    }

    /// The finite map this value stands for.
    pub open spec fn as_map(self) -> Map<u64, V> {
        entries_map(self.entries@)
    }

    /// Create an empty map.
    pub fn new() -> (r: Self)
        ensures
            r.entries@ == Seq::<(u64, V)>::empty(),
            r.wf(),
    {
        HashMap { entries: Vec::new() }
    }

    /// The position of the first entry holding key `k`, if any.
    fn position_of(&self, k: u64) -> (o: Option<usize>)
        ensures
            (match o {
                Some(i) => i < self.entries@.len() && self.entries@[i as int].0 == k,
                None => !entries_contain(self.entries@, k),
            }),
    {
        let mut i: usize = 0;
        while i < self.entries.len()
            invariant
                i <= self.entries@.len(),
                forall|t: int| 0 <= t < i ==> (#[trigger] self.entries@[t]).0 != k,
            decreases self.entries@.len() - i,
        {
            if self.entries[i].0 == k {
                return Some(i);
            }
            i = i + 1;
        }
        None
    }
}

/// Insert an entry into a map, replacing the value under an already-present
/// key and appending a new entry otherwise.
pub fn insert<V>(k: u64, a: V, m: HashMap<V>) -> (r: HashMap<V>)
    ensures
        (if entries_contain(m.entries@, k) {
            exists|i: int|
                0 <= i < m.entries@.len() && (#[trigger] m.entries@[i]).0 == k && r.entries@
                    == m.entries@.update(i, (k, a))
        } else {
            r.entries@ == m.entries@.push((k, a))
        }),
        m.wf() ==> r.wf(),
{
    let mut m2 = m;
    match m2.position_of(k) {
        Some(i) => {
            m2.entries.set(i, (k, a));
            proof {
                if m.wf() {
                    assert(entries_distinct(m2.entries@));
                }
            }
            m2
        },
        None => {
            m2.entries.push((k, a));
            proof {
                if m.wf() {
                    assert forall|i: int, j: int|
                        0 <= i < j < m2.entries@.len() implies (#[trigger] m2.entries@[i]).0 != (
                    #[trigger] m2.entries@[j]).0 by {
                        if j == m2.entries@.len() - 1 {
                            assert(!entries_contain(m.entries@, k));
                            assert(m2.entries@[i] == m.entries@[i]);
                        }
                    }
                }
            }
            m2
        },
    }
}

/// `pre` records a successful outcome for the value of every entry before
/// position `k`.
pub open spec fn entries_traverse_prefix<V, B, E, F: crate::fun::F1Once<V, Ret = Result<B, E>>>(
    entries: Seq<(u64, V)>,
    f: F,
    k: int,
    pre: Seq<B>,
) -> bool {
    pre.len() >= k && forall|j: int|
        0 <= j < k ==> f.post1(entries[j].1, Result::<B, E>::Ok(#[trigger] pre[j]))
}

/// A failure `e` is a traversal outcome of the entries: some entry's value
/// admits it, and every earlier entry's value has a successful outcome.
pub open spec fn entries_traverse_failure<V, B, E, F: crate::fun::F1Once<V, Ret = Result<B, E>>>(
    entries: Seq<(u64, V)>,
    f: F,
    e: E,
) -> bool {
    exists|k: int, pre: Seq<B>|
        #![trigger f.post1(entries[k].1, Result::<B, E>::Err(e)), entries_traverse_prefix(entries, f, k, pre)]
        0 <= k < entries.len() && f.post1(entries[k].1, Result::<B, E>::Err(e))
            && entries_traverse_prefix(entries, f, k, pre)
}

impl<V> HashMap<V> {
    /// Traverse the values into the single-outcome target: send each value
    /// through `f` in entry order, short-circuiting on the first failure;
    /// on success the keys are kept, in order.
    #[verifier::loop_isolation(false)]
    pub fn traversem1<B, E, F>(self, f: F) -> (r: Result<HashMap<B>, E>)
        where
            F: F1<V, Ret = Result<B, E>>,
        requires
            forall|v: V| #[trigger] f.pre1(v),
        ensures
            (match r {
                Ok(m2) => m2.entries@.len() == self.entries@.len() && forall|i: int|
                    0 <= i < self.entries@.len() ==> (#[trigger] m2.entries@[i]).0
                        == self.entries@[i].0 && f.post1(
                        self.entries@[i].1,
                        Result::<B, E>::Ok(m2.entries@[i].1),
                    ),
                Err(e) => entries_traverse_failure(self.entries@, f, e),
            }),
            (self.wf() && r is Ok ==> r->Ok_0.wf()),
    {
        let ghost orig = self.entries@;
        let mut v = self.entries;
        let mut out: Vec<(u64, B)> = Vec::new();
        while v.len() > 0
            invariant
                out@.len() + v@.len() == orig.len(),
                v@ == orig.skip(out@.len() as int),
                forall|t: int|
                    0 <= t < out@.len() ==> (#[trigger] out@[t]).0 == orig[t].0 && f.post1(
                        orig[t].1,
                        Result::<B, E>::Ok(out@[t].1),
                    ),
            decreases v.len(),
        {
            let ghost i = out@.len() as int;
            let p = v.remove(0);
            proof {
                assert(p == orig[i]);
                assert(v@ =~= orig.skip(i + 1));
            }
            match f.call(p.1) {
                Ok(b) => {
                    out.push((p.0, b));
                },
                Err(e) => {
                    proof {
                        let vals = Seq::new(out@.len(), |t: int| out@[t].1);
                        assert(f.post1(orig[i].1, Result::<B, E>::Err(e)));
                        assert(entries_traverse_prefix(orig, f, i, vals));
                        assert(entries_traverse_failure(orig, f, e));
                    }
                    return Err(e);
                },
            }
        }
        Ok(HashMap { entries: out })
    }

    /// Traverse the values into the multi-outcome target: one map per
    /// combination of value outcomes, every map keeping this map's keys in
    /// order (beware the combinatorial size on large inputs).
    #[verifier::loop_isolation(false)]
    pub fn traversemm<B, F>(self, f: F) -> (r: Vec<HashMap<B>>)
        where
            F: F1<V, Ret = Vec<B>>,
            B: Copy,
        requires
            forall|v: V| #[trigger] f.pre1(v),
        ensures
            (exists|t: Seq<Seq<B>>|
                #[trigger] crate::traverse::product_graph(
                    values_view(self.entries@),
                    crate::impls::vec::bind_fn_rel(f),
                    t,
                ) && r@.len() == t.len() && (forall|k: int|
                    0 <= k < t.len() ==> (#[trigger] r@[k]).entries@.len() == self.entries@.len()
                        && (forall|i: int|
                        0 <= i < self.entries@.len() ==> (#[trigger] r@[k].entries@[i]).0
                            == self.entries@[i].0 && r@[k].entries@[i].1 == t[k][i]))),
            self.wf() ==> (forall|k: int| 0 <= k < r@.len() ==> (#[trigger] r@[k]).wf()),
    {
        let ghost orig = self.entries@;
        let ghost vv = values_view(orig);
        let mut v = self.entries;
        let mut keys: Vec<u64> = Vec::new();
        let mut vals: Vec<V> = Vec::new();
        while v.len() > 0
            invariant
                keys@.len() == vals@.len(),
                keys@.len() + v@.len() == orig.len(),
                v@ == orig.skip(keys@.len() as int),
                forall|t: int| 0 <= t < keys@.len() ==> (#[trigger] keys@[t]) == orig[t].0,
                forall|t: int| 0 <= t < vals@.len() ==> (#[trigger] vals@[t]) == orig[t].1,
            decreases v.len(),
        {
            let ghost i = keys@.len() as int;
            let p = v.remove(0);
            proof {
                assert(p == orig[i]);
                assert(v@ =~= orig.skip(i + 1));
            }
            keys.push(p.0);
            vals.push(p.1);
        }
        proof {
            assert(vals@ =~= vv);
        }
        let table = vals.traversemm(f);
        let ghost rel = crate::impls::vec::bind_fn_rel(f);
        let ghost rows = crate::traverse::rows_view(table@);
        proof {
            crate::traverse::lemma_product_rows_len(vv, vv.len() as int, rel, rows);
        }
        let mut tv = table;
        let mut out: Vec<HashMap<B>> = Vec::new();
        while tv.len() > 0
            invariant
                out@.len() + tv@.len() == rows.len(),
                forall|t: int|
                    0 <= t < tv@.len() ==> (#[trigger] tv@[t])@ == rows[out@.len() + t],
                keys@.len() == orig.len(),
                forall|t: int|
                    0 <= t < keys@.len() ==> (#[trigger] keys@[t]) == orig[t].0,
                forall|k: int| 0 <= k < rows.len() ==> (#[trigger] rows[k]).len() == orig.len(),
                forall|k: int|
                    0 <= k < out@.len() ==> (#[trigger] out@[k]).entries@.len() == orig.len() && (
                    forall|i: int|
                        0 <= i < orig.len() ==> (#[trigger] out@[k].entries@[i]).0 == orig[i].0
                            && out@[k].entries@[i].1 == rows[k][i]),
            decreases tv.len(),
        {
            let ghost k0 = out@.len() as int;
            let ghost tvpre = tv@;
            let row = tv.remove(0);
            proof {
                assert(row == tvpre[0]);
                assert(row@ == rows[k0]);
                assert forall|t: int| 0 <= t < tv@.len() implies (#[trigger] tv@[t])@ == rows[k0 + 1
                    + t] by {
                    assert(tv@[t] == tvpre[t + 1]);
                }
            }
            let mut ents: Vec<(u64, B)> = Vec::new();
            let mut i: usize = 0;
            while i < keys.len()
                invariant
                    i <= keys@.len(),
                    keys@.len() == orig.len(),
                    row@.len() == orig.len(),
                    ents@.len() == i,
                    forall|t: int|
                        0 <= t < i ==> (#[trigger] ents@[t]).0 == keys@[t] && ents@[t].1 == row@[t],
                decreases keys@.len() - i,
            {
                ents.push((keys[i], row[i]));
                i = i + 1;
            }
            out.push(HashMap { entries: ents });
        }
        proof {
            assert(crate::traverse::product_graph(vv, rel, rows));
            if self.wf() {
                assert forall|k: int| 0 <= k < out@.len() implies (#[trigger] out@[k]).wf() by {
                    assert(forall|i: int|
                        0 <= i < orig.len() ==> (#[trigger] out@[k].entries@[i]).0 == orig[i].0);
                }
            }
        }
        out
    }
}

impl<V> Functor<HashMapValues, V> for HashMap<V> {
    #[verifier::loop_isolation(false)]
    fn fmap<B, AB>(self, f: AB) -> (r: <HashMapValues as HKT1<B>>::T)
        where
            AB: F1<V, Ret = B>,
        ensures
            r.entries@.len() == self.entries@.len(),
            forall|i: int|
                0 <= i < self.entries@.len() ==> (#[trigger] r.entries@[i]).0 == self.entries@[i].0
                    && f.post1(self.entries@[i].1, r.entries@[i].1),
            self.wf() ==> r.wf(),
    {
        let ghost orig = self.entries@;
        let mut v = self.entries;
        let mut out: Vec<(u64, B)> = Vec::new();
        while v.len() > 0
            invariant
                out@.len() + v@.len() == orig.len(),
                v@ == orig.skip(out@.len() as int),
                forall|t: int|
                    0 <= t < out@.len() ==> (#[trigger] out@[t]).0 == orig[t].0 && f.post1(
                        orig[t].1,
                        out@[t].1,
                    ),
            decreases v.len(),
        {
            let ghost i = out@.len() as int;
            let p = v.remove(0);
            proof {
                assert(p == orig[i]);
                assert(v@ =~= orig.skip(i + 1));
            }
            let b = f.call(p.1);
            out.push((p.0, b));
        }
        HashMap { entries: out }
    }
}

impl<V> Alt<HashMapValues, V> for HashMap<V> {
    /// Two maps are interchangeable when they hold the same entries in the
    /// same order.
    open spec fn alt_eq(self, other: Self) -> bool {
        self.entries@ == other.entries@
    }

    /// A value is well formed when its keys are distinct.
    open spec fn alt_valid(self) -> bool {
        self.wf()
    }

    /// Both operands must be well formed.
    open spec fn alt_req(self, b: Self) -> bool {
        self.wf() && b.wf()
    }

    /// The left-biased union: all of `self`'s entries in order, then those
    /// of `b`'s entries whose keys `self` does not hold, in order.
    open spec fn is_alt(self, b: Self, r: Self) -> bool {
        r.entries@ == self.entries@ + b.entries@.filter(
            |p: (u64, V)| !entries_contain(self.entries@, p.0),
        )
    }

    proof fn lemma_alt_eq_refl(self) {
    }

    proof fn lemma_alt_deterministic(a: Self, b: Self, r1: Self, r2: Self) {
    }

    proof fn lemma_alt_assoc(a: Self, b: Self, c: Self, ab: Self, bc: Self, ab_c: Self, a_bc: Self) {
        lemma_alt_union_assoc(a.entries@, b.entries@, c.entries@, ab.entries@, bc.entries@, ab_c.entries@, a_bc.entries@);
    }

    #[verifier::loop_isolation(false)]
    fn alt(self, b: Self) -> (r: Self) {
        let ghost sa = self.entries@;
        let ghost sb = b.entries@;
        let ghost keep = |p: (u64, V)| !entries_contain(sa, p.0);
        let mut out = self;
        let mut v = b.entries;
        proof {
            assert(sb.take(0).filter(keep) =~= Seq::<(u64, V)>::empty());
            assert(out.entries@ =~= sa + sb.take(0).filter(keep));
        }
        while v.len() > 0
            invariant
                v@.len() <= sb.len(),
                v@ == sb.skip((sb.len() - v@.len()) as int),
                out.entries@ == sa + sb.take((sb.len() - v@.len()) as int).filter(keep),
            decreases v.len(),
        {
            let ghost i = (sb.len() - v@.len()) as int;
            let p = v.remove(0);
            proof {
                assert(p == sb[i]);
                assert(v@ =~= sb.skip(i + 1));
            }
            let pos = out.position_of(p.0);
            let ghost pre = out.entries@;
            match pos {
                Some(_) => {
                    proof {
                        assert(entries_contain(pre, p.0));
                        lemma_contains_concat(sa, sb.take(i).filter(keep), p.0);
                        if entries_contain(sb.take(i).filter(keep), p.0) {
                            let fpre = sb.take(i).filter(keep);
                            let t = choose|t: int|
                                0 <= t < fpre.len() && (#[trigger] fpre[t]).0 == p.0;
                            lemma_filter_subset(sb.take(i), keep, t);
                            let j = choose|j: int|
                                0 <= j < sb.take(i).len() && #[trigger] sb.take(i)[j] == fpre[t];
                            assert(sb[j].0 == p.0 && j < i && sb[i].0 == p.0);
                            assert(false);
                        }
                        assert(entries_contain(sa, p.0));
                        assert(!keep(sb[i]));
                        lemma_filter_take_step(sb, i, keep, false);
                    }
                },
                None => {
                    out.entries.push(p);
                    proof {
                        assert(!entries_contain(sa, p.0)) by {
                            if entries_contain(sa, p.0) {
                                lemma_contains_concat_left(sa, sb.take(i).filter(keep), p.0);
                                assert(entries_contain(pre, p.0));
                            }
                        }
                        assert(keep(sb[i]));
                        lemma_filter_take_step(sb, i, keep, true);
                        assert(out.entries@ =~= sa + sb.take(i + 1).filter(keep));
                    }
                },
            }
        }
        proof {
            assert(sb.take(sb.len() as int) =~= sb);
        }
        out
    }
}

/// If a key is held by the concatenation of two entry sequences, one of the
/// two holds it.
proof fn lemma_contains_concat<V>(a: Seq<(u64, V)>, b: Seq<(u64, V)>, k: u64)
    requires
        entries_contain(a + b, k),
    ensures
        entries_contain(a, k) || entries_contain(b, k),
{
    let i = choose|i: int| 0 <= i < (a + b).len() && (#[trigger] (a + b)[i]).0 == k;
    if i < a.len() {
        assert(a[i].0 == k);
    } else {
        assert(b[i - a.len()].0 == k);
    }
}

/// A key held by the left part is held by the concatenation.
proof fn lemma_contains_concat_left<V>(a: Seq<(u64, V)>, b: Seq<(u64, V)>, k: u64)
    requires
        entries_contain(a, k),
    ensures
        entries_contain(a + b, k),
{
    let i = choose|i: int| 0 <= i < a.len() && (#[trigger] a[i]).0 == k;
    assert((a + b)[i].0 == k);
}

/// Filtering one more element either appends it (when kept) or changes
/// nothing (when dropped).
proof fn lemma_filter_take_step<V>(s: Seq<(u64, V)>, i: int, keep: spec_fn((u64, V)) -> bool, kept: bool)
    requires
        0 <= i < s.len(),
        kept == keep(s[i]),
    ensures
        kept ==> s.take(i + 1).filter(keep) == s.take(i).filter(keep).push(s[i]),
        !kept ==> s.take(i + 1).filter(keep) == s.take(i).filter(keep),
{
    assert(s.take(i + 1).drop_last() =~= s.take(i));
    assert(s.take(i + 1).last() == s[i]);
    reveal_with_fuel(Seq::filter, 2);
    assert(s.take(i + 1).filter(keep) == if keep(s[i]) {
        s.take(i).filter(keep).push(s[i])
    } else {
        s.take(i).filter(keep)
    });
}

/// A filter whose predicate admits every element of the sequence keeps the
/// sequence unchanged.
proof fn lemma_filter_all<T>(s: Seq<T>, p: spec_fn(T) -> bool)
    requires
        forall|i: int| 0 <= i < s.len() ==> p(#[trigger] s[i]),
    ensures
        s.filter(p) == s,
    decreases s.len(),
{
    reveal(Seq::filter);
    if s.len() != 0 {
        assert(forall|i: int|
            0 <= i < s.drop_last().len() ==> (#[trigger] s.drop_last()[i]) == s[i]);
        lemma_filter_all(s.drop_last(), p);
        assert(s.drop_last().push(s.last()) =~= s);
    } else {
        assert(s.filter(p) =~= s);
    }
}

/// Two filters with predicates that agree on every element of the sequence
/// keep the same elements.
proof fn lemma_filter_ext<T>(s: Seq<T>, p: spec_fn(T) -> bool, q: spec_fn(T) -> bool)
    requires
        forall|i: int| 0 <= i < s.len() ==> (p(#[trigger] s[i]) <==> q(s[i])),
    ensures
        s.filter(p) == s.filter(q),
    decreases s.len(),
{
    reveal(Seq::filter);
    if s.len() != 0 {
        assert(forall|i: int|
            0 <= i < s.drop_last().len() ==> (#[trigger] s.drop_last()[i]) == s[i]);
        lemma_filter_ext(s.drop_last(), p, q);
    }
}

/// Filtering twice keeps the elements on which both predicates hold.
proof fn lemma_filter_compose<T>(s: Seq<T>, p: spec_fn(T) -> bool, q: spec_fn(T) -> bool, pq: spec_fn(T) -> bool)
    requires
        forall|x: T| #[trigger] pq(x) <==> (p(x) && q(x)),
    ensures
        s.filter(p).filter(q) == s.filter(pq),
    decreases s.len(),
{
    reveal(Seq::filter);
    if s.len() == 0 {
        assert(s.filter(p).filter(q) =~= s.filter(pq));
    } else {
        let d = s.drop_last();
        lemma_filter_compose(d, p, q, pq);
        if p(s.last()) {
            assert(s.filter(p) == d.filter(p).push(s.last()));
            assert(d.filter(p).push(s.last()).drop_last() =~= d.filter(p));
            assert(d.filter(p).push(s.last()).last() == s.last());
        } else {
            assert(s.filter(p) == d.filter(p));
        }
    }
}

/// Every element of a filtered sequence stands in the original.
proof fn lemma_filter_subset<T>(s: Seq<T>, p: spec_fn(T) -> bool, i: int)
    requires
        0 <= i < s.filter(p).len(),
    ensures
        exists|j: int| 0 <= j < s.len() && #[trigger] s[j] == s.filter(p)[i],
    decreases s.len(),
{
    reveal(Seq::filter);
    if s.len() != 0 {
        let d = s.drop_last();
        if p(s.last()) && i == s.filter(p).len() - 1 {
            assert(s[s.len() - 1] == s.filter(p)[i]);
        } else {
            lemma_filter_subset(d, p, i);
            let j = choose|j: int| 0 <= j < d.len() && #[trigger] d[j] == d.filter(p)[i];
            assert(s[j] == s.filter(p)[i]);
        }
    }
}

/// A key-based filter keeps a key exactly when the source holds it and the
/// predicate admits it.
proof fn lemma_contains_filter_key<V>(b: Seq<(u64, V)>, a: Seq<(u64, V)>, k: u64)
    ensures
        entries_contain(b.filter(|p: (u64, V)| !entries_contain(a, p.0)), k) <==> (entries_contain(
            b,
            k,
        ) && !entries_contain(a, k)),
{
    let keep = |p: (u64, V)| !entries_contain(a, p.0);
    let fb = b.filter(keep);
    if entries_contain(fb, k) {
        let i = choose|i: int| 0 <= i < fb.len() && (#[trigger] fb[i]).0 == k;
        b.lemma_filter_pred(keep, i);
        lemma_filter_subset(b, keep, i);
        let j = choose|j: int| 0 <= j < b.len() && #[trigger] b[j] == fb[i];
        assert(entries_contain(b, k));
    }
    if entries_contain(b, k) && !entries_contain(a, k) {
        let i = choose|i: int| 0 <= i < b.len() && (#[trigger] b[i]).0 == k;
        assert(keep(b[i]));
        b.lemma_filter_contains(keep, i);
        let j = choose|j: int| 0 <= j < fb.len() && #[trigger] fb[j] == b[i];
        assert(entries_contain(fb, k));
    }
}

/// A concatenation holds a key exactly when one of its parts does.
proof fn lemma_contains_concat_iff<V>(a: Seq<(u64, V)>, b: Seq<(u64, V)>, k: u64)
    ensures
        entries_contain(a + b, k) <==> (entries_contain(a, k) || entries_contain(b, k)),
{
    if entries_contain(a + b, k) {
        lemma_contains_concat(a, b, k);
    }
    if entries_contain(a, k) {
        lemma_contains_concat_left(a, b, k);
    }
    if entries_contain(b, k) {
        let i = choose|i: int| 0 <= i < b.len() && (#[trigger] b[i]).0 == k;
        assert((a + b)[a.len() + i].0 == k);
    }
}

/// Left-biased union of entry sequences is associative.
proof fn lemma_alt_union_assoc<V>(
    a: Seq<(u64, V)>,
    b: Seq<(u64, V)>,
    c: Seq<(u64, V)>,
    ab: Seq<(u64, V)>,
    bc: Seq<(u64, V)>,
    ab_c: Seq<(u64, V)>,
    a_bc: Seq<(u64, V)>,
)
    requires
        ab == a + b.filter(|p: (u64, V)| !entries_contain(a, p.0)),
        ab_c == ab + c.filter(|p: (u64, V)| !entries_contain(ab, p.0)),
        bc == b + c.filter(|p: (u64, V)| !entries_contain(b, p.0)),
        a_bc == a + bc.filter(|p: (u64, V)| !entries_contain(a, p.0)),
    ensures
        ab_c == a_bc,
{
    let not_a = |p: (u64, V)| !entries_contain(a, p.0);
    let not_b = |p: (u64, V)| !entries_contain(b, p.0);
    let not_ab = |p: (u64, V)| !entries_contain(ab, p.0);
    let not_a_and_not_b = |p: (u64, V)| !entries_contain(a, p.0) && !entries_contain(b, p.0);
    let fb = b.filter(not_a);
    let fc2 = c.filter(not_b);
    // bc.filter(not_a) splits over the concatenation b + fc2
    Seq::<(u64, V)>::filter_distributes_over_add(b, fc2, not_a);
    // fc2.filter(not_a) keeps exactly the keys in neither a nor b
    lemma_filter_compose(c, not_b, not_a, not_a_and_not_b);
    assert(fc2.filter(not_a) == c.filter(not_a_and_not_b));
    // a key is absent from ab exactly when it is absent from both a and b
    assert forall|i: int| 0 <= i < c.len() implies (not_ab(#[trigger] c[i]) <==> not_a_and_not_b(
        c[i],
    )) by {
        let k = c[i].0;
        lemma_contains_concat_iff(a, fb, k);
        lemma_contains_filter_key(b, a, k);
    }
    lemma_filter_ext(c, not_ab, not_a_and_not_b);
    assert(ab_c =~= a_bc);
}

impl<V> Plus<HashMapValues, V> for HashMap<V> {
    /// The empty map.
    open spec fn is_empty_val(x: Self) -> bool {
        x.entries@ == Seq::<(u64, V)>::empty()
    }

    proof fn lemma_empty_altable(x: Self, e: Self) {
    }

    proof fn lemma_empty_alt_right(x: Self, e: Self, r: Self) {
        assert(Seq::<(u64, V)>::empty().filter(|p: (u64, V)| !entries_contain(x.entries@, p.0))
            =~= Seq::<(u64, V)>::empty());
        assert(r.entries@ =~= x.entries@);
    }

    proof fn lemma_empty_alt_left(x: Self, e: Self, r: Self) {
        lemma_filter_all(x.entries@, |p: (u64, V)| !entries_contain(e.entries@, p.0));
        assert(r.entries@ =~= x.entries@);
    }

    fn empty() -> (r: Self) {
        HashMap { entries: Vec::new() }
    }
}


impl<V> Semigroup for HashMap<V> {
    /// Two maps are interchangeable when they hold the same entries in the
    /// same order.
    open spec fn sem_eq(self, other: Self) -> bool {
        self.entries@ == other.entries@
    }

    /// A value is well formed when its keys are distinct.
    open spec fn sem_valid(self) -> bool {
        self.wf()
    }

    /// Both operands must be well formed.
    open spec fn append_req(self, b: Self) -> bool {
        self.wf() && b.wf()
    }

    /// The combination is the left-biased union.
    open spec fn is_append(self, b: Self, r: Self) -> bool {
        r.entries@ == self.entries@ + b.entries@.filter(
            |p: (u64, V)| !entries_contain(self.entries@, p.0),
        )
    }

    proof fn lemma_sem_eq_refl(self) {
    }

    proof fn lemma_append_deterministic(a: Self, b: Self, r1: Self, r2: Self) {
    }

    proof fn lemma_append_assoc(a: Self, b: Self, c: Self, ab: Self, bc: Self, ab_c: Self, a_bc: Self) {
        lemma_alt_union_assoc(a.entries@, b.entries@, c.entries@, ab.entries@, bc.entries@, ab_c.entries@, a_bc.entries@);
    }

    fn append(self, b: Self) -> (r: Self) {
        self.alt(b)
    }
}

impl<V> Monoid for HashMap<V> {
    /// The identity for the union is the empty map.
    open spec fn is_identity(x: Self) -> bool {
        x.entries@ == Seq::<(u64, V)>::empty()
    }

    proof fn lemma_identity_appendable(x: Self, e: Self) {
    }

    proof fn lemma_identity_right(x: Self, e: Self, r: Self) {
        assert(Seq::<(u64, V)>::empty().filter(|p: (u64, V)| !entries_contain(x.entries@, p.0))
            =~= Seq::<(u64, V)>::empty());
        assert(r.entries@ =~= x.entries@);
    }

    proof fn lemma_identity_left(x: Self, e: Self, r: Self) {
        lemma_filter_all(x.entries@, |p: (u64, V)| !entries_contain(e.entries@, p.0));
        assert(r.entries@ =~= x.entries@);
    }

    fn identity() -> (r: Self) {
        HashMap { entries: Vec::new() }
    }
}

impl<V> Foldable<HashMapValues, V> for HashMap<V> {
    /// The elements are the values, in entry order.
    open spec fn view_elems(self) -> Seq<V> {
        values_view(self.entries@)
    }

    #[verifier::loop_isolation(false)]
    fn foldl<B, BAB>(self, f: BAB, b: B) -> (r: B)
        where
            BAB: F2<B, V, Ret = B>,
    {
        let ghost rel = crate::fold::foldl_fn_rel::<V, B, BAB>(f);
        let ghost vv = values_view(self.entries@);
        let ghost orig = self.entries@;
        let ghost b0 = b;
        let mut v = self.entries;
        let mut acc = b;
        proof {
            assert(vv.skip(0) =~= vv);
        }
        while v.len() > 0
            invariant
                v@.len() <= orig.len(),
                v@ == orig.skip((orig.len() - v@.len()) as int),
                foldl_upto(vv, (orig.len() - v@.len()) as int, rel, b0, acc),
                crate::fold::foldl_ok(vv.skip((orig.len() - v@.len()) as int), f, acc),
            decreases v.len(),
        {
            let ghost i = (orig.len() - v@.len()) as int;
            let ghost suffix = vv.skip(i);
            let p = v.remove(0);
            proof {
                assert(p == orig[i]);
                assert(v@ =~= orig.skip(i + 1));
                assert(suffix[0] == vv[i] && vv[i] == orig[i].1);
            }
            let acc2 = f.call(acc, p.1);
            proof {
                assert(f.post2(acc, suffix[0], acc2));
                assert(rel(acc, vv[i], acc2));
                crate::fold::lemma_foldl_upto_step(vv, i + 1, rel, b0, acc, acc2);
                assert(suffix.drop_first() =~= vv.skip(i + 1));
            }
            acc = acc2;
        }
        acc
    }

    #[verifier::loop_isolation(false)]
    fn foldr<B, ABB>(self, f: ABB, b: B) -> (r: B)
        where
            ABB: F2<V, B, Ret = B>,
    {
        let ghost rel = crate::fold::foldr_fn_rel::<V, B, ABB>(f);
        let ghost vv = values_view(self.entries@);
        let ghost orig = self.entries@;
        let ghost b0 = b;
        let mut v = self.entries;
        let mut acc = b;
        proof {
            assert(vv.take(vv.len() as int) =~= vv);
        }
        while v.len() > 0
            invariant
                v@ == orig.take(v@.len() as int),
                v@.len() <= orig.len(),
                foldr_from(vv, v@.len() as int, rel, b0, acc),
                crate::fold::foldr_ok(vv.take(v@.len() as int), f, acc),
            decreases v.len(),
        {
            let ghost prefix = vv.take(v@.len() as int);
            let p = v.pop().unwrap();
            let ghost i = v@.len() as int;
            proof {
                assert(p == orig[i]);
                assert(v@ =~= orig.take(i));
                assert(prefix.last() == vv[i] && vv[i] == orig[i].1);
            }
            let acc2 = f.call(p.1, acc);
            proof {
                assert(f.post2(prefix.last(), acc, acc2));
                assert(rel(vv[i], acc, acc2));
                crate::fold::lemma_foldr_from_step(vv, i, rel, b0, acc, acc2);
                assert(prefix.drop_last() =~= vv.take(i));
            }
            acc = acc2;
        }
        acc
    }

    #[verifier::loop_isolation(false)]
    fn foldl_ref<'a, B, BAB>(&'a self, f: BAB, b: B) -> (r: B)
        where
            BAB: F2<B, &'a V, Ret = B>,
    {
        let ghost rel = crate::fold::foldl_ref_fn_rel::<V, B, BAB>(f);
        let ghost vv = values_view(self.entries@);
        let ghost b0 = b;
        let mut acc = b;
        let mut i: usize = 0;
        proof {
            assert(vv.skip(0) =~= vv);
        }
        while i < self.entries.len()
            invariant
                i <= self.entries@.len(),
                vv.len() == self.entries@.len(),
                foldl_upto(vv, i as int, rel, b0, acc),
                crate::fold::foldl_ref_ok(vv.skip(i as int), f, acc),
            decreases self.entries@.len() - i,
        {
            let ghost suffix = vv.skip(i as int);
            proof {
                assert(suffix[0] == vv[i as int] && vv[i as int] == self.entries@[i as int].1);
            }
            let p = &self.entries[i];
            let acc2 = f.call(acc, &p.1);
            proof {
                assert(f.post2(acc, &suffix[0], acc2));
                assert(rel(acc, vv[i as int], acc2));
                crate::fold::lemma_foldl_upto_step(vv, i as int + 1, rel, b0, acc, acc2);
                assert(suffix.drop_first() =~= vv.skip(i as int + 1));
            }
            acc = acc2;
            i = i + 1;
        }
        acc
    }

    #[verifier::loop_isolation(false)]
    fn foldr_ref<'a, B, ABB>(&'a self, f: ABB, b: B) -> (r: B)
        where
            ABB: F2<&'a V, B, Ret = B>,
    {
        let ghost rel = crate::fold::foldr_ref_fn_rel::<V, B, ABB>(f);
        let ghost vv = values_view(self.entries@);
        let ghost b0 = b;
        let mut acc = b;
        let mut i: usize = self.entries.len();
        proof {
            assert(vv.take(vv.len() as int) =~= vv);
        }
        while i > 0
            invariant
                i <= self.entries@.len(),
                vv.len() == self.entries@.len(),
                foldr_from(vv, i as int, rel, b0, acc),
                crate::fold::foldr_ref_ok(vv.take(i as int), f, acc),
            decreases i,
        {
            let ghost prefix = vv.take(i as int);
            i = i - 1;
            proof {
                assert(prefix.last() == vv[i as int] && vv[i as int] == self.entries@[i as int].1);
            }
            let p = &self.entries[i];
            let acc2 = f.call(&p.1, acc);
            proof {
                assert(f.post2(&prefix.last(), acc, acc2));
                assert(rel(vv[i as int], acc, acc2));
                crate::fold::lemma_foldr_from_step(vv, i as int, rel, b0, acc, acc2);
                assert(prefix.drop_last() =~= vv.take(i as int));
            }
            acc = acc2;
        }
        acc
    }
}

impl<V> FoldableIndexed<HashMapValues, u64, V> for HashMap<V> {
    #[verifier::loop_isolation(false)]
    fn foldl_idx<B, BAB>(self, f: BAB, b: B) -> (r: B)
        where
            BAB: F3<B, u64, V, Ret = B>,
        ensures
            foldl_graph(self.entries@, |acc: B, p: (u64, V), o: B| f.post3(acc, p.0, p.1, o), b, r),
    {
        let ghost rel = |acc: B, p: (u64, V), o: B| f.post3(acc, p.0, p.1, o);
        let ghost orig = self.entries@;
        let ghost b0 = b;
        let mut v = self.entries;
        let mut acc = b;
        while v.len() > 0
            invariant
                v@.len() <= orig.len(),
                v@ == orig.skip((orig.len() - v@.len()) as int),
                foldl_upto(orig, (orig.len() - v@.len()) as int, rel, b0, acc),
            decreases v.len(),
        {
            let ghost i = (orig.len() - v@.len()) as int;
            let p = v.remove(0);
            proof {
                assert(p == orig[i]);
                assert(v@ =~= orig.skip(i + 1));
            }
            let acc2 = f.call(acc, p.0, p.1);
            proof {
                assert(rel(acc, orig[i], acc2));
                crate::fold::lemma_foldl_upto_step(orig, i + 1, rel, b0, acc, acc2);
            }
            acc = acc2;
        }
        acc
    }

    #[verifier::loop_isolation(false)]
    fn foldr_idx<B, ABB>(self, f: ABB, b: B) -> (r: B)
        where
            ABB: F3<u64, V, B, Ret = B>,
        ensures
            foldr_graph(self.entries@, |p: (u64, V), acc: B, o: B| f.post3(p.0, p.1, acc, o), b, r),
    {
        let ghost rel = |p: (u64, V), acc: B, o: B| f.post3(p.0, p.1, acc, o);
        let ghost orig = self.entries@;
        let ghost b0 = b;
        let mut v = self.entries;
        let mut acc = b;
        while v.len() > 0
            invariant
                v@ == orig.take(v@.len() as int),
                v@.len() <= orig.len(),
                foldr_from(orig, v@.len() as int, rel, b0, acc),
            decreases v.len(),
        {
            let p = v.pop().unwrap();
            let ghost i = v@.len() as int;
            proof {
                assert(p == orig[i]);
                assert(v@ =~= orig.take(i));
            }
            let acc2 = f.call(p.0, p.1, acc);
            proof {
                assert(rel(orig[i], acc, acc2));
                crate::fold::lemma_foldr_from_step(orig, i, rel, b0, acc, acc2);
            }
            acc = acc2;
        }
        acc
    }

    #[verifier::loop_isolation(false)]
    fn foldl_idx_ref<'a, B, BAB>(&'a self, f: BAB, b: B) -> (r: B)
        where
            BAB: F3<B, u64, &'a V, Ret = B>,
        ensures
            foldl_graph(self.entries@, |acc: B, p: (u64, V), o: B| f.post3(acc, p.0, &p.1, o), b, r),
    {
        let ghost rel = |acc: B, p: (u64, V), o: B| f.post3(acc, p.0, &p.1, o);
        let ghost b0 = b;
        let mut acc = b;
        let mut i: usize = 0;
        while i < self.entries.len()
            invariant
                i <= self.entries@.len(),
                foldl_upto(self.entries@, i as int, rel, b0, acc),
            decreases self.entries@.len() - i,
        {
            let p = &self.entries[i];
            let acc2 = f.call(acc, p.0, &p.1);
            proof {
                assert(rel(acc, self.entries@[i as int], acc2));
                crate::fold::lemma_foldl_upto_step(self.entries@, i as int + 1, rel, b0, acc, acc2);
            }
            acc = acc2;
            i = i + 1;
        }
        acc
    }

    #[verifier::loop_isolation(false)]
    fn foldr_idx_ref<'a, B, ABB>(&'a self, f: ABB, b: B) -> (r: B)
        where
            ABB: F3<u64, &'a V, B, Ret = B>,
        ensures
            foldr_graph(self.entries@, |p: (u64, V), acc: B, o: B| f.post3(p.0, &p.1, acc, o), b, r),
    {
        let ghost rel = |p: (u64, V), acc: B, o: B| f.post3(p.0, &p.1, acc, o);
        let ghost b0 = b;
        let mut acc = b;
        let mut i: usize = self.entries.len();
        while i > 0
            invariant
                i <= self.entries@.len(),
                foldr_from(self.entries@, i as int, rel, b0, acc),
            decreases i,
        {
            i = i - 1;
            let p = &self.entries[i];
            let acc2 = f.call(p.0, &p.1, acc);
            proof {
                assert(rel(self.entries@[i as int], acc, acc2));
                crate::fold::lemma_foldr_from_step(self.entries@, i as int, rel, b0, acc, acc2);
            }
            acc = acc2;
        }
        acc
    }
}

/// Functor identity law for entry sequences: mapping a relation that can
/// only return each value unchanged keeps the entries unchanged.
pub proof fn lemma_map_fmap_identity<V>(c: Seq<(u64, V)>, rel: spec_fn(V, V) -> bool, r: Seq<(u64, V)>)
    requires
        r.len() == c.len(),
        forall|i: int| 0 <= i < c.len() ==> (#[trigger] r[i]).0 == c[i].0 && rel(c[i].1, r[i].1),
        forall|a: V, b: V| #[trigger] rel(a, b) ==> b == a,
    ensures
        r == c,
{
    assert forall|i: int| 0 <= i < c.len() implies r[i] == c[i] by {
        assert(rel(c[i].1, r[i].1));
    }
    assert(r =~= c);
}

/// Functor composition law for entry sequences: mapping `rf` and then `rg`
/// is a mapping of their composition.
pub proof fn lemma_map_fmap_compose<V, B, C>(
    c: Seq<(u64, V)>,
    rf: spec_fn(V, B) -> bool,
    r1: Seq<(u64, B)>,
    rg: spec_fn(B, C) -> bool,
    r2: Seq<(u64, C)>,
)
    requires
        r1.len() == c.len(),
        forall|i: int| 0 <= i < c.len() ==> (#[trigger] r1[i]).0 == c[i].0 && rf(c[i].1, r1[i].1),
        r2.len() == r1.len(),
        forall|i: int| 0 <= i < r1.len() ==> (#[trigger] r2[i]).0 == r1[i].0 && rg(r1[i].1, r2[i].1),
    ensures
        r2.len() == c.len(),
        forall|i: int|
            0 <= i < c.len() ==> (#[trigger] r2[i]).0 == c[i].0 && exists|b: B|
                #[trigger] rf(c[i].1, b) && rg(b, r2[i].1),
{
    assert forall|i: int| 0 <= i < c.len() implies (#[trigger] r2[i]).0 == c[i].0 && exists|b: B|
        #[trigger] rf(c[i].1, b) && rg(b, r2[i].1) by {
        assert(rf(c[i].1, r1[i].1));
        assert(rg(r1[i].1, r2[i].1));
    }
}

} // verus!
