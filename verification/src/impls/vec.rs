//! The dynamic-sequence adapter: the typeclass hierarchy implemented for
//! `Vec`, with every fold stated through the fold graphs of
//! [`crate::fold`].
use vstd::prelude::*;

use crate::alt::{Alt, Plus};
use crate::apply::{Applicative, Apply};
use crate::fold::{foldl_graph, foldl_idx_graph, foldl_idx_upto, foldl_upto, foldr_from, foldr_graph, foldr_idx_from, foldr_idx_graph};
use crate::fold::{Foldable, FoldableIndexed};
use crate::fun::{F1, F2, F3};
use crate::functor::{seq_fmap_rel, Functor};
use crate::monad::Monad;
use crate::semigroup::{Monoid, Semigroup};
use crate::HKT1;

verus! {

/// `Vec` lifted to a type-constructor marker (kind `Type -> Type`).
pub struct VecHkt;

impl<A> HKT1<A> for VecHkt {
    type T = Vec<A>;
}

/// How a flattened sequence relates to the elements it was collected from:
/// the concatenation, element for element, of one container produced per
/// element of the first `i` entries of `s`.
pub open spec fn bind_upto<A, B>(
    s: Seq<A>,
    i: int,
    rel: spec_fn(A, Seq<B>) -> bool,
    out: Seq<B>,
) -> bool
    decreases i,
{
    if i <= 0 {
        out == Seq::<B>::empty()
    } else {
        exists|last: Seq<B>|
            #[trigger] rel(s[i - 1], last) && last.len() <= out.len() && out.skip(
                (out.len() - last.len()) as int,
            ) == last && bind_upto(s, i - 1, rel, out.take((out.len() - last.len()) as int))
    }
}

/// The element-to-sequence relation induced by a container-returning
/// callable: which sequences may stand for the container `f` returns on a
/// given element.
pub open spec fn bind_fn_rel<A, B, AMB: crate::fun::F1Once<A, Ret = Vec<B>>>(f: AMB) -> spec_fn(
    A,
    Seq<B>,
) -> bool {
    |a: A, sb: Seq<B>| exists|va: Vec<B>| #[trigger] f.post1(a, va) && va@ == sb
}

/// Extending a bind graph by one step.
pub proof fn lemma_bind_upto_step<A, B>(
    s: Seq<A>,
    j: int,
    rel: spec_fn(A, Seq<B>) -> bool,
    pre: Seq<B>,
    last: Seq<B>,
)
    requires
        1 <= j,
        bind_upto(s, j - 1, rel, pre),
        rel(s[j - 1], last),
    ensures
        bind_upto(s, j, rel, pre + last),
{
    assert((pre + last).skip(((pre + last).len() - last.len()) as int) =~= last);
    assert((pre + last).take(((pre + last).len() - last.len()) as int) =~= pre);
}

/// The graph of binding over all of `s`.
pub open spec fn bind_graph<A, B>(s: Seq<A>, rel: spec_fn(A, Seq<B>) -> bool, out: Seq<B>) -> bool {
    bind_upto(s, s.len() as int, rel, out)
}

/// One cell of the combination table that `apply_with` builds: the entry
/// at row `i` (function) and column `j` (argument) of the output came from
/// applying function `i` to a duplicate of argument `j`.
pub open spec fn cross_entry<AB, A, B, C>(
    fs: Seq<AB>,
    xs: Seq<A>,
    cloner: C,
    out: Seq<B>,
    i: int,
    j: int,
) -> bool
    where
        AB: F1<A, Ret = B>,
        C: for<'x> F1<&'x A, Ret = A>,
 {
    exists|x2: A| #[trigger] cloner.post1(&xs[j], x2) && (fs[i]).post1(x2, out[i * xs.len() + j])
}

/// One cell of the combination table that `apply` builds: the entry at row
/// `i` (function) and column `j` (argument) of the output came from
/// applying function `i` to argument `j` directly.
pub open spec fn apply_entry<AB, A, B>(fs: Seq<AB>, xs: Seq<A>, out: Seq<B>, i: int, j: int) -> bool
    where
        AB: crate::fun::F1Once<A, Ret = B>,
 {
    (fs[i]).post1(xs[j], out[i * xs.len() + j])
}

/// The concatenation of the first `i` inner sequences.
pub open spec fn concat_upto<AA>(s: Seq<Vec<AA>>, i: int) -> Seq<AA>
    decreases i,
{
    if i <= 0 {
        Seq::<AA>::empty()
    } else {
        concat_upto(s, i - 1) + s[i - 1]@
    }
}

/// Append an element to the end of a sequence container.
pub fn append<T>(t: T, v: Vec<T>) -> (r: Vec<T>)
    ensures
        r@ == v@.push(t),
{
    let mut v2 = v;
    v2.push(t);
    v2
}

impl<A> Functor<VecHkt, A> for Vec<A> {
    #[verifier::loop_isolation(false)]
    fn fmap<B, AB>(self, f: AB) -> (r: <VecHkt as HKT1<B>>::T)
        where
            AB: F1<A, Ret = B>,
        ensures
            seq_fmap_rel(self@, |a: A, b: B| f.post1(a, b), r@),
    {
        let ghost rel = |a: A, b: B| f.post1(a, b);
        let ghost orig = self@;
        let mut v = self;
        let mut out: Vec<B> = Vec::new();
        while v.len() > 0
            invariant
                out@.len() + v@.len() == orig.len(),
                v@ == orig.skip(out@.len() as int),
                seq_fmap_rel(orig.take(out@.len() as int), rel, out@),
                forall|a: A| #[trigger] f.pre1(a),
            decreases v.len(),
        {
            let ghost i = out@.len() as int;
            let a = v.remove(0);
            proof {
                assert(a == orig[i]);
                assert(v@ =~= orig.skip(i + 1));
            }
            let fb = f.call(a);
            out.push(fb);
            proof {
                assert(orig.take(i + 1) =~= orig.take(i).push(orig[i]));
                assert(seq_fmap_rel(orig.take(i + 1), rel, out@));
            }
        }
        proof {
            assert(orig.take(out@.len() as int) =~= orig);
        }
        out
    }
}

impl<A> Foldable<VecHkt, A> for Vec<A> {
    /// The elements, in order.
    open spec fn view_elems(self) -> Seq<A> {
        self@
    }

    #[verifier::loop_isolation(false)]
    fn foldl<B, BAB>(self, f: BAB, b: B) -> (r: B)
        where
            BAB: F2<B, A, Ret = B>,
    {
        let ghost rel = crate::fold::foldl_fn_rel::<A, B, BAB>(f);
        let ghost orig = self@;
        let ghost b0 = b;
        proof {
            assert(self.view_elems() == orig);
        }
        let mut v = self;
        let mut acc = b;
        while v.len() > 0
            invariant
                v@.len() <= orig.len(),
                v@ == orig.skip((orig.len() - v@.len()) as int),
                foldl_upto(orig, (orig.len() - v@.len()) as int, rel, b0, acc),
                crate::fold::foldl_ok(v@, f, acc),
            decreases v.len(),
        {
            let ghost i = (orig.len() - v@.len()) as int;
            let ghost vpre = v@;
            let a = v.remove(0);
            proof {
                assert(a == orig[i] && a == vpre[0]);
                assert(v@ =~= orig.skip(i + 1));
                assert(v@ =~= vpre.drop_first());
            }
            let acc2 = f.call(acc, a);
            proof {
                assert(f.post2(acc, vpre[0], acc2));
                assert(rel(acc, orig[i], acc2));
                crate::fold::lemma_foldl_upto_step(orig, i + 1, rel, b0, acc, acc2);
            }
            acc = acc2;
        }
        acc
    }

    #[verifier::loop_isolation(false)]
    fn foldr<B, ABB>(self, f: ABB, b: B) -> (r: B)
        where
            ABB: F2<A, B, Ret = B>,
    {
        let ghost rel = crate::fold::foldr_fn_rel::<A, B, ABB>(f);
        let ghost orig = self@;
        let ghost b0 = b;
        proof {
            assert(self.view_elems() == orig);
        }
        let mut v = self;
        let mut acc = b;
        while v.len() > 0
            invariant
                v@ == orig.take(v@.len() as int),
                v@.len() <= orig.len(),
                foldr_from(orig, v@.len() as int, rel, b0, acc),
                crate::fold::foldr_ok(v@, f, acc),
            decreases v.len(),
        {
            let ghost vpre = v@;
            let a = v.pop().unwrap();
            let ghost i = v@.len() as int;
            proof {
                assert(a == orig[i] && a == vpre.last());
                assert(v@ =~= orig.take(i));
                assert(v@ =~= vpre.drop_last());
            }
            let acc2 = f.call(a, acc);
            proof {
                assert(f.post2(vpre.last(), acc, acc2));
                assert(rel(orig[i], acc, acc2));
                crate::fold::lemma_foldr_from_step(orig, i, rel, b0, acc, acc2);
            }
            acc = acc2;
        }
        acc
    }

    #[verifier::loop_isolation(false)]
    fn foldl_ref<'a, B, BAB>(&'a self, f: BAB, b: B) -> (r: B)
        where
            BAB: F2<B, &'a A, Ret = B>,
    {
        let ghost rel = crate::fold::foldl_ref_fn_rel::<A, B, BAB>(f);
        let ghost b0 = b;
        let mut acc = b;
        let mut i: usize = 0;
        proof {
            assert((*self).view_elems() == self@);
            assert(self@.skip(0) =~= self@);
        }
        while i < self.len()
            invariant
                i <= self@.len(),
                foldl_upto(self@, i as int, rel, b0, acc),
                crate::fold::foldl_ref_ok(self@.skip(i as int), f, acc),
            decreases self@.len() - i,
        {
            let ghost suffix = self@.skip(i as int);
            proof {
                assert(suffix[0] == self@[i as int]);
            }
            let a = &self[i];
            let acc2 = f.call(acc, a);
            proof {
                assert(f.post2(acc, &suffix[0], acc2));
                assert(rel(acc, self@[i as int], acc2));
                crate::fold::lemma_foldl_upto_step(self@, i as int + 1, rel, b0, acc, acc2);
                assert(suffix.drop_first() =~= self@.skip(i as int + 1));
            }
            acc = acc2;
            i = i + 1;
        }
        acc
    }

    #[verifier::loop_isolation(false)]
    fn foldr_ref<'a, B, ABB>(&'a self, f: ABB, b: B) -> (r: B)
        where
            ABB: F2<&'a A, B, Ret = B>,
    {
        let ghost rel = crate::fold::foldr_ref_fn_rel::<A, B, ABB>(f);
        let ghost b0 = b;
        let mut acc = b;
        let mut i: usize = self.len();
        proof {
            assert((*self).view_elems() == self@);
            assert(self@.take(self@.len() as int) =~= self@);
        }
        while i > 0
            invariant
                i <= self@.len(),
                foldr_from(self@, i as int, rel, b0, acc),
                crate::fold::foldr_ref_ok(self@.take(i as int), f, acc),
            decreases i,
        {
            let ghost prefix = self@.take(i as int);
            i = i - 1;
            proof {
                assert(prefix.last() == self@[i as int]);
            }
            let a = &self[i];
            let acc2 = f.call(a, acc);
            proof {
                assert(f.post2(&prefix.last(), acc, acc2));
                assert(rel(self@[i as int], acc, acc2));
                crate::fold::lemma_foldr_from_step(self@, i as int, rel, b0, acc, acc2);
                assert(prefix.drop_last() =~= self@.take(i as int));
            }
            acc = acc2;
        }
        acc
    }
}

impl<A> FoldableIndexed<VecHkt, usize, A> for Vec<A> {
    #[verifier::loop_isolation(false)]
    fn foldl_idx<B, BAB>(self, f: BAB, b: B) -> (r: B)
        where
            BAB: F3<B, usize, A, Ret = B>,
        ensures
            foldl_idx_graph(self@, |acc: B, i: usize, a: A, o: B| f.post3(acc, i, a, o), b, r),
    {
        let ghost rel = |acc: B, i: usize, a: A, o: B| f.post3(acc, i, a, o);
        let ghost orig = self@;
        let ghost b0 = b;
        let mut v = self;
        let total = v.len();
        let mut acc = b;
        let mut i: usize = 0;
        while v.len() > 0
            invariant
                orig.len() == total,
                i + v@.len() == orig.len(),
                v@ == orig.skip(i as int),
                foldl_idx_upto(orig, i as int, rel, b0, acc),
                forall|x: B, k: usize, a: A| #[trigger] f.pre3(x, k, a),
            decreases v.len(),
        {
            let a = v.remove(0);
            proof {
                assert(a == orig[i as int]);
                assert(v@ =~= orig.skip(i + 1));
            }
            let acc2 = f.call(acc, i, a);
            proof {
                assert(rel(acc, i, orig[i as int], acc2));
                crate::fold::lemma_foldl_idx_upto_step(orig, i as int + 1, rel, b0, acc, acc2);
            }
            acc = acc2;
            i = i + 1;
        }
        acc
    }

    #[verifier::loop_isolation(false)]
    fn foldr_idx<B, ABB>(self, f: ABB, b: B) -> (r: B)
        where
            ABB: F3<usize, A, B, Ret = B>,
        ensures
            foldr_idx_graph(self@, |i: usize, a: A, acc: B, o: B| f.post3(i, a, acc, o), b, r),
    {
        let ghost rel = |i: usize, a: A, acc: B, o: B| f.post3(i, a, acc, o);
        let ghost orig = self@;
        let ghost b0 = b;
        let mut v = self;
        let mut acc = b;
        while v.len() > 0
            invariant
                v@ == orig.take(v@.len() as int),
                v@.len() <= orig.len(),
                foldr_idx_from(orig, v@.len() as int, rel, b0, acc),
                forall|k: usize, a: A, x: B| #[trigger] f.pre3(k, a, x),
            decreases v.len(),
        {
            let a = v.pop().unwrap();
            let i = v.len();
            proof {
                assert(a == orig[i as int]);
                assert(v@ =~= orig.take(i as int));
            }
            let acc2 = f.call(i, a, acc);
            proof {
                assert(rel(i, orig[i as int], acc, acc2));
                crate::fold::lemma_foldr_idx_from_step(orig, i as int, rel, b0, acc, acc2);
            }
            acc = acc2;
        }
        acc
    }

    #[verifier::loop_isolation(false)]
    fn foldl_idx_ref<'a, B, BAB>(&'a self, f: BAB, b: B) -> (r: B)
        where
            BAB: F3<B, usize, &'a A, Ret = B>,
        ensures
            foldl_idx_graph(self@, |acc: B, i: usize, a: A, o: B| f.post3(acc, i, &a, o), b, r),
    {
        let ghost rel = |acc: B, i: usize, a: A, o: B| f.post3(acc, i, &a, o);
        let ghost b0 = b;
        let mut acc = b;
        let mut i: usize = 0;
        while i < self.len()
            invariant
                i <= self@.len(),
                foldl_idx_upto(self@, i as int, rel, b0, acc),
                forall|x: B, k: usize, a: &'a A| #[trigger] f.pre3(x, k, a),
            decreases self@.len() - i,
        {
            let a = &self[i];
            let acc2 = f.call(acc, i, a);
            proof {
                assert(rel(acc, i, self@[i as int], acc2));
                crate::fold::lemma_foldl_idx_upto_step(self@, i as int + 1, rel, b0, acc, acc2);
            }
            acc = acc2;
            i = i + 1;
        }
        acc
    }

    #[verifier::loop_isolation(false)]
    fn foldr_idx_ref<'a, B, ABB>(&'a self, f: ABB, b: B) -> (r: B)
        where
            ABB: F3<usize, &'a A, B, Ret = B>,
        ensures
            foldr_idx_graph(self@, |i: usize, a: A, acc: B, o: B| f.post3(i, &a, acc, o), b, r),
    {
        let ghost rel = |i: usize, a: A, acc: B, o: B| f.post3(i, &a, acc, o);
        let ghost b0 = b;
        let mut acc = b;
        let mut i: usize = self.len();
        while i > 0
            invariant
                i <= self@.len(),
                foldr_idx_from(self@, i as int, rel, b0, acc),
                forall|k: usize, a: &'a A, x: B| #[trigger] f.pre3(k, a, x),
            decreases i,
        {
            i = i - 1;
            let a = &self[i];
            let acc2 = f.call(i, a, acc);
            proof {
                assert(rel(i, self@[i as int], acc, acc2));
                crate::fold::lemma_foldr_idx_from_step(self@, i as int, rel, b0, acc, acc2);
            }
            acc = acc2;
        }
        acc
    }
}

impl<AB> Apply<VecHkt, AB> for Vec<AB> {
    #[verifier::loop_isolation(false)]
    fn apply_with<A, B, Cloner>(
        self,
        a: <VecHkt as HKT1<A>>::T,
        cloner: Cloner,
    ) -> (r: <VecHkt as HKT1<B>>::T)
        where
            AB: F1<A, Ret = B>,
            Cloner: for<'x> F1<&'x A, Ret = A>,
        ensures
            r@.len() == self@.len() * a@.len(),
            forall|i: int, j: int|
                0 <= i < self@.len() && 0 <= j < a@.len() ==> #[trigger] cross_entry(
                    self@,
                    a@,
                    cloner,
                    r@,
                    i,
                    j,
                ),
    {
        let n = a.len();
        let mut out: Vec<B> = Vec::new();
        let mut i: usize = 0;
        while i < self.len()
            invariant
                i <= self@.len(),
                a@.len() == n,
                out@.len() == i * n,
                forall|i2: int, j: int|
                    0 <= i2 < i && 0 <= j < n ==> #[trigger] cross_entry(self@, a@, cloner, out@, i2, j),
                forall|g: AB, x: A| #[trigger] g.pre1(x),
                forall|x: &A| #[trigger] cloner.pre1(x),
            decreases self@.len() - i,
        {
            let g = &self[i];
            let mut j: usize = 0;
            proof {
                assert(i * n + n == (i + 1) * n) by (nonlinear_arith);
                assert(i * n + n <= self@.len() * n) by (nonlinear_arith)
                    requires
                        i + 1 <= self@.len(),
                        n >= 0,
                ;
            }
            while j < n
                invariant
                    j <= n,
                    a@.len() == n,
                    i < self@.len(),
                    out@.len() == i * n + j,
                    forall|i2: int, j2: int|
                        0 <= i2 < i && 0 <= j2 < n ==> #[trigger] cross_entry(self@, a@, cloner, out@, i2, j2),
                    forall|j2: int|
                        0 <= j2 < j ==> #[trigger] cross_entry(self@, a@, cloner, out@, i as int, j2),
                    g == &self@[i as int],
                    forall|gg: AB, x: A| #[trigger] gg.pre1(x),
                    forall|x: &A| #[trigger] cloner.pre1(x),
                decreases n - j,
            {
                let ghost old_out = out@;
                let x2 = cloner.call(&a[j]);
                let fb = g.call(x2);
                out.push(fb);
                proof {
                    assert(cloner.post1(&a@[j as int], x2));
                    assert((self@[i as int]).post1(x2, fb));
                    assert(out@[i * n + j] == fb);
                    assert(cross_entry(self@, a@, cloner, out@, i as int, j as int));
                    assert forall|i2: int, j2: int|
                        0 <= i2 < i && 0 <= j2 < n implies #[trigger] cross_entry(
                        self@,
                        a@,
                        cloner,
                        out@,
                        i2,
                        j2,
                    ) by {
                        assert(i2 * n + j2 < i * n + j) by (nonlinear_arith)
                            requires
                                0 <= i2 < i,
                                0 <= j2 < n,
                                0 <= j,
                        ;
                        assert(cross_entry(self@, a@, cloner, old_out, i2, j2));
                        let x3 = choose|x3: A|
                            cloner.post1(&a@[j2], x3) && (self@[i2]).post1(x3, old_out[i2 * n + j2]);
                        assert(out@[i2 * n + j2] == old_out[i2 * n + j2]);
                        assert(cloner.post1(&a@[j2], x3));
                    }
                    assert forall|j2: int| 0 <= j2 < j + 1 implies #[trigger] cross_entry(
                        self@,
                        a@,
                        cloner,
                        out@,
                        i as int,
                        j2,
                    ) by {
                        if j2 < j {
                            assert(i * n + j2 < i * n + j);
                            assert(cross_entry(self@, a@, cloner, old_out, i as int, j2));
                            let x3 = choose|x3: A|
                                cloner.post1(&a@[j2], x3) && (self@[i as int]).post1(
                                    x3,
                                    old_out[i * n + j2],
                                );
                            assert(out@[i * n + j2] == old_out[i * n + j2]);
                            assert(cloner.post1(&a@[j2], x3));
                        }
                    }
                }
                j = j + 1;
            }
            i = i + 1;
        }
        proof {
            assert(out@.len() == self@.len() * a@.len());
        }
        out
    }

    /// As `apply_with`, duplicating by plain copy: every function applied
    /// to every argument, row by row.
    #[verifier::loop_isolation(false)]
    fn apply<A, B>(self, a: <VecHkt as HKT1<A>>::T) -> (r: <VecHkt as HKT1<B>>::T)
        where
            AB: F1<A, Ret = B>,
            A: Copy,
        ensures
            r@.len() == self@.len() * a@.len(),
            forall|i: int, j: int|
                0 <= i < self@.len() && 0 <= j < a@.len() ==> #[trigger] apply_entry(
                    self@,
                    a@,
                    r@,
                    i,
                    j,
                ),
    {
        let n = a.len();
        let mut out: Vec<B> = Vec::new();
        let mut i: usize = 0;
        while i < self.len()
            invariant
                i <= self@.len(),
                a@.len() == n,
                out@.len() == i * n,
                forall|i2: int, j: int|
                    0 <= i2 < i && 0 <= j < n ==> #[trigger] apply_entry(self@, a@, out@, i2, j),
            decreases self@.len() - i,
        {
            let g = &self[i];
            let mut j: usize = 0;
            proof {
                assert(i * n + n == (i + 1) * n) by (nonlinear_arith);
                assert(i * n + n <= self@.len() * n) by (nonlinear_arith)
                    requires
                        i + 1 <= self@.len(),
                        n >= 0,
                ;
            }
            while j < n
                invariant
                    j <= n,
                    a@.len() == n,
                    i < self@.len(),
                    out@.len() == i * n + j,
                    forall|i2: int, j2: int|
                        0 <= i2 < i && 0 <= j2 < n ==> #[trigger] apply_entry(self@, a@, out@, i2, j2),
                    forall|j2: int|
                        0 <= j2 < j ==> #[trigger] apply_entry(self@, a@, out@, i as int, j2),
                    g == &self@[i as int],
                decreases n - j,
            {
                let ghost old_out = out@;
                let fb = g.call(a[j]);
                out.push(fb);
                proof {
                    assert((self@[i as int]).post1(a@[j as int], fb));
                    assert(out@[i * n + j] == fb);
                    assert(apply_entry(self@, a@, out@, i as int, j as int));
                    assert forall|i2: int, j2: int|
                        0 <= i2 < i && 0 <= j2 < n implies #[trigger] apply_entry(
                        self@,
                        a@,
                        out@,
                        i2,
                        j2,
                    ) by {
                        assert(i2 * n + j2 < i * n + j) by (nonlinear_arith)
                            requires
                                0 <= i2 < i,
                                0 <= j2 < n,
                                0 <= j,
                        ;
                        assert(apply_entry(self@, a@, old_out, i2, j2));
                        assert(out@[i2 * n + j2] == old_out[i2 * n + j2]);
                    }
                    assert forall|j2: int| 0 <= j2 < j + 1 implies #[trigger] apply_entry(
                        self@,
                        a@,
                        out@,
                        i as int,
                        j2,
                    ) by {
                        if j2 < j {
                            assert(i * n + j2 < i * n + j);
                            assert(apply_entry(self@, a@, old_out, i as int, j2));
                            assert(out@[i * n + j2] == old_out[i * n + j2]);
                        }
                    }
                }
                j = j + 1;
            }
            i = i + 1;
        }
        proof {
            assert(out@.len() == self@.len() * a@.len());
        }
        out
    }
}

impl<A> Applicative<VecHkt, A> for Vec<A> {
    /// The lift of a value is the one-element sequence holding it.
    open spec fn is_pure(a: A, r: Self) -> bool {
        r@.len() == 1 && r@[0] == a
    }

    /// Lifting a value yields the one-element sequence holding it.
    fn pure(a: A) -> (r: Self)
        ensures
            r@.len() == 1 && r@[0] == a,
    {
        let mut v: Vec<A> = Vec::new();
        v.push(a);
        v
    }
}

impl<A> Alt<VecHkt, A> for Vec<A> {
    /// Two sequences are interchangeable when they hold the same elements
    /// in the same order.
    open spec fn alt_eq(self, other: Self) -> bool {
        self@ == other@
    }

    /// Every value is well formed.
    open spec fn alt_valid(self) -> bool {
        true
    }

    /// Concatenation is always allowed.
    open spec fn alt_req(self, b: Self) -> bool {
        true
    }

    /// The combination is the concatenation.
    open spec fn is_alt(self, b: Self, r: Self) -> bool {
        r@ == self@ + b@
    }

    proof fn lemma_alt_eq_refl(self) {
    }

    proof fn lemma_alt_deterministic(a: Self, b: Self, r1: Self, r2: Self) {
    }

    proof fn lemma_alt_assoc(a: Self, b: Self, c: Self, ab: Self, bc: Self, ab_c: Self, a_bc: Self) {
        assert(ab_c@ =~= a_bc@);
    }

    fn alt(self, b: Self) -> (r: Self) {
        let mut v = self;
        let mut o = b;
        Vec::append(&mut v, &mut o);
        v
    }
}

impl<A> Plus<VecHkt, A> for Vec<A> {
    /// The empty sequence.
    open spec fn is_empty_val(x: Self) -> bool {
        x@ == Seq::<A>::empty()
    }

    proof fn lemma_empty_altable(x: Self, e: Self) {
    }

    proof fn lemma_empty_alt_right(x: Self, e: Self, r: Self) {
        assert(r@ =~= x@);
    }

    proof fn lemma_empty_alt_left(x: Self, e: Self, r: Self) {
        assert(r@ =~= x@);
    }

    fn empty() -> (r: Self) {
        Vec::new()
    }
}

impl<A> Semigroup for Vec<A> {
    /// Two sequences are interchangeable when they hold the same elements
    /// in the same order.
    open spec fn sem_eq(self, other: Self) -> bool {
        self@ == other@
    }

    /// Every value is well formed.
    open spec fn sem_valid(self) -> bool {
        true
    }

    /// Concatenation is always allowed.
    open spec fn append_req(self, b: Self) -> bool {
        true
    }

    /// The combination is the concatenation.
    open spec fn is_append(self, b: Self, r: Self) -> bool {
        r@ == self@ + b@
    }

    proof fn lemma_sem_eq_refl(self) {
    }

    proof fn lemma_append_deterministic(a: Self, b: Self, r1: Self, r2: Self) {
    }

    proof fn lemma_append_assoc(a: Self, b: Self, c: Self, ab: Self, bc: Self, ab_c: Self, a_bc: Self) {
        assert(ab_c@ =~= a_bc@);
    }

    fn append(self, b: Self) -> (r: Self) {
        let mut v = self;
        let mut o = b;
        Vec::append(&mut v, &mut o);
        v
    }
}

impl<A> Monoid for Vec<A> {
    /// The identity for concatenation is the empty sequence.
    open spec fn is_identity(x: Self) -> bool {
        x@ == Seq::<A>::empty()
    }

    proof fn lemma_identity_appendable(x: Self, e: Self) {
    }

    proof fn lemma_identity_right(x: Self, e: Self, r: Self) {
        assert(r@ =~= x@);
    }

    proof fn lemma_identity_left(x: Self, e: Self, r: Self) {
        assert(r@ =~= x@);
    }

    fn identity() -> (r: Self) {
        Vec::new()
    }
}

impl<A> Monad<VecHkt, A> for Vec<A> {
    #[verifier::loop_isolation(false)]
    fn bind<B, AMB>(self, f: AMB) -> (r: <VecHkt as HKT1<B>>::T)
        where
            AMB: F1<A, Ret = <VecHkt as HKT1<B>>::T>,
        ensures
            bind_graph(self@, bind_fn_rel(f), r@),
    {
        let ghost rel = bind_fn_rel(f);
        let ghost orig = self@;
        let mut v = self;
        let mut out: Vec<B> = Vec::new();
        while v.len() > 0
            invariant
                v@.len() <= orig.len(),
                v@ == orig.skip((orig.len() - v@.len()) as int),
                bind_upto(orig, (orig.len() - v@.len()) as int, rel, out@),
                forall|a: A| #[trigger] f.pre1(a),
            decreases v.len(),
        {
            let ghost i = (orig.len() - v@.len()) as int;
            let ghost pre = out@;
            let a = v.remove(0);
            proof {
                assert(a == orig[i]);
                assert(v@ =~= orig.skip(i + 1));
            }
            let mut fv = f.call(a);
            let ghost fvs = fv@;
            Vec::append(&mut out, &mut fv);
            proof {
                assert(rel(orig[i], fvs));
                assert(out@ == pre + fvs);
                lemma_bind_upto_step(orig, i + 1, rel, pre, fvs);
            }
        }
        out
    }
}


/// Monad left-identity law for sequences: binding over a one-element
/// sequence applies the relation to that element directly.
pub proof fn lemma_vec_bind_left_identity<A, B>(a: A, rel: spec_fn(A, Seq<B>) -> bool, out: Seq<B>)
    requires
        bind_graph(seq![a], rel, out),
    ensures
        rel(a, out),
{
    let s = seq![a];
    assert(s.len() == 1);
    let last = choose|last: Seq<B>|
        #[trigger] rel(s[0], last) && last.len() <= out.len() && out.skip(
            (out.len() - last.len()) as int,
        ) == last && bind_upto(s, 0, rel, out.take((out.len() - last.len()) as int));
    assert(out.take((out.len() - last.len()) as int) == Seq::<B>::empty());
    assert(out.take((out.len() - last.len()) as int).len() == 0);
    assert(out =~= last);
}

/// Monad right-identity law for sequences, one prefix at a time.
proof fn lemma_vec_bind_right_identity_upto<A>(
    s: Seq<A>,
    i: int,
    rel: spec_fn(A, Seq<A>) -> bool,
    out: Seq<A>,
)
    requires
        0 <= i <= s.len(),
        bind_upto(s, i, rel, out),
        forall|x: A, sb: Seq<A>| #[trigger] rel(x, sb) ==> sb == seq![x],
    ensures
        out == s.take(i),
    decreases i,
{
    if i <= 0 {
        assert(out =~= s.take(i));
    } else {
        let last = choose|last: Seq<A>|
            #[trigger] rel(s[i - 1], last) && last.len() <= out.len() && out.skip(
                (out.len() - last.len()) as int,
            ) == last && bind_upto(s, i - 1, rel, out.take((out.len() - last.len()) as int));
        assert(last == seq![s[i - 1]]);
        let pre = out.take((out.len() - last.len()) as int);
        lemma_vec_bind_right_identity_upto(s, i - 1, rel, pre);
        assert(pre.len() == i - 1);
        assert(out.len() == i);
        assert forall|k: int| 0 <= k < i implies out[k] == s[k] by {
            if k < i - 1 {
                assert(out[k] == pre[k]);
            } else {
                assert(out[k] == out.skip((out.len() - 1) as int)[0]);
            }
        }
        assert(out =~= s.take(i));
    }
}

/// Monad right-identity law for sequences: binding a relation that can only
/// lift each element to its one-element sequence is a no-op.
pub proof fn lemma_vec_bind_right_identity<A>(s: Seq<A>, rel: spec_fn(A, Seq<A>) -> bool, out: Seq<A>)
    requires
        bind_graph(s, rel, out),
        forall|x: A, sb: Seq<A>| #[trigger] rel(x, sb) ==> sb == seq![x],
    ensures
        out == s,
{
    lemma_vec_bind_right_identity_upto(s, s.len() as int, rel, out);
    assert(s.take(s.len() as int) =~= s);
}

/// A bind graph only looks at the elements before its bound: sources that
/// agree there have the same graphs.
proof fn lemma_bind_upto_prefix_stable<A, B>(
    s: Seq<A>,
    s2: Seq<A>,
    i: int,
    rel: spec_fn(A, Seq<B>) -> bool,
    o: Seq<B>,
)
    requires
        bind_upto(s, i, rel, o),
        i <= s.len(),
        i <= s2.len(),
        forall|j: int| 0 <= j < i ==> s[j] == s2[j],
    ensures
        bind_upto(s2, i, rel, o),
    decreases i,
{
    if i > 0 {
        let last = choose|last: Seq<B>|
            #[trigger] rel(s[i - 1], last) && last.len() <= o.len() && o.skip(
                (o.len() - last.len()) as int,
            ) == last && bind_upto(s, i - 1, rel, o.take((o.len() - last.len()) as int));
        lemma_bind_upto_prefix_stable(s, s2, i - 1, rel, o.take((o.len() - last.len()) as int));
        assert(rel(s2[i - 1], last));
    }
}

/// A bind graph over a concatenated source splits into a graph over each
/// part, splitting the output at the matching point.
proof fn lemma_bind_split<A, B>(
    x: Seq<A>,
    y: Seq<A>,
    j: int,
    rel: spec_fn(A, Seq<B>) -> bool,
    o: Seq<B>,
)
    requires
        0 <= j <= y.len(),
        bind_upto(x + y, x.len() + j, rel, o),
    ensures
        exists|o1: Seq<B>, o2: Seq<B>|
            #![trigger o1 + o2]
            o == o1 + o2 && bind_graph(x, rel, o1) && bind_upto(y, j, rel, o2),
    decreases j,
{
    let s = x + y;
    if j == 0 {
        lemma_bind_upto_prefix_stable(s, x, x.len() as int, rel, o);
        assert(o == o + Seq::<B>::empty()) by {
            assert(o =~= o + Seq::<B>::empty());
        }
        assert(bind_upto(y, 0, rel, Seq::<B>::empty()));
    } else {
        let last = choose|last: Seq<B>|
            #[trigger] rel(s[x.len() + j - 1], last) && last.len() <= o.len() && o.skip(
                (o.len() - last.len()) as int,
            ) == last && bind_upto(s, x.len() + j - 1, rel, o.take((o.len() - last.len()) as int));
        let o_pre = o.take((o.len() - last.len()) as int);
        lemma_bind_split(x, y, j - 1, rel, o_pre);
        let (o1, o2p) = choose|o1: Seq<B>, o2p: Seq<B>|
            #![trigger o1 + o2p]
            o_pre == o1 + o2p && bind_graph(x, rel, o1) && bind_upto(y, j - 1, rel, o2p);
        assert(rel(y[j - 1], last));
        lemma_bind_upto_step(y, j, rel, o2p, last);
        assert(o == o1 + (o2p + last)) by {
            assert(o =~= o_pre + last);
            assert((o1 + o2p) + last =~= o1 + (o2p + last));
        }
    }
}

/// Monad associativity law for sequences: binding `rf` and then `rg` is a
/// binding of their composition, one prefix at a time.
proof fn lemma_vec_bind_assoc_upto<A, B, C>(
    s: Seq<A>,
    i: int,
    rf: spec_fn(A, Seq<B>) -> bool,
    p1: Seq<B>,
    rg: spec_fn(B, Seq<C>) -> bool,
    p2: Seq<C>,
)
    requires
        0 <= i <= s.len(),
        bind_upto(s, i, rf, p1),
        bind_graph(p1, rg, p2),
    ensures
        bind_upto(
            s,
            i,
            |a: A, o: Seq<C>| exists|mid: Seq<B>| #[trigger] rf(a, mid) && bind_graph(mid, rg, o),
            p2,
        ),
    decreases i,
{
    let comp = |a: A, o: Seq<C>| exists|mid: Seq<B>| #[trigger] rf(a, mid) && bind_graph(mid, rg, o);
    if i <= 0 {
        assert(p1 == Seq::<B>::empty());
        assert(p2 == Seq::<C>::empty());
    } else {
        let last1 = choose|last: Seq<B>|
            #[trigger] rf(s[i - 1], last) && last.len() <= p1.len() && p1.skip(
                (p1.len() - last.len()) as int,
            ) == last && bind_upto(s, i - 1, rf, p1.take((p1.len() - last.len()) as int));
        let pre1 = p1.take((p1.len() - last1.len()) as int);
        assert(p1 =~= pre1 + last1);
        lemma_bind_upto_prefix_stable(p1, pre1 + last1, p1.len() as int, rg, p2);
        lemma_bind_split(pre1, last1, last1.len() as int, rg, p2);
        let (q1, q2) = choose|q1: Seq<C>, q2: Seq<C>|
            #![trigger q1 + q2]
            p2 == q1 + q2 && bind_graph(pre1, rg, q1) && bind_upto(last1, last1.len() as int, rg, q2);
        lemma_vec_bind_assoc_upto(s, i - 1, rf, pre1, rg, q1);
        assert(comp(s[i - 1], q2)) by {
            assert(rf(s[i - 1], last1) && bind_graph(last1, rg, q2));
        }
        lemma_bind_upto_step(s, i, comp, q1, q2);
    }
}

/// Monad associativity law for sequences: binding `rf` and then `rg` is a
/// binding of their composition.
pub proof fn lemma_vec_bind_assoc<A, B, C>(
    s: Seq<A>,
    rf: spec_fn(A, Seq<B>) -> bool,
    r1: Seq<B>,
    rg: spec_fn(B, Seq<C>) -> bool,
    r2: Seq<C>,
)
    requires
        bind_graph(s, rf, r1),
        bind_graph(r1, rg, r2),
    ensures
        bind_graph(
            s,
            |a: A, o: Seq<C>| exists|mid: Seq<B>| #[trigger] rf(a, mid) && bind_graph(mid, rg, o),
            r2,
        ),
{
    lemma_vec_bind_assoc_upto(s, s.len() as int, rf, r1, rg, r2);
}

/// Mapping distributes over concatenation: the map of a concatenation is
/// the concatenation of the maps.
pub proof fn lemma_vec_fmap_distributes_over_alt<A, B>(
    a: Seq<A>,
    b: Seq<A>,
    rel: spec_fn(A, B) -> bool,
    ra: Seq<B>,
    rb: Seq<B>,
)
    requires
        crate::functor::seq_fmap_rel(a, rel, ra),
        crate::functor::seq_fmap_rel(b, rel, rb),
    ensures
        crate::functor::seq_fmap_rel(a + b, rel, ra + rb),
{
    assert forall|i: int| 0 <= i < (a + b).len() implies rel((a + b)[i], #[trigger] (ra + rb)[i]) by {
        if i < a.len() {
            assert((a + b)[i] == a[i] && (ra + rb)[i] == ra[i]);
        } else {
            assert((a + b)[i] == b[i - a.len()] && (ra + rb)[i] == rb[i - a.len()]);
        }
    }
}

/// Functor identity law for sequences: mapping a relation that can only
/// return its argument unchanged is a no-op.
pub proof fn lemma_vec_fmap_identity<A>(c: Seq<A>, rel: spec_fn(A, A) -> bool, r: Seq<A>)
    requires
        crate::functor::seq_fmap_rel(c, rel, r),
        forall|a: A, b: A| #[trigger] rel(a, b) ==> b == a,
    ensures
        r == c,
{
    assert forall|i: int| 0 <= i < c.len() implies c[i] == r[i] by {
        assert(rel(c[i], r[i]));
    }
    assert(r =~= c);
}

/// Functor composition law for sequences: mapping `rf` and then `rg` is a
/// mapping of their composition.
pub proof fn lemma_vec_fmap_compose<A, B, C>(
    c: Seq<A>,
    rf: spec_fn(A, B) -> bool,
    r1: Seq<B>,
    rg: spec_fn(B, C) -> bool,
    r2: Seq<C>,
)
    requires
        crate::functor::seq_fmap_rel(c, rf, r1),
        crate::functor::seq_fmap_rel(r1, rg, r2),
    ensures
        crate::functor::seq_fmap_rel(
            c,
            |a: A, cc: C| exists|b: B| #[trigger] rf(a, b) && rg(b, cc),
            r2,
        ),
{
    assert forall|i: int| #![trigger c[i]] 0 <= i < c.len() implies exists|b: B|
        #[trigger] rf(c[i], b) && rg(b, r2[i]) by {
        assert(rf(c[i], r1[i]));
        assert(rg(r1[i], r2[i]));
    }
}

} // verus!
