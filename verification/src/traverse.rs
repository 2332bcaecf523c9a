//! Traversable and Sequence: inverting two nested container layers.
//!
//! The four traversal shapes are distinguished by whether the *source*
//! container can hold more than one element (`traversem1`/`traversemm`
//! against `traverse11`/`traverse1m`) and whether the *target* container
//! can represent more than one independent outcome.  The canonical
//! single-outcome target is the fallible result, which short-circuits on
//! the first failure; the canonical multi-outcome target is the dynamic
//! sequence, which collects the full combinatorial cross-product.  The
//! target shapes are fixed to these two canonical containers, since a
//! contract generic over an arbitrary applicative target cannot be stated
//! here.
use vstd::prelude::*;

use crate::apply::Apply;
use crate::fun::{F1, F1Once};
use crate::functor::{seq_fmap_rel, Functor};
use crate::impls::option::OptionHkt;
use crate::impls::result::ResultOk;
use crate::impls::tinyvec::{ArrayVec, ArrayVecHkt};
use crate::impls::vec::{cross_entry, VecHkt};
use crate::HKT1;

verus! {

/// The outcome relation a result-returning callable induces on elements.
pub open spec fn res_fn_rel<A, B, E, F: F1Once<A, Ret = Result<B, E>>>(f: F) -> spec_fn(
    A,
    Result<B, E>,
) -> bool {
    |a: A, o: Result<B, E>| f.post1(a, o)
}

/// `pre` records a successful outcome for every element before position
/// `k`.
pub open spec fn traversed_prefix<A, B, E>(
    s: Seq<A>,
    rel: spec_fn(A, Result<B, E>) -> bool,
    k: int,
    pre: Seq<B>,
) -> bool {
    pre.len() >= k && forall|j: int|
        0 <= j < k ==> rel(s[j], Result::<B, E>::Ok(#[trigger] pre[j]))
}

/// A failure `e` is a traversal outcome of `s`: some element admits it,
/// and every earlier element has a successful outcome.
pub open spec fn traversed_failure<A, B, E>(
    s: Seq<A>,
    rel: spec_fn(A, Result<B, E>) -> bool,
    e: E,
) -> bool {
    exists|k: int, pre: Seq<B>|
        #![trigger rel(s[k], Result::<B, E>::Err(e)), traversed_prefix(s, rel, k, pre)]
        0 <= k < s.len() && rel(s[k], Result::<B, E>::Err(e)) && traversed_prefix(s, rel, k, pre)
}

/// How a traversal result relates to the source sequence: on success, one
/// outcome per element in order; on failure, the first failure the relation
/// admits, with every earlier element successful.
pub open spec fn traversed<A, B, E>(
    s: Seq<A>,
    rel: spec_fn(A, Result<B, E>) -> bool,
    r: Result<Seq<B>, E>,
) -> bool {
    match r {
        Ok(out) => out.len() == s.len() && forall|i: int|
            0 <= i < s.len() ==> rel(s[i], Result::<B, E>::Ok(#[trigger] out[i])),
        Err(e) => traversed_failure(s, rel, e),
    }
}

/// How a sequenced container of results relates to the single-outcome
/// result of a container: all-successful elements are collected unchanged;
/// otherwise the first failure wins.
pub open spec fn sequenced<A, E>(s: Seq<Result<A, E>>, r: Result<Seq<A>, E>) -> bool {
    match r {
        Ok(out) => out.len() == s.len() && forall|i: int|
            0 <= i < s.len() ==> #[trigger] s[i] == Result::<A, E>::Ok(out[i]),
        Err(e) => exists|k: int|
            0 <= k < s.len() && (#[trigger] s[k]) == Result::<A, E>::Err(e) && (forall|j: int|
                0 <= j < k ==> s[j] is Ok),
    }
}

/// A traversal that meets the first failure, with every earlier element
/// successful, relates to that failure.
pub proof fn lemma_traversed_err<A, B, E>(
    s: Seq<A>,
    rel: spec_fn(A, Result<B, E>) -> bool,
    k: int,
    out: Seq<B>,
    e: E,
)
    requires
        0 <= k < s.len(),
        rel(s[k], Result::<B, E>::Err(e)),
        out.len() >= k,
        forall|j: int| 0 <= j < k ==> rel(s[j], Result::<B, E>::Ok(#[trigger] out[j])),
    ensures
        traversed(s, rel, Result::<Seq<B>, E>::Err(e)),
{
    assert(traversed_prefix(s, rel, k, out));
    assert(traversed_failure(s, rel, e));
}

/// The cross-product extension of a table of partial combinations `pre` by
/// the outcomes `fv` of one more element: row `p` of `pre` extended with
/// entry `q` of `fv` lands at position `p * fv.len() + q`.
pub open spec fn cross_ext<B>(pre: Seq<Seq<B>>, fv: Seq<B>) -> Seq<Seq<B>> {
    Seq::new(pre.len() * fv.len(), |k: int| pre[k / fv.len() as int].push(fv[k % fv.len() as int]))
}

/// The graph of a multi-outcome traversal of the first `i` elements of
/// `s`: which tables of combinations may arise, one cross-product
/// extension per element.
pub open spec fn product_upto<A, B>(
    s: Seq<A>,
    i: int,
    rel: spec_fn(A, Seq<B>) -> bool,
    out: Seq<Seq<B>>,
) -> bool
    decreases i,
{
    if i <= 0 {
        out == seq![Seq::<B>::empty()]
    } else {
        exists|pre: Seq<Seq<B>>, fv: Seq<B>|
            out == #[trigger] cross_ext(pre, fv) && product_upto(s, i - 1, rel, pre) && rel(
                s[i - 1],
                fv,
            )
    }
}

/// The graph of a multi-outcome traversal of all of `s`.
pub open spec fn product_graph<A, B>(
    s: Seq<A>,
    rel: spec_fn(A, Seq<B>) -> bool,
    out: Seq<Seq<B>>,
) -> bool {
    product_upto(s, s.len() as int, rel, out)
}

/// Extending a multi-outcome traversal graph by one step.
pub proof fn lemma_product_upto_step<A, B>(
    s: Seq<A>,
    j: int,
    rel: spec_fn(A, Seq<B>) -> bool,
    pre: Seq<Seq<B>>,
    fv: Seq<B>,
)
    requires
        1 <= j,
        product_upto(s, j - 1, rel, pre),
        rel(s[j - 1], fv),
    ensures
        product_upto(s, j, rel, cross_ext(pre, fv)),
{
}

/// Every combination a multi-outcome traversal of `i` elements draws has
/// one entry per element.
pub proof fn lemma_product_rows_len<A, B>(
    s: Seq<A>,
    i: int,
    rel: spec_fn(A, Seq<B>) -> bool,
    out: Seq<Seq<B>>,
)
    requires
        0 <= i,
        product_upto(s, i, rel, out),
    ensures
        forall|k: int| 0 <= k < out.len() ==> (#[trigger] out[k]).len() == i,
    decreases i,
{
    if i <= 0 {
        assert(out == seq![Seq::<B>::empty()]);
    } else {
        let (pre, fv) = choose|pre: Seq<Seq<B>>, fv: Seq<B>|
            out == #[trigger] cross_ext(pre, fv) && product_upto(s, i - 1, rel, pre) && rel(
                s[i - 1],
                fv,
            );
        lemma_product_rows_len(s, i - 1, rel, pre);
        let m = fv.len() as int;
        assert forall|k: int| 0 <= k < out.len() implies (#[trigger] out[k]).len() == i by {
            vstd::arithmetic::div_mod::lemma_fundamental_div_mod(k, m);
            vstd::arithmetic::div_mod::lemma_mod_bound(k, m);
            let p = k / m;
            let q = k % m;
            assert(0 <= p < pre.len()) by (nonlinear_arith)
                requires
                    k == p * m + q,
                    0 <= q < m,
                    0 <= k < pre.len() * m,
            ;
            assert(out[k] == pre[p].push(fv[q]));
        }
    }
}

/// The elementwise view of a table of rows.
pub open spec fn rows_view<B>(v: Seq<Vec<B>>) -> Seq<Seq<B>> {
    Seq::new(v.len(), |k: int| v[k]@)
}

/// A callable that appends its argument to a stored row, yielding the
/// extended row.
pub struct RowAppend<B> {
    /// The stored partial combination.
    pub row: Vec<B>,
}

impl<B: Copy> F1Once<B> for RowAppend<B> {
    type Ret = Vec<B>;

    /// Every argument is accepted.
    open spec fn pre1(&self, b: B) -> bool {
        true
    }

    /// The result is the stored row extended by the argument.
    open spec fn post1(&self, b: B, r: Vec<B>) -> bool {
        r@ == self.row@.push(b)
    }

    fn call1(self, b: B) -> (r: Vec<B>) {
        let mut r = self.row;
        r.push(b);
        r
    }
}

impl<B: Copy> crate::fun::F1<B> for RowAppend<B> {
    fn call(&self, b: B) -> (r: Vec<B>) {
        let mut r: Vec<B> = Vec::new();
        let mut t: usize = 0;
        while t < self.row.len()
            invariant
                t <= self.row@.len(),
                r@ == self.row@.take(t as int),
            decreases self.row@.len() - t,
        {
            r.push(self.row[t]);
            proof {
                assert(r@ =~= self.row@.take(t + 1));
            }
            t = t + 1;
        }
        proof {
            assert(self.row@.take(t as int) =~= self.row@);
        }
        r.push(b);
        r
    }
}

/// A callable that wraps a row into a [`RowAppend`] node.
pub struct WrapRow<B>(pub core::marker::PhantomData<B>);

impl<B> F1Once<Vec<B>> for WrapRow<B> {
    type Ret = RowAppend<B>;

    /// Every row is accepted.
    open spec fn pre1(&self, v: Vec<B>) -> bool {
        true
    }

    /// The row is stored unchanged.
    open spec fn post1(&self, v: Vec<B>, r: RowAppend<B>) -> bool {
        r.row == v
    }

    fn call1(self, v: Vec<B>) -> (r: RowAppend<B>) {
        RowAppend { row: v }
    }
}

impl<B> crate::fun::F1<Vec<B>> for WrapRow<B> {
    fn call(&self, v: Vec<B>) -> (r: RowAppend<B>) {
        RowAppend { row: v }
    }
}

/// Traversal for sources with at most one element, calling the supplied
/// function at most once.
pub trait TraversableOnce<M, A, B> where M: HKT1<A, T = Self>, Self: Sized {
    /// Traverse into the single-outcome target: swap the source layer with
    /// a fallible result.
    fn traverse11<E, F>(self, f: F) -> Result<<M as HKT1<B>>::T, E>
        where
            M: HKT1<B>,
            F: F1Once<A, Ret = Result<B, E>>,
        requires
            forall|a: A| #[trigger] f.pre1(a),
    ;

    /// Traverse into the multi-outcome target: replicate the source shape
    /// over every outcome.
    fn traverse1m<F>(self, f: F) -> Vec<<M as HKT1<B>>::T>
        where
            M: HKT1<B>,
            F: F1Once<A, Ret = Vec<B>>,
        requires
            forall|a: A| #[trigger] f.pre1(a),
    ;

    /// Alias of [`TraversableOnce::traverse11`].
    fn traverse_swap<E, F>(self, f: F) -> Result<<M as HKT1<B>>::T, E>
        where
            M: HKT1<B>,
            F: F1Once<A, Ret = Result<B, E>>,
        requires
            forall|a: A| #[trigger] f.pre1(a),
    {
        self.traverse11(f)
    }

    /// Alias of [`TraversableOnce::traverse1m`].
    fn traverse_replicate<F>(self, f: F) -> Vec<<M as HKT1<B>>::T>
        where
            M: HKT1<B>,
            F: F1Once<A, Ret = Vec<B>>,
        requires
            forall|a: A| #[trigger] f.pre1(a),
    {
        self.traverse1m(f)
    }
}

/// Traversal for sources with any number of elements; the supplied
/// function must be repeatable.
pub trait Traversable<M, A, B> where M: HKT1<A, T = Self>, Self: Sized {
    /// Traverse into the single-outcome target, short-circuiting on the
    /// first failure.
    fn traversem1<E, F>(self, f: F) -> Result<<M as HKT1<B>>::T, E>
        where
            M: HKT1<B>,
            F: F1<A, Ret = Result<B, E>>,
        requires
            forall|a: A| #[trigger] f.pre1(a),
    ;

    /// Traverse into the multi-outcome target, collecting the full
    /// combinatorial cross-product (beware its size on large inputs).
    fn traversemm<F>(self, f: F) -> Vec<<M as HKT1<B>>::T>
        where
            M: HKT1<B>,
            F: F1<A, Ret = Vec<B>>,
            B: Copy,
        requires
            forall|a: A| #[trigger] f.pre1(a),
    ;

    /// Alias of [`Traversable::traversem1`].
    fn traverse<E, F>(self, f: F) -> Result<<M as HKT1<B>>::T, E>
        where
            M: HKT1<B>,
            F: F1<A, Ret = Result<B, E>>,
        requires
            forall|a: A| #[trigger] f.pre1(a),
    {
        self.traversem1(f)
    }
}

/// Sequence: invert a container of results into a result of a container,
/// short-circuiting on the first failure.
pub trait Sequence<M, A, E> where M: HKT1<Result<A, E>, T = Self> + HKT1<A>, Self: Sized {
    /// Invert the two layers.
    fn sequence(self) -> Result<<M as HKT1<A>>::T, E>;
}

impl<A, B> Traversable<VecHkt, A, B> for Vec<A> {
    #[verifier::loop_isolation(false)]
    fn traversem1<E, F>(self, f: F) -> (r: Result<<VecHkt as HKT1<B>>::T, E>)
        where
            F: F1<A, Ret = Result<B, E>>,
        ensures
            traversed(
                self@,
                res_fn_rel(f),
                match r {
                    Ok(v) => Result::<Seq<B>, E>::Ok(v@),
                    Err(e) => Result::<Seq<B>, E>::Err(e),
                },
            ),
    {
        let ghost rel = res_fn_rel(f);
        let ghost orig = self@;
        let mut v = self;
        let mut out: Vec<B> = Vec::new();
        while v.len() > 0
            invariant
                v@.len() <= orig.len(),
                v@ == orig.skip(out@.len() as int),
                out@.len() + v@.len() == orig.len(),
                forall|t: int| 0 <= t < out@.len() ==> #[trigger] rel(orig[t], Result::<B, E>::Ok(out@[t])),
            decreases v.len(),
        {
            let ghost i = out@.len() as int;
            let a = v.remove(0);
            proof {
                assert(a == orig[i]);
                assert(v@ =~= orig.skip(i + 1));
            }
            match f.call(a) {
                Ok(b) => {
                    out.push(b);
                },
                Err(e) => {
                    proof {
                        assert(rel(orig[i], Result::<B, E>::Err(e)));
                        lemma_traversed_err(orig, rel, i, out@, e);
                    }
                    return Err(e);
                },
            }
        }
        Ok(out)
    }

    #[verifier::loop_isolation(false)]
    fn traversemm<F>(self, f: F) -> (r: Vec<<VecHkt as HKT1<B>>::T>)
        where
            F: F1<A, Ret = Vec<B>>,
            B: Copy,
        ensures
            product_graph(self@, crate::impls::vec::bind_fn_rel(f), rows_view(r@)),
    {
        let ghost rel = crate::impls::vec::bind_fn_rel(f);
        let ghost orig = self@;
        let mut v = self;
        let mut out: Vec<Vec<B>> = Vec::new();
        out.push(Vec::new());
        proof {
            assert(rows_view(out@) =~~= seq![Seq::<B>::empty()]);
        }
        while v.len() > 0
            invariant
                v@.len() <= orig.len(),
                v@ == orig.skip((orig.len() - v@.len()) as int),
                product_upto(orig, (orig.len() - v@.len()) as int, rel, rows_view(out@)),
            decreases v.len(),
        {
            let ghost i = (orig.len() - v@.len()) as int;
            let a = v.remove(0);
            proof {
                assert(a == orig[i]);
                assert(v@ =~= orig.skip(i + 1));
            }
            let fv = f.call(a);
            let ghost fvs = fv@;
            let ghost out_pre = out@;
            let ghost old_rows = rows_view(out@);
            let wrapped = out.fmap(WrapRow(core::marker::PhantomData::<B>));
            let ghost cloner = crate::fun::CopyFn::<B>(core::marker::PhantomData);
            let new_out = wrapped.apply_with(fv, crate::fun::CopyFn::new());
            proof {
                let m = fvs.len() as int;
                assert(rel(orig[i], fvs));
                assert(seq_fmap_rel(
                    out_pre,
                    |row: Vec<B>, w: RowAppend<B>| w.row == row,
                    wrapped@,
                ));
                assert forall|k: int|
                    0 <= k < new_out@.len() implies new_out@[k]@ == old_rows[k / m].push(
                    fvs[k % m],
                ) by {
                    vstd::arithmetic::div_mod::lemma_fundamental_div_mod(k, m);
                    vstd::arithmetic::div_mod::lemma_mod_bound(k, m);
                    let p = k / m;
                    let q = k % m;
                    assert(0 <= p < old_rows.len()) by (nonlinear_arith)
                        requires
                            k == p * m + q,
                            0 <= q < m,
                            0 <= k < old_rows.len() * m,
                    ;
                    assert(cross_entry(wrapped@, fvs, cloner, new_out@, p, q));
                    let x3 = choose|x3: B|
                        cloner.post1(&fvs[q], x3) && (wrapped@[p]).post1(x3, new_out@[p * m + q]);
                    assert(new_out@[p * m + q] == new_out@[k]);
                    assert((wrapped@[p]).row == out_pre[p]);
                }
                assert(rows_view(new_out@) =~~= cross_ext(old_rows, fvs));
                lemma_product_upto_step(orig, i + 1, rel, old_rows, fvs);
            }
            out = new_out;
        }
        out
    }
}


/// A callable that wraps a value in `Some`.
pub struct SomeFn<B>(pub core::marker::PhantomData<B>);

impl<B> F1Once<B> for SomeFn<B> {
    type Ret = Option<B>;

    /// Every value is accepted.
    open spec fn pre1(&self, b: B) -> bool {
        true
    }

    /// The value is wrapped in `Some`.
    open spec fn post1(&self, b: B, r: Option<B>) -> bool {
        r == Some(b)
    }

    fn call1(self, b: B) -> (r: Option<B>) {
        Some(b)
    }
}

impl<B> crate::fun::F1<B> for SomeFn<B> {
    fn call(&self, b: B) -> (r: Option<B>) {
        Some(b)
    }
}

/// A callable that wraps a value in `Ok`.
pub struct OkFn<B, E2>(pub core::marker::PhantomData<(B, E2)>);

impl<B, E2> F1Once<B> for OkFn<B, E2> {
    type Ret = Result<B, E2>;

    /// Every value is accepted.
    open spec fn pre1(&self, b: B) -> bool {
        true
    }

    /// The value is wrapped in `Ok`.
    open spec fn post1(&self, b: B, r: Result<B, E2>) -> bool {
        r == Result::<B, E2>::Ok(b)
    }

    fn call1(self, b: B) -> (r: Result<B, E2>) {
        Ok(b)
    }
}

impl<B, E2> crate::fun::F1<B> for OkFn<B, E2> {
    fn call(&self, b: B) -> (r: Result<B, E2>) {
        Ok(b)
    }
}

impl<A, B> TraversableOnce<OptionHkt, A, B> for Option<A> {
    fn traverse11<E, F>(self, f: F) -> (r: Result<<OptionHkt as HKT1<B>>::T, E>)
        where
            F: F1Once<A, Ret = Result<B, E>>,
        ensures
            (match self {
                None => r == Result::<Option<B>, E>::Ok(None),
                Some(a) => match r {
                    Ok(ob) => ob matches Some(b) && f.post1(a, Result::<B, E>::Ok(b)),
                    Err(e) => f.post1(a, Result::<B, E>::Err(e)),
                },
            }),
    {
        match self {
            None => Ok(None),
            Some(a) => match f.call1(a) {
                Ok(b) => Ok(Some(b)),
                Err(e) => Err(e),
            },
        }
    }

    fn traverse1m<F>(self, f: F) -> (r: Vec<<OptionHkt as HKT1<B>>::T>)
        where
            F: F1Once<A, Ret = Vec<B>>,
        ensures
            (match self {
                None => r@ == seq![Option::<B>::None],
                Some(a) => exists|fv: Vec<B>|
                    #[trigger] f.post1(a, fv) && r@.len() == fv@.len() && (forall|i: int|
                        0 <= i < fv@.len() ==> r@[i] == Some(fv@[i])),
            }),
    {
        match self {
            None => {
                let mut out: Vec<Option<B>> = Vec::new();
                out.push(None);
                proof {
                    assert(out@ =~= seq![Option::<B>::None]);
                }
                out
            },
            Some(a) => {
                let fv = f.call1(a);
                let out = fv.fmap(SomeFn(core::marker::PhantomData::<B>));
                out
            },
        }
    }

    /// Alias of `traverse11`, with the same contract.
    fn traverse_swap<E, F>(self, f: F) -> (r: Result<<OptionHkt as HKT1<B>>::T, E>)
        where
            F: F1Once<A, Ret = Result<B, E>>,
        ensures
            (match self {
                None => r == Result::<Option<B>, E>::Ok(None),
                Some(a) => match r {
                    Ok(ob) => ob matches Some(b) && f.post1(a, Result::<B, E>::Ok(b)),
                    Err(e) => f.post1(a, Result::<B, E>::Err(e)),
                },
            }),
    {
        self.traverse11(f)
    }

    /// Alias of `traverse1m`, with the same contract.
    fn traverse_replicate<F>(self, f: F) -> (r: Vec<<OptionHkt as HKT1<B>>::T>)
        where
            F: F1Once<A, Ret = Vec<B>>,
        ensures
            (match self {
                None => r@ == seq![Option::<B>::None],
                Some(a) => exists|fv: Vec<B>|
                    #[trigger] f.post1(a, fv) && r@.len() == fv@.len() && (forall|i: int|
                        0 <= i < fv@.len() ==> r@[i] == Some(fv@[i])),
            }),
    {
        self.traverse1m(f)
    }
}

impl<A, B> Traversable<OptionHkt, A, B> for Option<A> {
    fn traversem1<E, F>(self, f: F) -> (r: Result<<OptionHkt as HKT1<B>>::T, E>)
        where
            F: F1<A, Ret = Result<B, E>>,
        ensures
            (match self {
                None => r == Result::<Option<B>, E>::Ok(None),
                Some(a) => match r {
                    Ok(ob) => ob matches Some(b) && f.post1(a, Result::<B, E>::Ok(b)),
                    Err(e) => f.post1(a, Result::<B, E>::Err(e)),
                },
            }),
    {
        match self {
            None => Ok(None),
            Some(a) => match f.call(a) {
                Ok(b) => Ok(Some(b)),
                Err(e) => Err(e),
            },
        }
    }

    fn traversemm<F>(self, f: F) -> (r: Vec<<OptionHkt as HKT1<B>>::T>)
        where
            F: F1<A, Ret = Vec<B>>,
            B: Copy,
        ensures
            (match self {
                None => r@ == seq![Option::<B>::None],
                Some(a) => exists|fv: Vec<B>|
                    #[trigger] f.post1(a, fv) && r@.len() == fv@.len() && (forall|i: int|
                        0 <= i < fv@.len() ==> r@[i] == Some(fv@[i])),
            }),
    {
        match self {
            None => {
                let mut out: Vec<Option<B>> = Vec::new();
                out.push(None);
                proof {
                    assert(out@ =~= seq![Option::<B>::None]);
                }
                out
            },
            Some(a) => {
                let fv = f.call(a);
                let out = fv.fmap(SomeFn(core::marker::PhantomData::<B>));
                out
            },
        }
    }
}

impl<A, B, E2> TraversableOnce<ResultOk<E2>, A, B> for Result<A, E2> {
    fn traverse11<E, F>(self, f: F) -> (r: Result<<ResultOk<E2> as HKT1<B>>::T, E>)
        where
            F: F1Once<A, Ret = Result<B, E>>,
        ensures
            (match self {
                Err(e2) => r == Result::<Result<B, E2>, E>::Ok(Result::<B, E2>::Err(e2)),
                Ok(a) => match r {
                    Ok(rb) => rb matches Ok(b) && f.post1(a, Result::<B, E>::Ok(b)),
                    Err(e) => f.post1(a, Result::<B, E>::Err(e)),
                },
            }),
    {
        match self {
            Err(e2) => Ok(Err(e2)),
            Ok(a) => match f.call1(a) {
                Ok(b) => Ok(Ok(b)),
                Err(e) => Err(e),
            },
        }
    }

    fn traverse1m<F>(self, f: F) -> (r: Vec<<ResultOk<E2> as HKT1<B>>::T>)
        where
            F: F1Once<A, Ret = Vec<B>>,
        ensures
            (match self {
                Err(e2) => r@ == seq![Result::<B, E2>::Err(e2)],
                Ok(a) => exists|fv: Vec<B>|
                    #[trigger] f.post1(a, fv) && r@.len() == fv@.len() && (forall|i: int|
                        0 <= i < fv@.len() ==> r@[i] == Result::<B, E2>::Ok(fv@[i])),
            }),
    {
        match self {
            Err(e2) => {
                let mut out: Vec<Result<B, E2>> = Vec::new();
                out.push(Err(e2));
                proof {
                    assert(out@ =~= seq![Result::<B, E2>::Err(e2)]);
                }
                out
            },
            Ok(a) => {
                let fv = f.call1(a);
                let out = fv.fmap(OkFn(core::marker::PhantomData::<(B, E2)>));
                out
            },
        }
    }

    /// Alias of `traverse11`, with the same contract.
    fn traverse_swap<E, F>(self, f: F) -> (r: Result<<ResultOk<E2> as HKT1<B>>::T, E>)
        where
            F: F1Once<A, Ret = Result<B, E>>,
        ensures
            (match self {
                Err(e2) => r == Result::<Result<B, E2>, E>::Ok(Result::<B, E2>::Err(e2)),
                Ok(a) => match r {
                    Ok(rb) => rb matches Ok(b) && f.post1(a, Result::<B, E>::Ok(b)),
                    Err(e) => f.post1(a, Result::<B, E>::Err(e)),
                },
            }),
    {
        self.traverse11(f)
    }

    /// Alias of `traverse1m`, with the same contract.
    fn traverse_replicate<F>(self, f: F) -> (r: Vec<<ResultOk<E2> as HKT1<B>>::T>)
        where
            F: F1Once<A, Ret = Vec<B>>,
        ensures
            (match self {
                Err(e2) => r@ == seq![Result::<B, E2>::Err(e2)],
                Ok(a) => exists|fv: Vec<B>|
                    #[trigger] f.post1(a, fv) && r@.len() == fv@.len() && (forall|i: int|
                        0 <= i < fv@.len() ==> r@[i] == Result::<B, E2>::Ok(fv@[i])),
            }),
    {
        self.traverse1m(f)
    }
}

impl<A, B, E2> Traversable<ResultOk<E2>, A, B> for Result<A, E2> {
    fn traversem1<E, F>(self, f: F) -> (r: Result<<ResultOk<E2> as HKT1<B>>::T, E>)
        where
            F: F1<A, Ret = Result<B, E>>,
        ensures
            (match self {
                Err(e2) => r == Result::<Result<B, E2>, E>::Ok(Result::<B, E2>::Err(e2)),
                Ok(a) => match r {
                    Ok(rb) => rb matches Ok(b) && f.post1(a, Result::<B, E>::Ok(b)),
                    Err(e) => f.post1(a, Result::<B, E>::Err(e)),
                },
            }),
    {
        match self {
            Err(e2) => Ok(Err(e2)),
            Ok(a) => match f.call(a) {
                Ok(b) => Ok(Ok(b)),
                Err(e) => Err(e),
            },
        }
    }

    fn traversemm<F>(self, f: F) -> (r: Vec<<ResultOk<E2> as HKT1<B>>::T>)
        where
            F: F1<A, Ret = Vec<B>>,
            B: Copy,
        ensures
            (match self {
                Err(e2) => r@ == seq![Result::<B, E2>::Err(e2)],
                Ok(a) => exists|fv: Vec<B>|
                    #[trigger] f.post1(a, fv) && r@.len() == fv@.len() && (forall|i: int|
                        0 <= i < fv@.len() ==> r@[i] == Result::<B, E2>::Ok(fv@[i])),
            }),
    {
        match self {
            Err(e2) => {
                let mut out: Vec<Result<B, E2>> = Vec::new();
                out.push(Err(e2));
                proof {
                    assert(out@ =~= seq![Result::<B, E2>::Err(e2)]);
                }
                out
            },
            Ok(a) => {
                let fv = f.call(a);
                let out = fv.fmap(OkFn(core::marker::PhantomData::<(B, E2)>));
                out
            },
        }
    }
}

impl<A, E> Sequence<VecHkt, A, E> for Vec<Result<A, E>> {
    #[verifier::loop_isolation(false)]
    fn sequence(self) -> (r: Result<<VecHkt as HKT1<A>>::T, E>)
        ensures
            sequenced(
                self@,
                match r {
                    Ok(v) => Result::<Seq<A>, E>::Ok(v@),
                    Err(e) => Result::<Seq<A>, E>::Err(e),
                },
            ),
    {
        let ghost orig = self@;
        let mut v = self;
        let mut out: Vec<A> = Vec::new();
        while v.len() > 0
            invariant
                v@.len() <= orig.len(),
                v@ == orig.skip(out@.len() as int),
                out@.len() + v@.len() == orig.len(),
                forall|t: int| 0 <= t < out@.len() ==> #[trigger] orig[t] == Result::<A, E>::Ok(out@[t]),
            decreases v.len(),
        {
            let ghost i = out@.len() as int;
            let a = v.remove(0);
            proof {
                assert(a == orig[i]);
                assert(v@ =~= orig.skip(i + 1));
            }
            match a {
                Ok(x) => {
                    out.push(x);
                },
                Err(e) => {
                    return Err(e);
                },
            }
        }
        Ok(out)
    }
}

impl<A, E> Sequence<OptionHkt, A, E> for Option<Result<A, E>> {
    fn sequence(self) -> (r: Result<<OptionHkt as HKT1<A>>::T, E>)
        ensures
            (match self {
                None => r == Result::<Option<A>, E>::Ok(None),
                Some(Ok(a)) => r == Result::<Option<A>, E>::Ok(Some(a)),
                Some(Err(e)) => r == Result::<Option<A>, E>::Err(e),
            }),
    {
        match self {
            None => Ok(None),
            Some(Ok(a)) => Ok(Some(a)),
            Some(Err(e)) => Err(e),
        }
    }
}

impl<A, E, const N: usize> Sequence<ArrayVecHkt<N>, A, E> for ArrayVec<Result<A, E>, N> {
    fn sequence(self) -> (r: Result<<ArrayVecHkt<N> as HKT1<A>>::T, E>)
        ensures
            sequenced(
                self.elems@,
                match r {
                    Ok(av) => Result::<Seq<A>, E>::Ok(av.elems@),
                    Err(e) => Result::<Seq<A>, E>::Err(e),
                },
            ),
            (self.wf() && r is Ok ==> r->Ok_0.wf()),
    {
        match self.elems.sequence() {
            Ok(v) => Ok(ArrayVec { elems: v }),
            Err(e) => Err(e),
        }
    }
}


impl<A, B, const N: usize> Traversable<ArrayVecHkt<N>, A, B> for ArrayVec<A, N> {
    fn traversem1<E, F>(self, f: F) -> (r: Result<<ArrayVecHkt<N> as HKT1<B>>::T, E>)
        where
            F: F1<A, Ret = Result<B, E>>,
        ensures
            traversed(
                self.elems@,
                res_fn_rel(f),
                match r {
                    Ok(av) => Result::<Seq<B>, E>::Ok(av.elems@),
                    Err(e) => Result::<Seq<B>, E>::Err(e),
                },
            ),
            (self.wf() && r is Ok ==> r->Ok_0.wf()),
    {
        match self.elems.traversem1(f) {
            Ok(v) => Ok(ArrayVec { elems: v }),
            Err(e) => Err(e),
        }
    }

    fn traversemm<F>(self, f: F) -> (r: Vec<<ArrayVecHkt<N> as HKT1<B>>::T>)
        where
            F: F1<A, Ret = Vec<B>>,
            B: Copy,
        ensures
            (exists|t: Seq<Vec<B>>|
                #[trigger] product_graph(self.elems@, crate::impls::vec::bind_fn_rel(f), rows_view(t))
                    && r@.len() == t.len() && (forall|k: int|
                    0 <= k < t.len() ==> (#[trigger] r@[k]).elems == t[k])),
    {
        let inner = self.elems.traversemm(f);
        let ghost t0 = inner@;
        let out = inner.fmap(WrapAv::<B, N>(core::marker::PhantomData));
        out
    }

    /// Alias of `traversem1`, with the same contract.
    fn traverse<E, F>(self, f: F) -> (r: Result<<ArrayVecHkt<N> as HKT1<B>>::T, E>)
        where
            F: F1<A, Ret = Result<B, E>>,
        ensures
            traversed(
                self.elems@,
                res_fn_rel(f),
                match r {
                    Ok(av) => Result::<Seq<B>, E>::Ok(av.elems@),
                    Err(e) => Result::<Seq<B>, E>::Err(e),
                },
            ),
            (self.wf() && r is Ok ==> r->Ok_0.wf()),
    {
        self.traversem1(f)
    }
}

/// A callable that wraps a row into a fixed-capacity sequence.
pub struct WrapAv<B, const N: usize>(pub core::marker::PhantomData<B>);

impl<B, const N: usize> F1Once<Vec<B>> for WrapAv<B, N> {
    type Ret = ArrayVec<B, N>;

    /// Every row is accepted.
    open spec fn pre1(&self, v: Vec<B>) -> bool {
        true
    }

    /// The row is stored unchanged.
    open spec fn post1(&self, v: Vec<B>, r: ArrayVec<B, N>) -> bool {
        r.elems == v
    }

    fn call1(self, v: Vec<B>) -> (r: ArrayVec<B, N>) {
        ArrayVec { elems: v }
    }
}

impl<B, const N: usize> crate::fun::F1<Vec<B>> for WrapAv<B, N> {
    fn call(&self, v: Vec<B>) -> (r: ArrayVec<B, N>) {
        ArrayVec { elems: v }
    }
}

/// Sequencing a container whose elements are all successful yields a
/// success holding the original elements unchanged.
pub proof fn lemma_sequence_all_ok<A, E>(s: Seq<Result<A, E>>, r: Result<Seq<A>, E>)
    requires
        sequenced(s, r),
        forall|i: int| 0 <= i < s.len() ==> (#[trigger] s[i]) is Ok,
    ensures
        (r matches Ok(out) && out.len() == s.len() && forall|i: int|
            0 <= i < s.len() ==> s[i] == Result::<A, E>::Ok(out[i])),
{
}

/// Sequencing a container holding exactly one failure-like element yields
/// that failure, wherever it stands.
pub proof fn lemma_sequence_one_failure<A, E>(s: Seq<Result<A, E>>, r: Result<Seq<A>, E>, k: int, e: E)
    requires
        sequenced(s, r),
        0 <= k < s.len(),
        s[k] == Result::<A, E>::Err(e),
        forall|j: int| 0 <= j < s.len() && j != k ==> (#[trigger] s[j]) is Ok,
    ensures
        r == Result::<Seq<A>, E>::Err(e),
{
    match r {
        Ok(out) => {
            assert(s[k] == Result::<A, E>::Ok(out[k]));
        },
        Err(e2) => {
            let k2 = choose|k2: int|
                0 <= k2 < s.len() && (#[trigger] s[k2]) == Result::<A, E>::Err(e2);
            assert(k2 == k);
        },
    }
}

} // verus!
