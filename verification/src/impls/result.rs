//! The fallible-result adapter: the typeclass hierarchy implemented for
//! `Result`, together with proofs of the functor and monad laws and a few
//! extra result-only helpers.
use vstd::prelude::*;

use crate::alt::Alt;
use crate::apply::{Applicative, Apply, ApplyOnce};
use crate::bifunctor::{Bifunctor, BifunctorOnce};
use crate::fold::{Foldable, FoldableOnce};
use crate::fun::{F1, F1Once, F2, F2Once};
use crate::functor::{Functor, FunctorOnce};
use crate::monad::{Monad, MonadOnce};
use crate::{HKT1, HKT2};

verus! {

/// `Result` with the error type pinned to `E`, lifted to a one-slot
/// type-constructor marker (kind `Type -> Type`).
pub struct ResultOk<E> {
    /// The pinned error type.
    pub ph: core::marker::PhantomData<E>,
}

impl<A, E> HKT1<A> for ResultOk<E> {
    type T = Result<A, E>;
}

/// `Result` lifted to a two-slot type-constructor marker (kind
/// `Type -> Type -> Type`).
pub struct ResultHkt;

impl<A, B> HKT2<A, B> for ResultHkt {
    type T = Result<A, B>;
}

/// How a mapped result relates to the original: an error passes through
/// unchanged, and the value of an `Ok` is sent through the relation.
pub open spec fn fmap_rel<A, B, E>(c: Result<A, E>, rel: spec_fn(A, B) -> bool, r: Result<B, E>) -> bool {
    match (c, r) {
        (Ok(a), Ok(b)) => rel(a, b),
        (Err(e), Err(e2)) => e2 == e,
        _ => false,
    }
}

/// How an applied result relates to the lifted function and lifted
/// argument: the first error from the left short-circuits.
pub open spec fn apply_rel<G, A, B, E>(
    fs: Result<G, E>,
    xs: Result<A, E>,
    rel: spec_fn(G, A, B) -> bool,
    r: Result<B, E>,
) -> bool {
    match fs {
        Ok(g) => match xs {
            Ok(x) => match r {
                Ok(b) => rel(g, x, b),
                Err(_) => false,
            },
            Err(e) => r == Result::<B, E>::Err(e),
        },
        Err(e) => r == Result::<B, E>::Err(e),
    }
}

/// How a bound result relates to the original: an error short-circuits, and
/// the value of an `Ok` decides the whole result through the relation.
pub open spec fn bind_rel<A, B, E>(
    m: Result<A, E>,
    rel: spec_fn(A, Result<B, E>) -> bool,
    r: Result<B, E>,
) -> bool {
    match m {
        Ok(a) => rel(a, r),
        Err(e) => r == Result::<B, E>::Err(e),
    }
}

/// Extra operations that only make sense for a fallible result.
pub trait ResultExt<T, E>: Sized {
    /// Swap the `Ok` and `Err` variants.
    fn swap(self) -> Result<E, T>;

    /// Turn an `Err` back into the result that `f` makes of it.
    fn recover<R, F>(self, f: F) -> Result<T, R>
        where
            F: F1Once<E, Ret = Result<T, R>>,
        requires
            forall|e: E| #[trigger] f.pre1(e),
    ;

    /// Look at the error (for instance to report it) and pass the result
    /// through unchanged.
    fn discard_err<F, B>(self, f: F) -> Result<T, E>
        where
            F: for<'x> F1Once<&'x E, Ret = B>,
        requires
            forall|e: &E| #[trigger] f.pre1(e),
    ;

    /// Test the value in `Ok` and turn it into an `Err` made by `on_fail`
    /// if it does not pass the predicate.
    fn filter<P, F>(self, pred: P, on_fail: F) -> Result<T, E>
        where
            P: for<'x> F1Once<&'x T, Ret = bool>,
            F: for<'x> F1Once<&'x T, Ret = E>,
        requires
            forall|t: &T| #[trigger] pred.pre1(t),
            forall|t: &T| #[trigger] on_fail.pre1(t),
    ;

    /// Pair the value in `Ok` with the value that `f` makes of it,
    /// short-circuiting the first error.
    fn zip<R, F>(self, f: F) -> Result<(T, R), E>
        where
            F: for<'x> F1Once<&'x T, Ret = Result<R, E>>,
        requires
            forall|t: &T| #[trigger] f.pre1(t),
    ;
}

impl<T, E> ResultExt<T, E> for Result<T, E> {
    fn swap(self) -> (r: Result<E, T>)
        ensures
            (match self {
                Ok(t) => r == Result::<E, T>::Err(t),
                Err(e) => r == Result::<E, T>::Ok(e),
            }),
    {
        match self {
            Ok(t) => Err(t),
            Err(e) => Ok(e),
        }
    }

    fn recover<R, F>(self, f: F) -> (r: Result<T, R>)
        where
            F: F1Once<E, Ret = Result<T, R>>,
        ensures
            (match self {
                Ok(t) => r == Result::<T, R>::Ok(t),
                Err(e) => f.post1(e, r),
            }),
    {
        match self {
            Ok(t) => Ok(t),
            Err(e) => f.call1(e),
        }
    }

    fn discard_err<F, B>(self, f: F) -> (r: Result<T, E>)
        where
            F: for<'x> F1Once<&'x E, Ret = B>,
        ensures
            r == self,
    {
        match self {
            Ok(t) => Ok(t),
            Err(e) => {
                let b = f.call1(&e);
                Err(e)
            },
        }
    }

    fn filter<P, F>(self, pred: P, on_fail: F) -> (r: Result<T, E>)
        where
            P: for<'x> F1Once<&'x T, Ret = bool>,
            F: for<'x> F1Once<&'x T, Ret = E>,
        ensures
            (match self {
                Ok(t) => (pred.post1(&t, true) && r == Result::<T, E>::Ok(t)) || (pred.post1(
                    &t,
                    false,
                ) && (r matches Err(e) && on_fail.post1(&t, e))),
                Err(e) => r == Result::<T, E>::Err(e),
            }),
    {
        match self {
            Ok(t) => {
                let keep = pred.call1(&t);
                if keep {
                    Ok(t)
                } else {
                    Err(on_fail.call1(&t))
                }
            },
            Err(e) => Err(e),
        }
    }

    fn zip<R, F>(self, f: F) -> (r: Result<(T, R), E>)
        where
            F: for<'x> F1Once<&'x T, Ret = Result<R, E>>,
        ensures
            (match self {
                Ok(t) => match r {
                    Ok(p) => p.0 == t && f.post1(&t, Result::<R, E>::Ok(p.1)),
                    Err(e) => f.post1(&t, Result::<R, E>::Err(e)),
                },
                Err(e) => r == Result::<(T, R), E>::Err(e),
            }),
    {
        match self {
            Ok(t) => match f.call1(&t) {
                Ok(rv) => Ok((t, rv)),
                Err(e) => Err(e),
            },
            Err(e) => Err(e),
        }
    }
}

impl<A, E> FunctorOnce<ResultOk<E>, A> for Result<A, E> {
    fn fmap1<B, AB>(self, f: AB) -> (r: <ResultOk<E> as HKT1<B>>::T)
        where
            AB: F1Once<A, Ret = B>,
        ensures
            fmap_rel(self, |a: A, b: B| f.post1(a, b), r),
    {
        match self {
            Ok(a) => Ok(f.call1(a)),
            Err(e) => Err(e),
        }
    }
}

impl<A, E> Functor<ResultOk<E>, A> for Result<A, E> {
    fn fmap<B, AB>(self, f: AB) -> (r: <ResultOk<E> as HKT1<B>>::T)
        where
            AB: F1<A, Ret = B>,
        ensures
            fmap_rel(self, |a: A, b: B| f.post1(a, b), r),
    {
        match self {
            Ok(a) => Ok(f.call(a)),
            Err(e) => Err(e),
        }
    }
}

impl<AB, E> ApplyOnce<ResultOk<E>, AB> for Result<AB, E> {
    fn apply1<A, B>(self, a: <ResultOk<E> as HKT1<A>>::T) -> (r: <ResultOk<E> as HKT1<B>>::T)
        where
            AB: F1Once<A, Ret = B>,
        ensures
            apply_rel(self, a, |g: AB, x: A, b: B| g.post1(x, b), r),
    {
        match self {
            Ok(g) => match a {
                Ok(x) => Ok(g.call1(x)),
                Err(e) => Err(e),
            },
            Err(e) => Err(e),
        }
    }
}

impl<AB, E> Apply<ResultOk<E>, AB> for Result<AB, E> {
    fn apply_with<A, B, Cloner>(
        self,
        a: <ResultOk<E> as HKT1<A>>::T,
        cloner: Cloner,
    ) -> (r: <ResultOk<E> as HKT1<B>>::T)
        where
            AB: F1<A, Ret = B>,
            Cloner: for<'x> F1<&'x A, Ret = A>,
        ensures
            (match (self, a) {
                (Ok(g), Ok(x)) => match r {
                    Ok(b) => exists|x2: A| #[trigger] cloner.post1(&x, x2) && g.post1(x2, b),
                    Err(_) => false,
                },
                (Ok(g), Err(e)) => r == Result::<B, E>::Err(e),
                (Err(e), _) => r == Result::<B, E>::Err(e),
            }),
    {
        match self {
            Ok(g) => match a {
                Ok(x) => {
                    let x2 = cloner.call(&x);
                    Ok(g.call(x2))
                },
                Err(e) => Err(e),
            },
            Err(e) => Err(e),
        }
    }

    /// As `apply_with`, duplicating by plain copy: the first error from the
    /// left short-circuits.
    fn apply<A, B>(self, a: <ResultOk<E> as HKT1<A>>::T) -> (r: <ResultOk<E> as HKT1<B>>::T)
        where
            AB: F1<A, Ret = B>,
            A: Copy,
        ensures
            (match (self, a) {
                (Ok(g), Ok(x)) => (r matches Ok(b) && g.post1(x, b)),
                (Ok(g), Err(e)) => r == Result::<B, E>::Err(e),
                (Err(e), _) => r == Result::<B, E>::Err(e),
            }),
    {
        match self {
            Ok(g) => match a {
                Ok(x) => Ok(g.call(x)),
                Err(e) => Err(e),
            },
            Err(e) => Err(e),
        }
    }
}

impl<A, E> Applicative<ResultOk<E>, A> for Result<A, E> {
    /// The lift of a value is `Ok` of it.
    open spec fn is_pure(a: A, r: Self) -> bool {
        r == Result::<A, E>::Ok(a)
    }

    /// Lifting a value yields `Ok` of it.
    fn pure(a: A) -> (r: Self)
        ensures
            r == Result::<A, E>::Ok(a),
    {
        Ok(a)
    }
}

impl<A, E> Alt<ResultOk<E>, A> for Result<A, E> {
    /// Two results are interchangeable exactly when they are equal.
    open spec fn alt_eq(self, other: Self) -> bool {
        self == other
    }

    /// Every value is well formed.
    open spec fn alt_valid(self) -> bool {
        true
    }

    /// Selecting between results is always allowed.
    open spec fn alt_req(self, b: Self) -> bool {
        true
    }

    /// The first `Ok` wins; two errors keep the second.
    open spec fn is_alt(self, b: Self, r: Self) -> bool {
        r == if self is Ok {
            self
        } else {
            b
        }
    }

    proof fn lemma_alt_eq_refl(self) {
    }

    proof fn lemma_alt_deterministic(a: Self, b: Self, r1: Self, r2: Self) {
    }

    proof fn lemma_alt_assoc(a: Self, b: Self, c: Self, ab: Self, bc: Self, ab_c: Self, a_bc: Self) {
    }

    fn alt(self, b: Self) -> (r: Self) {
        match self {
            Ok(a) => Ok(a),
            Err(_) => b,
        }
    }
}

impl<A, E> FoldableOnce<ResultOk<E>, A> for Result<A, E> {
    /// The at-most-one element is the success value, if any.
    open spec fn view_elem(self) -> Option<A> {
        match self {
            Ok(a) => Some(a),
            Err(_) => None,
        }
    }

    fn fold1<B, BAB>(self, f: BAB, b: B) -> (r: B)
        where
            BAB: F2Once<B, A, Ret = B>,
    {
        match self {
            Ok(a) => f.call1(b, a),
            Err(_) => b,
        }
    }

    fn fold1_ref<'a, B, BAB>(&'a self, f: BAB, b: B) -> (r: B)
        where
            BAB: F2Once<B, &'a A, Ret = B>,
    {
        match self {
            Ok(a) => f.call1(b, a),
            Err(_) => b,
        }
    }
}

impl<A, E> Foldable<ResultOk<E>, A> for Result<A, E> {
    /// The elements are the success value, if any.
    open spec fn view_elems(self) -> Seq<A> {
        match self {
            Ok(a) => seq![a],
            Err(_) => Seq::<A>::empty(),
        }
    }

    fn foldl<B, BAB>(self, f: BAB, b: B) -> (r: B)
        where
            BAB: F2<B, A, Ret = B>,
    {
        let ghost view = self.view_elems();
        let ghost rel = crate::fold::foldl_fn_rel::<A, B, BAB>(f);
        match self {
            Ok(a) => {
                proof {
                    assert(view[0] == a);
                }
                let r = f.call(b, a);
                proof {
                    assert(rel(b, view[0], r));
                    crate::fold::lemma_foldl_upto_step(view, 1, rel, b, b, r);
                }
                r
            },
            Err(_) => b,
        }
    }

    fn foldr<B, ABB>(self, f: ABB, b: B) -> (r: B)
        where
            ABB: F2<A, B, Ret = B>,
    {
        let ghost view = self.view_elems();
        let ghost rel = crate::fold::foldr_fn_rel::<A, B, ABB>(f);
        match self {
            Ok(a) => {
                proof {
                    assert(view[0] == a && view.last() == a);
                }
                let r = f.call(a, b);
                proof {
                    assert(rel(view[0], b, r));
                    crate::fold::lemma_foldr_from_step(view, 0, rel, b, b, r);
                }
                r
            },
            Err(_) => b,
        }
    }

    fn foldl_ref<'a, B, BAB>(&'a self, f: BAB, b: B) -> (r: B)
        where
            BAB: F2<B, &'a A, Ret = B>,
    {
        let ghost view = (*self).view_elems();
        let ghost rel = crate::fold::foldl_ref_fn_rel::<A, B, BAB>(f);
        match self {
            Ok(a) => {
                proof {
                    assert(view[0] == *a);
                }
                let r = f.call(b, a);
                proof {
                    assert(rel(b, view[0], r));
                    crate::fold::lemma_foldl_upto_step(view, 1, rel, b, b, r);
                }
                r
            },
            Err(_) => b,
        }
    }

    fn foldr_ref<'a, B, ABB>(&'a self, f: ABB, b: B) -> (r: B)
        where
            ABB: F2<&'a A, B, Ret = B>,
    {
        let ghost view = (*self).view_elems();
        let ghost rel = crate::fold::foldr_ref_fn_rel::<A, B, ABB>(f);
        match self {
            Ok(a) => {
                proof {
                    assert(view[0] == *a && view.last() == *a);
                }
                let r = f.call(a, b);
                proof {
                    assert(rel(view[0], b, r));
                    crate::fold::lemma_foldr_from_step(view, 0, rel, b, b, r);
                }
                r
            },
            Err(_) => b,
        }
    }
}

impl<A, E> MonadOnce<ResultOk<E>, A> for Result<A, E> {
    fn bind1<B, AMB>(self, f: AMB) -> (r: <ResultOk<E> as HKT1<B>>::T)
        where
            AMB: F1Once<A, Ret = <ResultOk<E> as HKT1<B>>::T>,
        ensures
            bind_rel(self, |a: A, mb: Result<B, E>| f.post1(a, mb), r),
    {
        match self {
            Ok(a) => f.call1(a),
            Err(e) => Err(e),
        }
    }
}

impl<A, E> Monad<ResultOk<E>, A> for Result<A, E> {
    fn bind<B, AMB>(self, f: AMB) -> (r: <ResultOk<E> as HKT1<B>>::T)
        where
            AMB: F1<A, Ret = <ResultOk<E> as HKT1<B>>::T>,
        ensures
            bind_rel(self, |a: A, mb: Result<B, E>| f.post1(a, mb), r),
    {
        match self {
            Ok(a) => f.call(a),
            Err(e) => Err(e),
        }
    }

    /// Flattening removes exactly one result layer.  (When `self` is an
    /// outer error the result carries that error; that case cannot be
    /// written here, since the element type is opaque in this signature.)
    fn flatten<AA>(self) -> (r: <ResultOk<E> as HKT1<AA>>::T)
        where
            ResultOk<E>: HKT1<AA, T = A>,
        ensures
            (self matches Ok(m) ==> r == m),
    {
        self.bind::<AA, _>(crate::fun::IdFn::new())
    }
}

impl<A, E> BifunctorOnce<ResultHkt, A, E> for Result<A, E> {
    fn bimap1<A2, B2, FA, FB>(self, fa: FA, fb: FB) -> (r: <ResultHkt as HKT2<A2, B2>>::T)
        where
            FA: F1Once<A, Ret = A2>,
            FB: F1Once<E, Ret = B2>,
        ensures
            (match (self, r) {
                (Ok(a), Ok(a2)) => fa.post1(a, a2),
                (Err(e), Err(e2)) => fb.post1(e, e2),
                _ => false,
            }),
    {
        match self {
            Ok(a) => Ok(fa.call1(a)),
            Err(e) => Err(fb.call1(e)),
        }
    }

    /// Mapping the left slot sends the success value through `fa` and keeps
    /// an error unchanged.
    fn lmap1<A2, FA>(self, fa: FA) -> (r: <ResultHkt as HKT2<A2, E>>::T)
        where
            FA: F1Once<A, Ret = A2>,
        ensures
            (match (self, r) {
                (Ok(a), Ok(a2)) => fa.post1(a, a2),
                (Err(e), Err(e2)) => e2 == e,
                _ => false,
            }),
    {
        match self {
            Ok(a) => Ok(fa.call1(a)),
            Err(e) => Err(e),
        }
    }

    /// Mapping the right slot sends the error through `fb` and keeps a
    /// success value unchanged.
    fn rmap1<B2, FB>(self, fb: FB) -> (r: <ResultHkt as HKT2<A, B2>>::T)
        where
            FB: F1Once<E, Ret = B2>,
        ensures
            (match (self, r) {
                (Ok(a), Ok(a2)) => a2 == a,
                (Err(e), Err(e2)) => fb.post1(e, e2),
                _ => false,
            }),
    {
        match self {
            Ok(a) => Ok(a),
            Err(e) => Err(fb.call1(e)),
        }
    }
}

impl<A, E> Bifunctor<ResultHkt, A, E> for Result<A, E> {
    fn bimap<A2, B2, FA, FB>(self, fa: FA, fb: FB) -> (r: <ResultHkt as HKT2<A2, B2>>::T)
        where
            FA: F1<A, Ret = A2>,
            FB: F1<E, Ret = B2>,
        ensures
            (match (self, r) {
                (Ok(a), Ok(a2)) => fa.post1(a, a2),
                (Err(e), Err(e2)) => fb.post1(e, e2),
                _ => false,
            }),
    {
        match self {
            Ok(a) => Ok(fa.call(a)),
            Err(e) => Err(fb.call(e)),
        }
    }

    /// Mapping the left slot sends the success value through `fa` and keeps
    /// an error unchanged.
    fn lmap<A2, FA>(self, fa: FA) -> (r: <ResultHkt as HKT2<A2, E>>::T)
        where
            FA: F1<A, Ret = A2>,
        ensures
            (match (self, r) {
                (Ok(a), Ok(a2)) => fa.post1(a, a2),
                (Err(e), Err(e2)) => e2 == e,
                _ => false,
            }),
    {
        match self {
            Ok(a) => Ok(fa.call(a)),
            Err(e) => Err(e),
        }
    }

    /// Mapping the right slot sends the error through `fb` and keeps a
    /// success value unchanged.
    fn rmap<B2, FB>(self, fb: FB) -> (r: <ResultHkt as HKT2<A, B2>>::T)
        where
            FB: F1<E, Ret = B2>,
        ensures
            (match (self, r) {
                (Ok(a), Ok(a2)) => a2 == a,
                (Err(e), Err(e2)) => fb.post1(e, e2),
                _ => false,
            }),
    {
        match self {
            Ok(a) => Ok(a),
            Err(e) => Err(fb.call(e)),
        }
    }
}

/// Functor identity law: mapping a relation that can only return its
/// argument unchanged is a no-op.
pub proof fn lemma_result_fmap_identity<A, E>(
    c: Result<A, E>,
    rel: spec_fn(A, A) -> bool,
    r: Result<A, E>,
)
    requires
        fmap_rel(c, rel, r),
        forall|a: A, b: A| #[trigger] rel(a, b) ==> b == a,
    ensures
        r == c,
{
}

/// Functor composition law: mapping `rf` and then `rg` is a mapping of
/// their composition.
pub proof fn lemma_result_fmap_compose<A, B, C, E>(
    c: Result<A, E>,
    rf: spec_fn(A, B) -> bool,
    r1: Result<B, E>,
    rg: spec_fn(B, C) -> bool,
    r2: Result<C, E>,
)
    requires
        fmap_rel(c, rf, r1),
        fmap_rel(r1, rg, r2),
    ensures
        fmap_rel(c, |a: A, cc: C| exists|b: B| #[trigger] rf(a, b) && rg(b, cc), r2),
{
}

/// Monad left-identity law: binding `f` over a lifted value applies `f` to
/// the value directly.
pub proof fn lemma_result_bind_left_identity<A, B, E>(
    a: A,
    rel: spec_fn(A, Result<B, E>) -> bool,
    r: Result<B, E>,
)
    requires
        bind_rel(Result::<A, E>::Ok(a), rel, r),
    ensures
        rel(a, r),
{
}

/// Monad right-identity law: binding a relation that can only lift its
/// argument is a no-op.
pub proof fn lemma_result_bind_right_identity<A, E>(
    m: Result<A, E>,
    rel: spec_fn(A, Result<A, E>) -> bool,
    r: Result<A, E>,
)
    requires
        bind_rel(m, rel, r),
        forall|x: A, o: Result<A, E>| #[trigger] rel(x, o) ==> o == Result::<A, E>::Ok(x),
    ensures
        r == m,
{
}

/// Monad associativity law: binding `rf` and then `rg` is a binding of
/// their composition.
pub proof fn lemma_result_bind_assoc<A, B, C, E>(
    m: Result<A, E>,
    rf: spec_fn(A, Result<B, E>) -> bool,
    r1: Result<B, E>,
    rg: spec_fn(B, Result<C, E>) -> bool,
    r2: Result<C, E>,
)
    requires
        bind_rel(m, rf, r1),
        bind_rel(r1, rg, r2),
    ensures
        bind_rel(
            m,
            |a: A, o: Result<C, E>|
                exists|mid: Result<B, E>| #[trigger] rf(a, mid) && bind_rel(mid, rg, o),
            r2,
        ),
{
}

} // verus!
