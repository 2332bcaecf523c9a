//! Bifunctor: mapping one or both element slots of a container with two
//! open element types, such as a fallible result.
use vstd::prelude::*;

use crate::fun::{F1, F1Once, IdFn};
use crate::HKT2;

verus! {

/// [`Bifunctor`], but specialized to know at compile time that the mapping
/// functions will be called at most once.
pub trait BifunctorOnce<M, A, B> where M: HKT2<A, B, T = Self>, Self: Sized {
    /// Transform both element slots at once.
    fn bimap1<A2, B2, FA, FB>(self, fa: FA, fb: FB) -> <M as HKT2<A2, B2>>::T
        where
            M: HKT2<A2, B2>,
            FA: F1Once<A, Ret = A2>,
            FB: F1Once<B, Ret = B2>,
        requires
            forall|a: A| #[trigger] fa.pre1(a),
            forall|b: B| #[trigger] fb.pre1(b),
    ;

    /// Map the left slot only.
    fn lmap1<A2, FA>(self, fa: FA) -> <M as HKT2<A2, B>>::T
        where
            M: HKT2<A2, B>,
            FA: F1Once<A, Ret = A2>,
        requires
            forall|a: A| #[trigger] fa.pre1(a),
    {
        self.bimap1(fa, IdFn::new())
    }

    /// Map the right slot only.
    fn rmap1<B2, FB>(self, fb: FB) -> <M as HKT2<A, B2>>::T
        where
            M: HKT2<A, B2>,
            FB: F1Once<B, Ret = B2>,
        requires
            forall|b: B| #[trigger] fb.pre1(b),
    {
        self.bimap1(IdFn::new(), fb)
    }
}

/// A Bifunctor provides a mapping operation for containers with two open
/// element slots, allowing either or both to be transformed.
pub trait Bifunctor<M, A, B> where M: HKT2<A, B, T = Self>, Self: Sized {
    /// Transform both element slots at once.
    fn bimap<A2, B2, FA, FB>(self, fa: FA, fb: FB) -> <M as HKT2<A2, B2>>::T
        where
            M: HKT2<A2, B2>,
            FA: F1<A, Ret = A2>,
            FB: F1<B, Ret = B2>,
        requires
            forall|a: A| #[trigger] fa.pre1(a),
            forall|b: B| #[trigger] fb.pre1(b),
    ;

    /// Map the left slot only.
    fn lmap<A2, FA>(self, fa: FA) -> <M as HKT2<A2, B>>::T
        where
            M: HKT2<A2, B>,
            FA: F1<A, Ret = A2>,
        requires
            forall|a: A| #[trigger] fa.pre1(a),
    {
        self.bimap(fa, IdFn::new())
    }

    /// Map the right slot only.
    fn rmap<B2, FB>(self, fb: FB) -> <M as HKT2<A, B2>>::T
        where
            M: HKT2<A, B2>,
            FB: F1<B, Ret = B2>,
        requires
            forall|b: B| #[trigger] fb.pre1(b),
    {
        self.bimap(IdFn::new(), fb)
    }
}

/// A wrapper giving a single one-slot mapping operation to bifunctors whose
/// two slots hold the same element type, such as `Result<A, A>`.
pub struct Join<M, T, A> {
    /// The wrapped two-slot container.
    pub t: T,
    /// The marker of the wrapped container and its shared element type.
    pub ph: core::marker::PhantomData<(M, A)>,
}

impl<M, T, A> Join<M, T, A> {
    /// Wrap a two-slot container whose slots share one element type.
    pub fn join(t: T) -> (r: Join<M, T, A>)
        where
            M: HKT2<A, A, T = T>,
        ensures
            r.t == t,
    {
        Join { t, ph: core::marker::PhantomData::<(M, A)> }
    }

    /// Unwrap, yielding the inner container.
    pub fn unjoin(self) -> (r: T)
        ensures
            r == self.t,
    {
        self.t
    }

    /// Map the shared element type on both slots at once.
    ///
    /// The function is used on both slots, so it must be repeatable and
    /// duplicable.
    pub fn fmap<B, AB>(self, f: AB) -> (r: Join<M, <M as HKT2<B, B>>::T, B>)
        where
            M: HKT2<A, A, T = T> + HKT2<B, B>,
            T: Bifunctor<M, A, A>,
            AB: F1<A, Ret = B> + Copy,
        requires
            forall|a: A| #[trigger] f.pre1(a),
    {
        Join { t: self.t.bimap(f, f), ph: core::marker::PhantomData::<(M, B)> }
    }
}

/// [`Join`] as a one-slot type constructor.
pub struct JoinHKT<M> {
    /// The underlying two-slot marker.
    pub ph: core::marker::PhantomData<M>,
}

impl<M, A> crate::HKT1<A> for JoinHKT<M> where M: HKT2<A, A> {
    type T = Join<M, <M as HKT2<A, A>>::T, A>;
}

} // verus!
