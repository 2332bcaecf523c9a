//! Function composition: a value representing "apply `f`, feed its output to
//! `g`", itself a callable so it can be chained further.
use vstd::prelude::*;

use crate::fun::{F1, F1Once};

verus! {

/// Composition of two callables `f` and `g`.
///
/// Implements [`F1`]/[`F1Once`] when `f` and `g` do; calling it runs `f`
/// first and hands the intermediate value to `g`.  `X` is the erased
/// intermediate type returned by `f` and passed to `g`, kept as phantom data
/// to make trait implementation simpler.
pub struct Compose<F, G, X> {
    /// The callable applied first.
    pub f: F,
    /// The callable applied to `f`'s output.
    pub g: G,
    /// The erased intermediate type.
    pub ph: core::marker::PhantomData<X>,
}

impl<F, G, X> Compose<F, G, X> {
    /// Pack `f` and `g` into a composition node.
    pub fn compose<A, B>(f: F, g: G) -> (r: Self)
        where
            F: F1Once<A, Ret = X>,
            G: F1Once<X, Ret = B>,
        ensures
            r.f == f && r.g == g,
    {
        Compose { f, g, ph: core::marker::PhantomData::<X> }
    }

    /// Chain a further callable after this composition.
    pub fn chain<A, B, X2, G2>(self, g2: G2) -> (r: Compose<Compose<F, G, X>, G2, X2>)
        where
            F: F1Once<A, Ret = X>,
            G: F1Once<X, Ret = X2>,
            G2: F1Once<X2, Ret = B>,
        ensures
            r.f == self && r.g == g2,
    {
        Compose { f: self, g: g2, ph: core::marker::PhantomData::<X2> }
    }
}

impl<F, G, A, X, C> F1Once<A> for Compose<F, G, X> where
    F: F1Once<A, Ret = X>,
    G: F1Once<X, Ret = C>,
 {
    type Ret = C;

    /// `f` must accept `a`, and `g` must accept whatever `f` may return.
    open spec fn pre1(&self, a: A) -> bool {
        self.f.pre1(a) && forall|x: X| self.f.post1(a, x) ==> self.g.pre1(x)
    }

    /// The result comes from `g` applied to some intermediate value of `f`.
    open spec fn post1(&self, a: A, r: C) -> bool {
        exists|x: X| self.f.post1(a, x) && self.g.post1(x, r)
    }

    fn call1(self, a: A) -> (r: C) {
        let x = self.f.call1(a);
        self.g.call1(x)
    }
}

impl<F, G, A, X, C> F1<A> for Compose<F, G, X> where
    F: F1<A, Ret = X>,
    G: F1<X, Ret = C>,
 {
    fn call(&self, a: A) -> (r: C) {
        let x = self.f.call(a);
        self.g.call(x)
    }
}

} // verus!
