//! Currying for functions of two arguments: `fn(A, B) -> C` becomes
//! `fn(A) -> fn(B) -> C`, one immutable chain node per supplied argument.
use vstd::prelude::*;

use crate::fun::{Arg, F1, F1Once, F2, F2Once, Just, Nothing};

verus! {

/// A curried function that accepts 2 arguments and has not been called with
/// either.
pub type Applied0<F, A, B, C> = Curry2<F, Nothing<A>, Nothing<B>, C>;

/// A curried function that accepts 2 arguments and has been called with the
/// first argument.
pub type Applied1<F, A, B, C> = Curry2<F, Just<A>, Nothing<B>, C>;

/// A curried function of 2 arguments: the original callable plus the
/// arguments supplied so far, tagged at the type level with which argument
/// positions are filled.
pub struct Curry2<F, A, B, C> {
    /// The original callable.
    pub f: F,
    /// The first argument slot: [`Just`] once supplied, [`Nothing`] before.
    pub a: A,
    /// The pending argument and result types.
    pub ph: core::marker::PhantomData<(B, C)>,
}

impl<F, A, B, C> Applied0<F, A, B, C> {
    /// Curry a binary function.
    pub fn curry(f: F) -> (r: Self)
        ensures
            r.f == f,
    {
        Curry2 { f, a: Nothing::new(), ph: core::marker::PhantomData::<(Nothing<B>, C)> }
    }

    /// Unwrap the `Curry2` wrapper, getting the inner function.
    pub fn uncurry(self) -> (r: F)
        ensures
            r == self.f,
    {
        self.f
    }
}

impl<F, A, B, C> F1Once<A> for Applied0<F, A, B, C> where F: F2Once<A, B, Ret = C> {
    type Ret = Applied1<F, A, B, C>;

    /// Remembering the first argument needs nothing of the function.
    open spec fn pre1(&self, a: A) -> bool {
        true
    }

    /// The chain node keeps the function and stores `a`.
    open spec fn post1(&self, a: A, r: Applied1<F, A, B, C>) -> bool {
        r.f == self.f && r.a.0 == a
    }

    fn call1(self, a: A) -> (r: Applied1<F, A, B, C>) {
        Curry2 { f: self.f, a: Just(a), ph: core::marker::PhantomData::<(Nothing<B>, C)> }
    }
}

impl<F, A, B, C> F1<A> for Applied0<F, A, B, C> where F: F2<A, B, Ret = C> + Copy {
    fn call(&self, a: A) -> (r: Applied1<F, A, B, C>) {
        Curry2 { f: self.f, a: Just(a), ph: core::marker::PhantomData::<(Nothing<B>, C)> }
    }
}

impl<F, A, B, C> F1Once<B> for Applied1<F, A, B, C> where F: F2Once<A, B, Ret = C> {
    type Ret = C;

    /// The stored argument and `b` must satisfy the function's precondition.
    open spec fn pre1(&self, b: B) -> bool {
        self.f.pre2(self.a.0, b)
    }

    /// The result is a result of the function on the stored argument and `b`.
    open spec fn post1(&self, b: B, r: C) -> bool {
        self.f.post2(self.a.0, b, r)
    }

    fn call1(self, b: B) -> (r: C) {
        self.f.call1(self.a.0, b)
    }
}

impl<F, A, B, C> F1<B> for Applied1<F, A, B, C> where F: F2<A, B, Ret = C>, A: Copy {
    fn call(&self, b: B) -> (r: C) {
        self.f.call(self.a.0, b)
    }
}

/// Currying round-trip: the chain node that `curry` builds gives the
/// original callable back under `uncurry`.
pub proof fn lemma_curry2_uncurry_roundtrip<F, A, B, C>(f: F, c: Applied0<F, A, B, C>, back: F)
    where
        F: F2Once<A, B, Ret = C>,
    requires
        c.f == f,
        back == c.f,
    ensures
        back == f,
{
}

/// Currying round-trip: supplying both arguments one at a time through the
/// curried chain yields a result of the original callable on those
/// arguments, exactly as a direct call would.
pub proof fn lemma_curry2_supply_in_turn<F, A, B, C>(
    f: F,
    a: A,
    b: B,
    c0: Applied0<F, A, B, C>,
    c1: Applied1<F, A, B, C>,
    r: C,
)
    where
        F: F2Once<A, B, Ret = C>,
    requires
        c0.f == f,
        c0.post1(a, c1),
        c1.post1(b, r),
    ensures
        f.post2(a, b, r),
{
}

} // verus!
