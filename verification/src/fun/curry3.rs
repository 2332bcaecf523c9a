//! Currying for functions of three arguments: `fn(A, B, C) -> D` becomes
//! `fn(A) -> fn(B) -> fn(C) -> D`.
use vstd::prelude::*;

use crate::fun::{Arg, F1, F1Once, F3, F3Once, Just, Nothing};

verus! {

/// A curried function that accepts 3 arguments and has not been called with
/// any.
pub type Applied0<F, A, B, C, D> = Curry3<F, Nothing<A>, Nothing<B>, Nothing<C>, D>;

/// A curried function that accepts 3 arguments and has been called with the
/// first argument.
pub type Applied1<F, A, B, C, D> = Curry3<F, Just<A>, Nothing<B>, Nothing<C>, D>;

/// A curried function that accepts 3 arguments and has been called with the
/// first and second arguments.
pub type Applied2<F, A, B, C, D> = Curry3<F, Just<A>, Just<B>, Nothing<C>, D>;

/// A curried function of 3 arguments: the original callable plus the
/// arguments supplied so far, tagged at the type level with which argument
/// positions are filled.
pub struct Curry3<F, A, B, C, D> {
    /// The original callable.
    pub f: F,
    /// The first argument slot: [`Just`] once supplied, [`Nothing`] before.
    pub a: A,
    /// The second argument slot: [`Just`] once supplied, [`Nothing`] before.
    pub b: B,
    /// The pending argument and result types.
    pub ph: core::marker::PhantomData<(C, D)>,
}

impl<F, A, B, C, D> Applied0<F, A, B, C, D> {
    /// Curry a ternary function.
    pub fn curry(f: F) -> (r: Self)
        ensures
            r.f == f,
    {
        Curry3 { f, a: Nothing::new(), b: Nothing::new(), ph: core::marker::PhantomData::<(Nothing<C>, D)> }
    }

    /// Unwrap the `Curry3` wrapper, getting the inner function.
    pub fn uncurry(self) -> (r: F)
        ensures
            r == self.f,
    {
        self.f
    }
}

impl<F, A, B, C, D> F1Once<A> for Applied0<F, A, B, C, D> where F: F3Once<A, B, C, Ret = D> {
    type Ret = Applied1<F, A, B, C, D>;

    /// Remembering the first argument needs nothing of the function.
    open spec fn pre1(&self, a: A) -> bool {
        true
    }

    /// The chain node keeps the function and stores `a`.
    open spec fn post1(&self, a: A, r: Applied1<F, A, B, C, D>) -> bool {
        r.f == self.f && r.a.0 == a
    }

    fn call1(self, a: A) -> (r: Applied1<F, A, B, C, D>) {
        Curry3 { f: self.f, a: Just(a), b: Nothing::new(), ph: core::marker::PhantomData::<(Nothing<C>, D)> }
    }
}

impl<F, A, B, C, D> F1<A> for Applied0<F, A, B, C, D> where
    F: F3<A, B, C, Ret = D> + Copy,
 {
    fn call(&self, a: A) -> (r: Applied1<F, A, B, C, D>) {
        Curry3 { f: self.f, a: Just(a), b: Nothing::new(), ph: core::marker::PhantomData::<(Nothing<C>, D)> }
    }
}

impl<F, A, B, C, D> F1Once<B> for Applied1<F, A, B, C, D> where F: F3Once<A, B, C, Ret = D> {
    type Ret = Applied2<F, A, B, C, D>;

    /// Remembering the second argument needs nothing of the function.
    open spec fn pre1(&self, b: B) -> bool {
        true
    }

    /// The chain node keeps the function and the first argument, and stores
    /// `b`.
    open spec fn post1(&self, b: B, r: Applied2<F, A, B, C, D>) -> bool {
        r.f == self.f && r.a.0 == self.a.0 && r.b.0 == b
    }

    fn call1(self, b: B) -> (r: Applied2<F, A, B, C, D>) {
        Curry3 { f: self.f, a: self.a, b: Just(b), ph: core::marker::PhantomData::<(Nothing<C>, D)> }
    }
}

impl<F, A, B, C, D> F1<B> for Applied1<F, A, B, C, D> where
    F: F3<A, B, C, Ret = D> + Copy,
    A: Copy,
 {
    fn call(&self, b: B) -> (r: Applied2<F, A, B, C, D>) {
        Curry3 { f: self.f, a: Just(self.a.0), b: Just(b), ph: core::marker::PhantomData::<(Nothing<C>, D)> }
    }
}

impl<F, A, B, C, D> F1Once<C> for Applied2<F, A, B, C, D> where F: F3Once<A, B, C, Ret = D> {
    type Ret = D;

    /// The stored arguments and `c` must satisfy the function's precondition.
    open spec fn pre1(&self, c: C) -> bool {
        self.f.pre3(self.a.0, self.b.0, c)
    }

    /// The result is a result of the function on the stored arguments and
    /// `c`.
    open spec fn post1(&self, c: C, r: D) -> bool {
        self.f.post3(self.a.0, self.b.0, c, r)
    }

    fn call1(self, c: C) -> (r: D) {
        self.f.call1(self.a.0, self.b.0, c)
    }
}

impl<F, A, B, C, D> F1<C> for Applied2<F, A, B, C, D> where
    F: F3<A, B, C, Ret = D>,
    A: Copy,
    B: Copy,
 {
    fn call(&self, c: C) -> (r: D) {
        self.f.call(self.a.0, self.b.0, c)
    }
}

/// Currying round-trip: the chain node that `curry` builds gives the
/// original callable back under `uncurry`.
pub proof fn lemma_curry3_uncurry_roundtrip<F, A, B, C, D>(f: F, c: Applied0<F, A, B, C, D>, back: F)
    where
        F: F3Once<A, B, C, Ret = D>,
    requires
        c.f == f,
        back == c.f,
    ensures
        back == f,
{
}

/// Currying round-trip: supplying all three arguments one at a time through
/// the curried chain yields a result of the original callable on those
/// arguments, exactly as a direct call would.
pub proof fn lemma_curry3_supply_in_turn<F, A, B, C, D>(
    f: F,
    a: A,
    b: B,
    c: C,
    c0: Applied0<F, A, B, C, D>,
    c1: Applied1<F, A, B, C, D>,
    c2: Applied2<F, A, B, C, D>,
    r: D,
)
    where
        F: F3Once<A, B, C, Ret = D>,
    requires
        c0.f == f,
        c0.post1(a, c1),
        c1.post1(b, c2),
        c2.post1(c, r),
    ensures
        f.post3(a, b, c, r),
{
}

} // verus!
