//! Monad: sequencing container-producing computations where each step may
//! depend on the previous result.
use vstd::prelude::*;

use crate::apply::Applicative;
use crate::fun::{F1, F1Once};
use crate::HKT1;

verus! {

/// `Monad` generalizes the concept of a sequence of computations, using the
/// return value of one to determine the next.
///
/// # Laws
/// - Left identity: `pure(a).bind(f)` equals `f(a)`.
/// - Right identity: `m.bind(pure)` equals `m`.
/// - Associativity: `m.bind(f).bind(g)` equals `m.bind(|x| f(x).bind(g))`.
///
/// The laws are proved for the provided container adapters, stated over the
/// same binding relations that each `bind` implementation's `ensures` uses.
pub trait Monad<M, A>: Applicative<M, A> where M: HKT1<A, T = Self> {
    /// Feed the values of `self` through `f`, collecting the containers it
    /// returns.
    fn bind<B, AMB>(self, f: AMB) -> <M as HKT1<B>>::T
        where
            M: HKT1<B>,
            AMB: F1<A, Ret = <M as HKT1<B>>::T>,
        requires
            forall|a: A| #[trigger] f.pre1(a),
    ;

    /// Flatten a nested container `M<M<AA>>` to `M<AA>`.
    fn flatten<AA>(self) -> <M as HKT1<AA>>::T
        where
            M: HKT1<AA, T = A>,
    {
        self.bind::<AA, _>(crate::fun::IdFn::new())
    }
}

/// [`Monad`], but specialized to know at compile time that the supplied
/// function will only be called one time.
pub trait MonadOnce<M, A>: Monad<M, A> where M: HKT1<A, T = Self> {
    /// As [`Monad::bind`], calling the function at most once.
    fn bind1<B, AMB>(self, f: AMB) -> <M as HKT1<B>>::T
        where
            M: HKT1<B>,
            AMB: F1Once<A, Ret = <M as HKT1<B>>::T>,
        requires
            forall|a: A| #[trigger] f.pre1(a),
    ;
}

} // verus!
