//! Apply and Applicative: lifting values into a container and combining
//! independent container instances.
use vstd::prelude::*;

use crate::functor::Functor;
use crate::fun::{F1, F1Once};
use crate::semigroup::Semigroup;
use crate::HKT1;

verus! {

/// [`Apply`], but specialized to know at compile time that the function
/// contained in `self` will only be called one time.
pub trait ApplyOnce<M, AB>: Functor<M, AB> where M: HKT1<AB, T = Self> {
    /// Apply the function `A -> B` contained in `self` (an `M<A -> B>`) to
    /// an instance of `M<A>`, yielding `M<B>`.
    fn apply1<A, B>(self, a: <M as HKT1<A>>::T) -> <M as HKT1<B>>::T
        where
            M: HKT1<A> + HKT1<B>,
            AB: F1Once<A, Ret = B>,
        requires
            forall|g: AB, x: A| #[trigger] g.pre1(x),
    ;
}

/// `Apply` generalizes [`Functor`] to any arity: a lifted function
/// `M<A -> B>` is applied to a lifted argument `M<A>`.
pub trait Apply<M, AB>: Functor<M, AB> where M: HKT1<AB, T = Self> {
    /// Apply the functions contained in `self` to the values contained in
    /// `a`; `cloner` duplicates an element of `a` wherever one value must
    /// feed several functions.
    fn apply_with<A, B, Cloner>(self, a: <M as HKT1<A>>::T, cloner: Cloner) -> <M as HKT1<B>>::T
        where
            M: HKT1<A> + HKT1<B>,
            AB: F1<A, Ret = B>,
            Cloner: for<'x> F1<&'x A, Ret = A>,
        requires
            forall|g: AB, x: A| #[trigger] g.pre1(x),
            forall|x: &A| #[trigger] cloner.pre1(x),
    ;

    /// [`Apply::apply_with`] with duplication by plain copy.
    fn apply<A, B>(self, a: <M as HKT1<A>>::T) -> <M as HKT1<B>>::T
        where
            M: HKT1<A> + HKT1<B>,
            AB: F1<A, Ret = B>,
            A: Copy,
        requires
            forall|g: AB, x: A| #[trigger] g.pre1(x),
    {
        self.apply_with(a, crate::fun::CopyFn::new())
    }
}

/// Adds onto [`Apply`] the ability to lift a bare value into the container,
/// with no dependence on prior computations.
pub trait Applicative<M, A>: Apply<M, A> where M: HKT1<A, T = Self> {
    /// Which containers may be the lift of `a`.
    spec fn is_pure(a: A, r: Self) -> bool;

    /// Lift `a` to `M<A>`.
    fn pure(a: A) -> (r: Self)
        ensures
            Self::is_pure(a, r),
    ;

    /// Append a single element to a container that combines as a
    /// [`Semigroup`]: the result combines `self` with a lift of `a`.
    fn append_one(self, a: A) -> (r: Self)
        where
            Self: Semigroup,
        requires
            forall|p: Self| #[trigger] Self::is_pure(a, p) ==> self.append_req(p),
        default_ensures
            (exists|p: Self| #[trigger] Self::is_pure(a, p) && self.is_append(p, r)),
    {
        let lifted = Self::pure(a);
        self.append(lifted)
    }
}

} // verus!
