//! Functor: the capability to transform a container's elements in place
//! without changing its shape.
use vstd::prelude::*;

use crate::fun::{F1, F1Once};
use crate::HKT1;

verus! {

/// How a mapped sequence of elements relates to the original: same length,
/// each element sent through the relation.
pub open spec fn seq_fmap_rel<A, B>(c: Seq<A>, rel: spec_fn(A, B) -> bool, r: Seq<B>) -> bool {
    r.len() == c.len() && forall|i: int| 0 <= i < c.len() ==> rel(c[i], #[trigger] r[i])
}

/// [`Functor`], but specialized to know at compile time that the mapping
/// function will only be called one time.
///
/// The mapping function must be total: what each implementation returns is
/// stated by that implementation's own `ensures`.
pub trait FunctorOnce<M, A> where M: HKT1<A, T = Self>, Self: Sized {
    /// Use a function from `A -> B` to transform an `M<A>` to an `M<B>`,
    /// calling the function at most once.
    fn fmap1<B, AB>(self, f: AB) -> <M as HKT1<B>>::T
        where
            M: HKT1<B>,
            AB: F1Once<A, Ret = B>,
        requires
            forall|a: A| #[trigger] f.pre1(a),
    ;
}

/// Functor adds a mapping operation to generic types: a function of type
/// `A -> B` is lifted to `M<A> -> M<B>`.
///
/// # Laws
/// - Identity: mapping the identity function is a no-op.
/// - Composition: mapping `f` then `g` equals mapping their composition.
///
/// Both laws are proved for the provided container adapters, stated over the
/// same mapping relations that each `fmap` implementation's `ensures` uses.
pub trait Functor<M, A> where M: HKT1<A, T = Self>, Self: Sized {
    /// Use a function from `A -> B` to transform an `M<A>` to an `M<B>`.
    fn fmap<B, AB>(self, f: AB) -> <M as HKT1<B>>::T
        where
            M: HKT1<B>,
            AB: F1<A, Ret = B>,
        requires
            forall|a: A| #[trigger] f.pre1(a),
    ;
}

} // verus!
