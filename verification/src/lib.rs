//! A functional-programming vocabulary for container types: one uniform set of
//! operations (map, combine, fold, sequence, bind, fallback-select) that
//! resolves to concrete code at compile time, together with currying,
//! function composition, and a lazy computation engine.
//!
//! A *type-constructor marker* is a zero-size tag type standing for a
//! container shape with one or two open element-type slots.  The traits
//! [`HKT1`] and [`HKT2`] carry the total mapping from element types to the
//! concrete instantiated container type, so that generic code can speak of
//! "the same container at another element type" without naming it.
use vstd::prelude::*;

pub mod alt;
pub mod apply;
pub mod bifunctor;
pub mod fold;
pub mod fun;
pub mod functor;
pub mod impls;
pub mod io;
pub mod monad;
pub mod semigroup;
pub mod traverse;

verus! {

/// A marker that points to a type with one generic parameter.
///
/// `M: HKT1<A>` maps the marker `M` at element type `A` to the concrete
/// container type `<M as HKT1<A>>::T`.  For a fixed `M`, supplying the same
/// element type always yields the same concrete type, which is what lets
/// generic code know the return type of an operation without seeing the
/// concrete container.
pub trait HKT1<A> {
    /// The concrete container type at element type `A`.
    type T;
}

/// A marker that points to a type with two generic parameters.
///
/// `M: HKT2<A, B>` maps the marker `M` at element types `A`, `B` to the
/// concrete container type `<M as HKT2<A, B>>::T`.
pub trait HKT2<A, B> {
    /// The concrete container type at element types `A` and `B`.
    type T;
}

} // verus!
