//! Alt and Plus: the generic-container analogues of Semigroup and Monoid —
//! an associative combination of two values of one *container* type, and an
//! empty container that is a two-sided no-op under it.
//!
//! As with [`Semigroup`](crate::semigroup::Semigroup), the laws are proof
//! obligations of the traits, so every adapter proves them.
use vstd::prelude::*;

use crate::functor::Functor;
use crate::HKT1;

verus! {

/// An associative operation on two values of the same container type.
///
/// `is_alt(b, r)` is the specification of `alt`; `alt_eq` is the equality
/// the laws are stated with.
pub trait Alt<M, A>: Functor<M, A> where M: HKT1<A, T = Self> {
    /// The equality the algebraic laws are stated with.
    spec fn alt_eq(self, other: Self) -> bool;

    /// Which values of the type are well formed; the laws quantify over
    /// these (`true` for types without an internal invariant).
    spec fn alt_valid(self) -> bool;

    /// When combining `self` with `b` is allowed (a machine limit such as a
    /// fixed capacity; `true` for most types).
    spec fn alt_req(self, b: Self) -> bool;

    /// How a combination `r` relates to the operands `self` and `b`.
    spec fn is_alt(self, b: Self, r: Self) -> bool;

    /// `alt_eq` is reflexive.
    proof fn lemma_alt_eq_refl(self)
        ensures
            self.alt_eq(self),
    ;

    /// The specification `is_alt` pins the combination down: any two
    /// results of combining the same operands are interchangeable.
    proof fn lemma_alt_deterministic(a: Self, b: Self, r1: Self, r2: Self)
        requires
            a.is_alt(b, r1),
            a.is_alt(b, r2),
        ensures
            r1.alt_eq(r2),
    ;

    /// The combination is associative.
    proof fn lemma_alt_assoc(a: Self, b: Self, c: Self, ab: Self, bc: Self, ab_c: Self, a_bc: Self)
        requires
            a.is_alt(b, ab),
            ab.is_alt(c, ab_c),
            b.is_alt(c, bc),
            a.is_alt(bc, a_bc),
        ensures
            ab_c.alt_eq(a_bc),
    ;

    /// Combine two container values of the same type.
    fn alt(self, b: Self) -> (r: Self)
        requires
            self.alt_req(b),
        ensures
            self.is_alt(b, r),
    ;
}

/// [`Alt`] extended with an empty container value that is a two-sided no-op
/// under `alt`.
pub trait Plus<M, A>: Alt<M, A> where M: HKT1<A, T = Self> {
    /// Which container values are empty.
    spec fn is_empty_val(x: Self) -> bool;

    /// The empty value may be combined with any well-formed value, on
    /// either side.
    proof fn lemma_empty_altable(x: Self, e: Self)
        requires
            x.alt_valid(),
            Self::is_empty_val(e),
        ensures
            x.alt_req(e),
            e.alt_req(x),
    ;

    /// Combining with the empty value on the right changes nothing.
    proof fn lemma_empty_alt_right(x: Self, e: Self, r: Self)
        requires
            Self::is_empty_val(e),
            x.is_alt(e, r),
        ensures
            r.alt_eq(x),
    ;

    /// Combining with the empty value on the left changes nothing.
    proof fn lemma_empty_alt_left(x: Self, e: Self, r: Self)
        requires
            Self::is_empty_val(e),
            e.is_alt(x, r),
        ensures
            r.alt_eq(x),
    ;

    /// Produce the empty container.
    fn empty() -> (r: Self)
        ensures
            Self::is_empty_val(r),
    ;
}

} // verus!
