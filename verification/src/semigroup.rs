//! Semigroup and Monoid: an associative way of combining two values of one
//! concrete type, and an identity element for it.
//!
//! The algebraic laws are part of the traits themselves: every
//! implementation must prove the proof obligations below, so `append` being
//! associative and `identity` being a two-sided no-op hold for every adapter
//! in this crate by construction.
use vstd::prelude::*;

verus! {

/// An associative combination of two values of one type.
///
/// `is_append(b, r)` is the specification of `append`: it says how a
/// combination `r` relates to the operands.  `sem_eq` is the equality the
/// laws are stated with (plain equality for most types; equality of views
/// for heap-backed types such as `String`).
pub trait Semigroup: Sized {
    /// The equality the algebraic laws are stated with.
    spec fn sem_eq(self, other: Self) -> bool;

    /// Which values of the type are well formed; the laws quantify over
    /// these (`true` for types without an internal invariant).
    spec fn sem_valid(self) -> bool;

    /// When the combination of `self` with `b` is allowed (a machine limit
    /// such as a fixed capacity; `true` for most types).
    spec fn append_req(self, b: Self) -> bool;

    /// How a combination `r` relates to the operands `self` and `b`.
    spec fn is_append(self, b: Self, r: Self) -> bool;

    /// `sem_eq` is reflexive.
    proof fn lemma_sem_eq_refl(self)
        ensures
            self.sem_eq(self),
    ;

    /// The specification `is_append` pins the combination down: any two
    /// results of combining the same operands are interchangeable.
    proof fn lemma_append_deterministic(a: Self, b: Self, r1: Self, r2: Self)
        requires
            a.is_append(b, r1),
            a.is_append(b, r2),
        ensures
            r1.sem_eq(r2),
    ;

    /// The combination is associative: combining `a`, `b`, `c` to the left
    /// or to the right yields equal results.
    proof fn lemma_append_assoc(a: Self, b: Self, c: Self, ab: Self, bc: Self, ab_c: Self, a_bc: Self)
        requires
            a.is_append(b, ab),
            ab.is_append(c, ab_c),
            b.is_append(c, bc),
            a.is_append(bc, a_bc),
        ensures
            ab_c.sem_eq(a_bc),
    ;

    /// Combine two values of this type.
    fn append(self, b: Self) -> (r: Self)
        requires
            self.append_req(b),
        ensures
            self.is_append(b, r),
    ;
}

/// [`Semigroup`] extended with an identity value that is a two-sided no-op
/// under `append`.
pub trait Monoid: Semigroup {
    /// Which values are the identity element.
    spec fn is_identity(x: Self) -> bool;

    /// The identity may be combined with any well-formed value, on either
    /// side.
    proof fn lemma_identity_appendable(x: Self, e: Self)
        requires
            x.sem_valid(),
            Self::is_identity(e),
        ensures
            x.append_req(e),
            e.append_req(x),
    ;

    /// Appending the identity on the right changes nothing.
    proof fn lemma_identity_right(x: Self, e: Self, r: Self)
        requires
            Self::is_identity(e),
            x.is_append(e, r),
        ensures
            r.sem_eq(x),
    ;

    /// Appending the identity on the left changes nothing.
    proof fn lemma_identity_left(x: Self, e: Self, r: Self)
        requires
            Self::is_identity(e),
            e.is_append(x, r),
        ensures
            r.sem_eq(x),
    ;

    /// Produce the identity element.
    fn identity() -> (r: Self)
        ensures
            Self::is_identity(r),
    ;
}

} // verus!
