//! The string adapter: `String` combines as a Semigroup by concatenation,
//! with the empty string as its Monoid identity.
use vstd::prelude::*;
use vstd::string::StringExecFns;

use crate::semigroup::{Monoid, Semigroup};

verus! {

impl Semigroup for String {
    /// Two strings are interchangeable when they hold the same characters.
    open spec fn sem_eq(self, other: Self) -> bool {
        self@ == other@
    }

    /// Every value is well formed.
    open spec fn sem_valid(self) -> bool {
        true
    }

    /// Concatenation is always allowed.
    open spec fn append_req(self, b: Self) -> bool {
        true
    }

    /// The combination is the concatenation.
    open spec fn is_append(self, b: Self, r: Self) -> bool {
        r@ == self@ + b@
    }

    proof fn lemma_sem_eq_refl(self) {
    }

    proof fn lemma_append_deterministic(a: Self, b: Self, r1: Self, r2: Self) {
    }

    proof fn lemma_append_assoc(a: Self, b: Self, c: Self, ab: Self, bc: Self, ab_c: Self, a_bc: Self) {
        assert(ab_c@ =~= a_bc@);
    }

    fn append(self, b: Self) -> (r: Self) {
        self.concat(b.as_str())
    }
}

impl Monoid for String {
    /// The identity for concatenation is the empty string.
    open spec fn is_identity(x: Self) -> bool {
        x@ == Seq::<char>::empty()
    }

    proof fn lemma_identity_appendable(x: Self, e: Self) {
    }

    proof fn lemma_identity_right(x: Self, e: Self, r: Self) {
        assert(r@ =~= x@);
    }

    proof fn lemma_identity_left(x: Self, e: Self, r: Self) {
        assert(r@ =~= x@);
    }

    fn identity() -> (r: Self) {
        String::new()
    }
}

} // verus!
