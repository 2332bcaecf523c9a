//! The identity adapter: a wrapper that does nothing more than hold a `T`,
//! implementing the hierarchy in the most direct way possible.
use vstd::prelude::*;

use crate::alt::Alt;
use crate::apply::{Applicative, Apply, ApplyOnce};
use crate::fun::{F1, F1Once};
use crate::functor::{Functor, FunctorOnce};
use crate::monad::{Monad, MonadOnce};
use crate::semigroup::{Monoid, Semigroup};
use crate::HKT1;

verus! {

/// The identity wrapper lifted to a type-constructor marker.
pub struct IdHkt;

impl<A> HKT1<A> for IdHkt {
    type T = Id<A>;
}

/// The identity container: exactly one element, no further structure.
#[derive(Clone, Copy, Debug, PartialEq, Eq)]
pub struct Id<T>(pub T);

impl<T> Id<T> {
    /// Wrap a value.
    pub fn new(t: T) -> (r: Self)
        ensures
            r == Id(t),
    {
        Id(t)
    }

    /// Unwrap this wrapper.
    pub fn get(self) -> (r: T)
        ensures
            r == self.0,
    {
        self.0
    }
}

impl<A> FunctorOnce<IdHkt, A> for Id<A> {
    fn fmap1<B, AB>(self, f: AB) -> (r: <IdHkt as HKT1<B>>::T)
        where
            AB: F1Once<A, Ret = B>,
        ensures
            f.post1(self.0, r.0),
    {
        Id(f.call1(self.0))
    }
}

impl<A> Functor<IdHkt, A> for Id<A> {
    fn fmap<B, AB>(self, f: AB) -> (r: <IdHkt as HKT1<B>>::T)
        where
            AB: F1<A, Ret = B>,
        ensures
            f.post1(self.0, r.0),
    {
        Id(f.call(self.0))
    }
}

impl<AB> ApplyOnce<IdHkt, AB> for Id<AB> {
    fn apply1<A, B>(self, a: <IdHkt as HKT1<A>>::T) -> (r: <IdHkt as HKT1<B>>::T)
        where
            AB: F1Once<A, Ret = B>,
        ensures
            (self.0).post1(a.0, r.0),
    {
        Id(self.0.call1(a.0))
    }
}

impl<AB> Apply<IdHkt, AB> for Id<AB> {
    fn apply_with<A, B, Cloner>(
        self,
        a: <IdHkt as HKT1<A>>::T,
        cloner: Cloner,
    ) -> (r: <IdHkt as HKT1<B>>::T)
        where
            AB: F1<A, Ret = B>,
            Cloner: for<'x> F1<&'x A, Ret = A>,
        ensures
            (self.0).post1(a.0, r.0),
    {
        Id(self.0.call(a.0))
    }

    /// As `apply_with`: the wrapped function is applied to the wrapped
    /// argument.
    fn apply<A, B>(self, a: <IdHkt as HKT1<A>>::T) -> (r: <IdHkt as HKT1<B>>::T)
        where
            AB: F1<A, Ret = B>,
            A: Copy,
        ensures
            (self.0).post1(a.0, r.0),
    {
        Id(self.0.call(a.0))
    }
}

impl<A> Applicative<IdHkt, A> for Id<A> {
    /// The lift of a value is its wrapper.
    open spec fn is_pure(a: A, r: Self) -> bool {
        r == Id(a)
    }

    /// Lifting a value wraps it.
    fn pure(a: A) -> (r: Self)
        ensures
            r == Id(a),
    {
        Id(a)
    }
}

impl<A> Alt<IdHkt, A> for Id<A> {
    /// Two wrappers are interchangeable exactly when they are equal.
    open spec fn alt_eq(self, other: Self) -> bool {
        self == other
    }

    /// Every value is well formed.
    open spec fn alt_valid(self) -> bool {
        true
    }

    /// Selecting is always allowed.
    open spec fn alt_req(self, b: Self) -> bool {
        true
    }

    /// The first wrapper always wins: there is no empty identity value.
    open spec fn is_alt(self, b: Self, r: Self) -> bool {
        r == self
    }

    proof fn lemma_alt_eq_refl(self) {
    }

    proof fn lemma_alt_deterministic(a: Self, b: Self, r1: Self, r2: Self) {
    }

    proof fn lemma_alt_assoc(a: Self, b: Self, c: Self, ab: Self, bc: Self, ab_c: Self, a_bc: Self) {
    }

    fn alt(self, b: Self) -> (r: Self) {
        self
    }
}

impl<T> Semigroup for Id<T> where T: Semigroup {
    /// Two wrappers are interchangeable when their contents are.
    open spec fn sem_eq(self, other: Self) -> bool {
        self.0.sem_eq(other.0)
    }

    /// A wrapper is well formed when its contents are.
    open spec fn sem_valid(self) -> bool {
        self.0.sem_valid()
    }

    /// Combining is allowed whenever the contents may be combined.
    open spec fn append_req(self, b: Self) -> bool {
        self.0.append_req(b.0)
    }

    /// The contents are combined.
    open spec fn is_append(self, b: Self, r: Self) -> bool {
        self.0.is_append(b.0, r.0)
    }

    proof fn lemma_sem_eq_refl(self) {
        self.0.lemma_sem_eq_refl();
    }

    proof fn lemma_append_deterministic(a: Self, b: Self, r1: Self, r2: Self) {
        T::lemma_append_deterministic(a.0, b.0, r1.0, r2.0);
    }

    proof fn lemma_append_assoc(a: Self, b: Self, c: Self, ab: Self, bc: Self, ab_c: Self, a_bc: Self) {
        T::lemma_append_assoc(a.0, b.0, c.0, ab.0, bc.0, ab_c.0, a_bc.0);
    }

    fn append(self, b: Self) -> (r: Self) {
        Id(self.0.append(b.0))
    }
}

impl<T> Monoid for Id<T> where T: Monoid {
    /// The identity element wraps the contents' identity element.
    open spec fn is_identity(x: Self) -> bool {
        T::is_identity(x.0)
    }

    proof fn lemma_identity_appendable(x: Self, e: Self) {
        T::lemma_identity_appendable(x.0, e.0);
    }

    proof fn lemma_identity_right(x: Self, e: Self, r: Self) {
        T::lemma_identity_right(x.0, e.0, r.0);
    }

    proof fn lemma_identity_left(x: Self, e: Self, r: Self) {
        T::lemma_identity_left(x.0, e.0, r.0);
    }

    fn identity() -> (r: Self) {
        Id(T::identity())
    }
}

impl<A> MonadOnce<IdHkt, A> for Id<A> {
    fn bind1<B, AMB>(self, f: AMB) -> (r: <IdHkt as HKT1<B>>::T)
        where
            AMB: F1Once<A, Ret = <IdHkt as HKT1<B>>::T>,
        ensures
            f.post1(self.0, r),
    {
        f.call1(self.0)
    }
}

impl<A> Monad<IdHkt, A> for Id<A> {
    fn bind<B, AMB>(self, f: AMB) -> (r: <IdHkt as HKT1<B>>::T)
        where
            AMB: F1<A, Ret = <IdHkt as HKT1<B>>::T>,
        ensures
            f.post1(self.0, r),
    {
        f.call(self.0)
    }

    /// Flattening removes exactly one wrapper layer.
    fn flatten<AA>(self) -> (r: <IdHkt as HKT1<AA>>::T)
        where
            IdHkt: HKT1<AA, T = A>,
        ensures
            r == self.0,
    {
        self.bind::<AA, _>(crate::fun::IdFn::new())
    }
}

/// Functor identity law: mapping a relation that can only return its
/// argument unchanged is a no-op.
pub proof fn lemma_id_fmap_identity<A>(c: Id<A>, rel: spec_fn(A, A) -> bool, r: Id<A>)
    requires
        rel(c.0, r.0),
        forall|a: A, b: A| #[trigger] rel(a, b) ==> b == a,
    ensures
        r == c,
{
}

/// Functor composition law: mapping `rf` and then `rg` is a mapping of
/// their composition.
pub proof fn lemma_id_fmap_compose<A, B, C>(
    c: Id<A>,
    rf: spec_fn(A, B) -> bool,
    r1: Id<B>,
    rg: spec_fn(B, C) -> bool,
    r2: Id<C>,
)
    requires
        rf(c.0, r1.0),
        rg(r1.0, r2.0),
    ensures
        exists|b: B| #[trigger] rf(c.0, b) && rg(b, r2.0),
{
}

/// Monad left-identity law: binding `f` over a lifted value applies `f` to
/// the value directly.
pub proof fn lemma_id_bind_left_identity<A, B>(a: A, rel: spec_fn(A, Id<B>) -> bool, r: Id<B>)
    requires
        rel(Id(a).0, r),
    ensures
        rel(a, r),
{
}

/// Monad right-identity law: binding a relation that can only lift its
/// argument is a no-op.
pub proof fn lemma_id_bind_right_identity<A>(m: Id<A>, rel: spec_fn(A, Id<A>) -> bool, r: Id<A>)
    requires
        rel(m.0, r),
        forall|x: A, o: Id<A>| #[trigger] rel(x, o) ==> o == Id(x),
    ensures
        r == m,
{
}

/// Monad associativity law: binding `rf` and then `rg` is a binding of
/// their composition.
pub proof fn lemma_id_bind_assoc<A, B, C>(
    m: Id<A>,
    rf: spec_fn(A, Id<B>) -> bool,
    r1: Id<B>,
    rg: spec_fn(B, Id<C>) -> bool,
    r2: Id<C>,
)
    requires
        rf(m.0, r1),
        rg(r1.0, r2),
    ensures
        exists|mid: Id<B>| #[trigger] rf(m.0, mid) && rg(mid.0, r2),
{
}

} // verus!
