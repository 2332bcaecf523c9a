//! The optional-value adapter: the typeclass hierarchy implemented for
//! `Option`, together with proofs of the functor and monad laws.
use vstd::prelude::*;

use crate::alt::{Alt, Plus};
use crate::apply::{Applicative, Apply, ApplyOnce};
use crate::fold::{Foldable, FoldableOnce};
use crate::fun::{F1, F1Once, F2, F2Once};
use crate::functor::{Functor, FunctorOnce};
use crate::monad::{Monad, MonadOnce};
use crate::semigroup::{Monoid, Semigroup};
use crate::HKT1;

verus! {

/// `Option` lifted to a type-constructor marker (kind `Type -> Type`).
pub struct OptionHkt;

impl<A> HKT1<A> for OptionHkt {
    type T = Option<A>;
}

/// How a mapped optional value relates to the original: `None` stays
/// `None`, and the element of a `Some` is sent through the relation.
pub open spec fn fmap_rel<A, B>(c: Option<A>, rel: spec_fn(A, B) -> bool, r: Option<B>) -> bool {
    match (c, r) {
        (Some(a), Some(b)) => rel(a, b),
        (None, None) => true,
        _ => false,
    }
}

/// How an applied optional value relates to the lifted function and lifted
/// argument: both must be present for a result to be present.
pub open spec fn apply_rel<G, A, B>(
    fs: Option<G>,
    xs: Option<A>,
    rel: spec_fn(G, A, B) -> bool,
    r: Option<B>,
) -> bool {
    match (fs, xs) {
        (Some(g), Some(x)) => match r {
            Some(b) => rel(g, x, b),
            None => false,
        },
        _ => r is None,
    }
}

/// How a bound optional value relates to the original: `None` short-circuits
/// and the element of a `Some` decides the whole result through the
/// relation.
pub open spec fn bind_rel<A, B>(m: Option<A>, rel: spec_fn(A, Option<B>) -> bool, r: Option<B>) -> bool {
    match m {
        Some(a) => rel(a, r),
        None => r is None,
    }
}

impl<A> FunctorOnce<OptionHkt, A> for Option<A> {
    fn fmap1<B, AB>(self, f: AB) -> (r: <OptionHkt as HKT1<B>>::T)
        where
            AB: F1Once<A, Ret = B>,
        ensures
            fmap_rel(self, |a: A, b: B| f.post1(a, b), r),
    {
        match self {
            Some(a) => Some(f.call1(a)),
            None => None,
        }
    }
}

impl<A> Functor<OptionHkt, A> for Option<A> {
    fn fmap<B, AB>(self, f: AB) -> (r: <OptionHkt as HKT1<B>>::T)
        where
            AB: F1<A, Ret = B>,
        ensures
            fmap_rel(self, |a: A, b: B| f.post1(a, b), r),
    {
        match self {
            Some(a) => Some(f.call(a)),
            None => None,
        }
    }
}

impl<AB> ApplyOnce<OptionHkt, AB> for Option<AB> {
    fn apply1<A, B>(self, a: <OptionHkt as HKT1<A>>::T) -> (r: <OptionHkt as HKT1<B>>::T)
        where
            AB: F1Once<A, Ret = B>,
        ensures
            apply_rel(self, a, |g: AB, x: A, b: B| g.post1(x, b), r),
    {
        match self {
            Some(g) => match a {
                Some(x) => Some(g.call1(x)),
                None => None,
            },
            None => None,
        }
    }
}

impl<AB> Apply<OptionHkt, AB> for Option<AB> {
    fn apply_with<A, B, Cloner>(
        self,
        a: <OptionHkt as HKT1<A>>::T,
        cloner: Cloner,
    ) -> (r: <OptionHkt as HKT1<B>>::T)
        where
            AB: F1<A, Ret = B>,
            Cloner: for<'x> F1<&'x A, Ret = A>,
        ensures
            (match (self, a) {
                (Some(g), Some(x)) => match r {
                    Some(b) => exists|x2: A| #[trigger] cloner.post1(&x, x2) && g.post1(x2, b),
                    None => false,
                },
                _ => r is None,
            }),
    {
        match self {
            Some(g) => match a {
                Some(x) => {
                    let x2 = cloner.call(&x);
                    Some(g.call(x2))
                },
                None => None,
            },
            None => None,
        }
    }

    /// As `apply_with`, duplicating by plain copy: both sides must be
    /// present for a result to be present.
    fn apply<A, B>(self, a: <OptionHkt as HKT1<A>>::T) -> (r: <OptionHkt as HKT1<B>>::T)
        where
            AB: F1<A, Ret = B>,
            A: Copy,
        ensures
            (match (self, a) {
                (Some(g), Some(x)) => (r matches Some(b) && g.post1(x, b)),
                _ => r is None,
            }),
    {
        match self {
            Some(g) => match a {
                Some(x) => Some(g.call(x)),
                None => None,
            },
            None => None,
        }
    }
}

impl<A> Applicative<OptionHkt, A> for Option<A> {
    /// The lift of a value is `Some` of it.
    open spec fn is_pure(a: A, r: Self) -> bool {
        r == Some(a)
    }

    /// Lifting a value yields `Some` of it.
    fn pure(a: A) -> (r: Self)
        ensures
            r == Some(a),
    {
        Some(a)
    }
}

impl<A> Alt<OptionHkt, A> for Option<A> {
    /// Two optional values are interchangeable exactly when they are equal.
    open spec fn alt_eq(self, other: Self) -> bool {
        self == other
    }

    /// Every value is well formed.
    open spec fn alt_valid(self) -> bool {
        true
    }

    /// Selecting between optional values is always allowed.
    open spec fn alt_req(self, b: Self) -> bool {
        true
    }

    /// The first `Some` wins.
    open spec fn is_alt(self, b: Self, r: Self) -> bool {
        r == if self is Some {
            self
        } else {
            b
        }
    }

    proof fn lemma_alt_eq_refl(self) {
    }

    proof fn lemma_alt_deterministic(a: Self, b: Self, r1: Self, r2: Self) {
    }

    proof fn lemma_alt_assoc(a: Self, b: Self, c: Self, ab: Self, bc: Self, ab_c: Self, a_bc: Self) {
    }

    fn alt(self, b: Self) -> (r: Self) {
        match self {
            Some(a) => Some(a),
            None => b,
        }
    }
}

impl<A> Plus<OptionHkt, A> for Option<A> {
    /// The empty optional value is `None`.
    open spec fn is_empty_val(x: Self) -> bool {
        x is None
    }

    proof fn lemma_empty_altable(x: Self, e: Self) {
    }

    proof fn lemma_empty_alt_right(x: Self, e: Self, r: Self) {
    }

    proof fn lemma_empty_alt_left(x: Self, e: Self, r: Self) {
    }

    fn empty() -> (r: Self) {
        None
    }
}

impl<A> Semigroup for Option<A> where A: Semigroup {
    /// Two optional values are interchangeable when both are absent or both
    /// present with interchangeable contents.
    open spec fn sem_eq(self, other: Self) -> bool {
        match (self, other) {
            (Some(a), Some(b)) => a.sem_eq(b),
            (None, None) => true,
            _ => false,
        }
    }

    /// Every value is well formed.
    open spec fn sem_valid(self) -> bool {
        true
    }

    /// Combining is allowed whenever the contents may be combined.
    open spec fn append_req(self, b: Self) -> bool {
        match (self, b) {
            (Some(x), Some(y)) => x.append_req(y),
            _ => true,
        }
    }

    /// Present contents are combined; a single present value is kept.
    open spec fn is_append(self, b: Self, r: Self) -> bool {
        match (self, b) {
            (Some(x), Some(y)) => match r {
                Some(z) => x.is_append(y, z),
                None => false,
            },
            (Some(x), None) => r == Some(x),
            (None, Some(y)) => r == Some(y),
            (None, None) => r is None,
        }
    }

    proof fn lemma_sem_eq_refl(self) {
        match self {
            Some(a) => a.lemma_sem_eq_refl(),
            None => {},
        }
    }

    proof fn lemma_append_deterministic(a: Self, b: Self, r1: Self, r2: Self) {
        match (a, b) {
            (Some(x), Some(y)) => A::lemma_append_deterministic(x, y, r1->0, r2->0),
            _ => lemma_option_append_refl_helper::<A>(r1->0),
        }
    }

    proof fn lemma_append_assoc(a: Self, b: Self, c: Self, ab: Self, bc: Self, ab_c: Self, a_bc: Self) {
        if a is Some && b is Some && c is Some {
            A::lemma_append_assoc(a->0, b->0, c->0, ab->0, bc->0, ab_c->0, a_bc->0);
        } else if a is Some && b is Some {
            Self::lemma_append_deterministic(a, b, ab_c, a_bc);
        } else if a is Some && c is Some {
            Self::lemma_append_deterministic(a, c, ab_c, a_bc);
        } else if b is Some && c is Some {
            Self::lemma_append_deterministic(b, c, ab_c, a_bc);
        } else {
            lemma_option_append_refl_helper::<A>(ab_c->0);
        }
    }

    fn append(self, b: Self) -> (r: Self) {
        match (self, b) {
            (Some(x), Some(y)) => Some(x.append(y)),
            (Some(x), None) => Some(x),
            (None, Some(y)) => Some(y),
            (None, None) => None,
        }
    }
}

/// In the cases where at most one operand is present, appending returns one
/// of the operands unchanged, so interchangeability reduces to reflexivity.
pub broadcast proof fn lemma_option_append_refl_helper<A: Semigroup>(x: A)
    ensures
        #[trigger] x.sem_eq(x),
{
    x.lemma_sem_eq_refl();
}

impl<A> Monoid for Option<A> where A: Semigroup {
    /// The identity for optional combination is the absent value.
    open spec fn is_identity(x: Self) -> bool {
        x is None
    }

    proof fn lemma_identity_appendable(x: Self, e: Self) {
    }

    proof fn lemma_identity_right(x: Self, e: Self, r: Self) {
        lemma_option_append_refl_helper(r->0);
    }

    proof fn lemma_identity_left(x: Self, e: Self, r: Self) {
        lemma_option_append_refl_helper(r->0);
    }

    fn identity() -> (r: Self) {
        None
    }
}

impl<A> FoldableOnce<OptionHkt, A> for Option<A> {
    /// The at-most-one element is the optional value itself.
    open spec fn view_elem(self) -> Option<A> {
        self
    }

    fn fold1<B, BAB>(self, f: BAB, b: B) -> (r: B)
        where
            BAB: F2Once<B, A, Ret = B>,
    {
        match self {
            Some(a) => f.call1(b, a),
            None => b,
        }
    }

    fn fold1_ref<'a, B, BAB>(&'a self, f: BAB, b: B) -> (r: B)
        where
            BAB: F2Once<B, &'a A, Ret = B>,
    {
        match self {
            Some(a) => f.call1(b, a),
            None => b,
        }
    }
}

impl<A> Foldable<OptionHkt, A> for Option<A> {
    /// The elements are the optional value, if present.
    open spec fn view_elems(self) -> Seq<A> {
        match self {
            Some(a) => seq![a],
            None => Seq::<A>::empty(),
        }
    }

    fn foldl<B, BAB>(self, f: BAB, b: B) -> (r: B)
        where
            BAB: F2<B, A, Ret = B>,
    {
        let ghost view = self.view_elems();
        let ghost rel = crate::fold::foldl_fn_rel::<A, B, BAB>(f);
        match self {
            Some(a) => {
                proof {
                    assert(view[0] == a);
                }
                let r = f.call(b, a);
                proof {
                    assert(rel(b, view[0], r));
                    crate::fold::lemma_foldl_upto_step(view, 1, rel, b, b, r);
                }
                r
            },
            None => b,
        }
    }

    fn foldr<B, ABB>(self, f: ABB, b: B) -> (r: B)
        where
            ABB: F2<A, B, Ret = B>,
    {
        let ghost view = self.view_elems();
        let ghost rel = crate::fold::foldr_fn_rel::<A, B, ABB>(f);
        match self {
            Some(a) => {
                proof {
                    assert(view[0] == a && view.last() == a);
                }
                let r = f.call(a, b);
                proof {
                    assert(rel(view[0], b, r));
                    crate::fold::lemma_foldr_from_step(view, 0, rel, b, b, r);
                }
                r
            },
            None => b,
        }
    }

    fn foldl_ref<'a, B, BAB>(&'a self, f: BAB, b: B) -> (r: B)
        where
            BAB: F2<B, &'a A, Ret = B>,
    {
        let ghost view = (*self).view_elems();
        let ghost rel = crate::fold::foldl_ref_fn_rel::<A, B, BAB>(f);
        match self {
            Some(a) => {
                proof {
                    assert(view[0] == *a);
                }
                let r = f.call(b, a);
                proof {
                    assert(rel(b, view[0], r));
                    crate::fold::lemma_foldl_upto_step(view, 1, rel, b, b, r);
                }
                r
            },
            None => b,
        }
    }

    fn foldr_ref<'a, B, ABB>(&'a self, f: ABB, b: B) -> (r: B)
        where
            ABB: F2<&'a A, B, Ret = B>,
    {
        let ghost view = (*self).view_elems();
        let ghost rel = crate::fold::foldr_ref_fn_rel::<A, B, ABB>(f);
        match self {
            Some(a) => {
                proof {
                    assert(view[0] == *a && view.last() == *a);
                }
                let r = f.call(a, b);
                proof {
                    assert(rel(view[0], b, r));
                    crate::fold::lemma_foldr_from_step(view, 0, rel, b, b, r);
                }
                r
            },
            None => b,
        }
    }
}

impl<A> MonadOnce<OptionHkt, A> for Option<A> {
    fn bind1<B, AMB>(self, f: AMB) -> (r: <OptionHkt as HKT1<B>>::T)
        where
            AMB: F1Once<A, Ret = <OptionHkt as HKT1<B>>::T>,
        ensures
            bind_rel(self, |a: A, mb: Option<B>| f.post1(a, mb), r),
    {
        match self {
            Some(a) => f.call1(a),
            None => None,
        }
    }
}

impl<A> Monad<OptionHkt, A> for Option<A> {
    fn bind<B, AMB>(self, f: AMB) -> (r: <OptionHkt as HKT1<B>>::T)
        where
            AMB: F1<A, Ret = <OptionHkt as HKT1<B>>::T>,
        ensures
            bind_rel(self, |a: A, mb: Option<B>| f.post1(a, mb), r),
    {
        match self {
            Some(a) => f.call(a),
            None => None,
        }
    }

    /// Flattening removes exactly one optional layer.  (When `self` is
    /// absent the result is the absent inner value; that case cannot be
    /// written here, since the element type is opaque in this signature.)
    fn flatten<AA>(self) -> (r: <OptionHkt as HKT1<AA>>::T)
        where
            OptionHkt: HKT1<AA, T = A>,
        ensures
            (self matches Some(m) ==> r == m),
    {
        self.bind::<AA, _>(crate::fun::IdFn::new())
    }
}

/// Functor identity law: mapping a relation that can only return its
/// argument unchanged is a no-op.
pub proof fn lemma_option_fmap_identity<A>(c: Option<A>, rel: spec_fn(A, A) -> bool, r: Option<A>)
    requires
        fmap_rel(c, rel, r),
        forall|a: A, b: A| #[trigger] rel(a, b) ==> b == a,
    ensures
        r == c,
{
}

/// Functor composition law: mapping `rf` and then `rg` is a mapping of
/// their composition.
pub proof fn lemma_option_fmap_compose<A, B, C>(
    c: Option<A>,
    rf: spec_fn(A, B) -> bool,
    r1: Option<B>,
    rg: spec_fn(B, C) -> bool,
    r2: Option<C>,
)
    requires
        fmap_rel(c, rf, r1),
        fmap_rel(r1, rg, r2),
    ensures
        fmap_rel(c, |a: A, cc: C| exists|b: B| #[trigger] rf(a, b) && rg(b, cc), r2),
{
}

/// Mapping distributes over selection: mapping the chosen operand is the
/// choice between the mapped operands.
pub proof fn lemma_option_fmap_distributes_over_alt<A, B>(
    a: Option<A>,
    b: Option<A>,
    c: Option<A>,
    rel: spec_fn(A, B) -> bool,
    ra: Option<B>,
    rb: Option<B>,
)
    requires
        c == if a is Some {
            a
        } else {
            b
        },
        fmap_rel(a, rel, ra),
        fmap_rel(b, rel, rb),
    ensures
        fmap_rel(
            c,
            rel,
            if ra is Some {
                ra
            } else {
                rb
            },
        ),
{
}

/// Monad left-identity law: binding `f` over a lifted value applies `f` to
/// the value directly.
pub proof fn lemma_option_bind_left_identity<A, B>(
    a: A,
    rel: spec_fn(A, Option<B>) -> bool,
    r: Option<B>,
)
    requires
        bind_rel(Some(a), rel, r),
    ensures
        rel(a, r),
{
}

/// Monad right-identity law: binding a relation that can only lift its
/// argument is a no-op.
pub proof fn lemma_option_bind_right_identity<A>(
    m: Option<A>,
    rel: spec_fn(A, Option<A>) -> bool,
    r: Option<A>,
)
    requires
        bind_rel(m, rel, r),
        forall|x: A, o: Option<A>| #[trigger] rel(x, o) ==> o == Some(x),
    ensures
        r == m,
{
}

/// Monad associativity law: binding `rf` and then `rg` is a binding of
/// their composition.
pub proof fn lemma_option_bind_assoc<A, B, C>(
    m: Option<A>,
    rf: spec_fn(A, Option<B>) -> bool,
    r1: Option<B>,
    rg: spec_fn(B, Option<C>) -> bool,
    r2: Option<C>,
)
    requires
        bind_rel(m, rf, r1),
        bind_rel(r1, rg, r2),
    ensures
        bind_rel(
            m,
            |a: A, o: Option<C>| exists|mid: Option<B>| #[trigger] rf(a, mid) && bind_rel(mid, rg, o),
            r2,
        ),
{
}

} // verus!
