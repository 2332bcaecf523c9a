//! The fixed-capacity sequence adapter: a sequence that never holds more
//! than `N` elements.  Combining two of them is only allowed while the
//! result still fits, which the `append`/`alt` preconditions state.
use vstd::prelude::*;

use crate::alt::{Alt, Plus};
use crate::apply::Apply;
use crate::fold::{foldl_graph, foldr_graph, Foldable};
use crate::fun::{F1, F2};
use crate::functor::{seq_fmap_rel, Functor};
use crate::impls::vec::{bind_fn_rel, bind_graph, cross_entry};
use crate::monad::Monad;
use crate::semigroup::{Monoid, Semigroup};
use crate::HKT1;

verus! {

/// A fixed-capacity sequence lifted to a type-constructor marker.
pub struct ArrayVecHkt<const N: usize>;

impl<A, const N: usize> HKT1<A> for ArrayVecHkt<N> {
    type T = ArrayVec<A, N>;
}

/// A sequence holding at most `N` elements.
#[derive(Debug, Clone, PartialEq, Eq)]
pub struct ArrayVec<A, const N: usize> {
    /// The stored elements, at most `N` of them.
    pub elems: Vec<A>,
}

impl<A, const N: usize> ArrayVec<A, N> {
    /// Well-formedness: the element count never exceeds the capacity.
    pub open spec fn wf(self) -> bool {
        self.elems@.len() <= N
    }

    /// Create an empty fixed-capacity sequence.
    pub fn new() -> (r: Self)
        ensures
            r.elems@ == Seq::<A>::empty(),
            r.wf(),
    {
        ArrayVec { elems: Vec::new() }
    }

    /// Lift a single value into a fixed-capacity sequence.
    pub fn pure(a: A) -> (r: Self)
        requires
            N >= 1,
        ensures
            r.elems@.len() == 1 && r.elems@[0] == a,
            r.wf(),
    {
        let mut v: Vec<A> = Vec::new();
        v.push(a);
        ArrayVec { elems: v }
    }

    /// Feed the elements through `f` and concatenate the sequences it
    /// returns, keeping only as many elements as fit the capacity.
    pub fn bind<B, AMB>(self, f: AMB) -> (r: ArrayVec<B, N>)
        where
            AMB: crate::fun::F1<A, Ret = Vec<B>>,
        requires
            forall|a: A| #[trigger] f.pre1(a),
        ensures
            (exists|full: Seq<B>|
                #[trigger] bind_graph(self.elems@, bind_fn_rel(f), full) && r.elems@ == if full.len()
                    <= N {
                    full
                } else {
                    full.take(N as int)
                }),
            r.wf(),
    {
        let mut full: Vec<B> = self.elems.bind(f);
        let ghost full0 = full@;
        if full.len() > N {
            full.truncate(N);
        }
        ArrayVec { elems: full }
    }
}

impl<AB, const N: usize> ArrayVec<AB, N> {
    /// Apply each function held in `self` to a duplicate of each value held
    /// in `a`, collecting the full combination table row by row and keeping
    /// only as many entries as fit the capacity.
    pub fn apply_with<A, B, Cloner>(self, a: ArrayVec<A, N>, cloner: Cloner) -> (r: ArrayVec<B, N>)
        where
            AB: F1<A, Ret = B>,
            Cloner: for<'x> F1<&'x A, Ret = A>,
        requires
            forall|g: AB, x: A| #[trigger] g.pre1(x),
            forall|x: &A| #[trigger] cloner.pre1(x),
        ensures
            r.elems@.len() == if self.elems@.len() * a.elems@.len() <= N {
                (self.elems@.len() * a.elems@.len()) as int
            } else {
                N as int
            },
            forall|i: int, j: int|
                0 <= i < self.elems@.len() && 0 <= j < a.elems@.len() && i * a.elems@.len() + j
                    < r.elems@.len() ==> #[trigger] cross_entry(
                    self.elems@,
                    a.elems@,
                    cloner,
                    r.elems@,
                    i,
                    j,
                ),
            r.wf(),
    {
        let ghost fs = self.elems@;
        let ghost xs = a.elems@;
        let mut full: Vec<B> = self.elems.apply_with(a.elems, cloner);
        let ghost full0 = full@;
        if full.len() > N {
            full.truncate(N);
        }
        proof {
            assert forall|i: int, j: int|
                0 <= i < fs.len() && 0 <= j < xs.len() && i * xs.len() + j
                    < full@.len() implies #[trigger] cross_entry(fs, xs, cloner, full@, i, j) by {
                assert(cross_entry(fs, xs, cloner, full0, i, j));
                let x3 = choose|x3: A|
                    cloner.post1(&xs[j], x3) && (fs[i]).post1(x3, full0[i * xs.len() + j]);
                assert(full@[i * xs.len() + j] == full0[i * xs.len() + j]);
                assert(cloner.post1(&xs[j], x3));
            }
        }
        ArrayVec { elems: full }
    }
}

impl<A, const N: usize> Functor<ArrayVecHkt<N>, A> for ArrayVec<A, N> {
    fn fmap<B, AB>(self, f: AB) -> (r: <ArrayVecHkt<N> as HKT1<B>>::T)
        where
            AB: F1<A, Ret = B>,
        ensures
            seq_fmap_rel(self.elems@, |a: A, b: B| f.post1(a, b), r.elems@),
    {
        ArrayVec { elems: self.elems.fmap(f) }
    }
}

impl<A, const N: usize> Foldable<ArrayVecHkt<N>, A> for ArrayVec<A, N> {
    /// The elements, in order.
    open spec fn view_elems(self) -> Seq<A> {
        self.elems@
    }

    fn foldl<B, BAB>(self, f: BAB, b: B) -> (r: B)
        where
            BAB: F2<B, A, Ret = B>,
    {
        self.elems.foldl(f, b)
    }

    fn foldr<B, ABB>(self, f: ABB, b: B) -> (r: B)
        where
            ABB: F2<A, B, Ret = B>,
    {
        self.elems.foldr(f, b)
    }

    fn foldl_ref<'a, B, BAB>(&'a self, f: BAB, b: B) -> (r: B)
        where
            BAB: F2<B, &'a A, Ret = B>,
    {
        self.elems.foldl_ref(f, b)
    }

    fn foldr_ref<'a, B, ABB>(&'a self, f: ABB, b: B) -> (r: B)
        where
            ABB: F2<&'a A, B, Ret = B>,
    {
        self.elems.foldr_ref(f, b)
    }
}

impl<A, const N: usize> Alt<ArrayVecHkt<N>, A> for ArrayVec<A, N> {
    /// Two fixed-capacity sequences are interchangeable when they hold the
    /// same elements in the same order.
    open spec fn alt_eq(self, other: Self) -> bool {
        self.elems@ == other.elems@
    }

    /// A value is well formed when it fits its capacity.
    open spec fn alt_valid(self) -> bool {
        self.wf()
    }

    /// Concatenation is allowed while the result still fits the capacity.
    open spec fn alt_req(self, b: Self) -> bool {
        self.elems@.len() + b.elems@.len() <= N
    }

    /// The combination is the concatenation.
    open spec fn is_alt(self, b: Self, r: Self) -> bool {
        r.elems@ == self.elems@ + b.elems@
    }

    proof fn lemma_alt_eq_refl(self) {
    }

    proof fn lemma_alt_deterministic(a: Self, b: Self, r1: Self, r2: Self) {
    }

    proof fn lemma_alt_assoc(a: Self, b: Self, c: Self, ab: Self, bc: Self, ab_c: Self, a_bc: Self) {
        assert(ab_c.elems@ =~= a_bc.elems@);
    }

    fn alt(self, b: Self) -> (r: Self) {
        let mut v = self.elems;
        let mut o = b.elems;
        Vec::append(&mut v, &mut o);
        ArrayVec { elems: v }
    }
}

impl<A, const N: usize> Plus<ArrayVecHkt<N>, A> for ArrayVec<A, N> {
    /// The empty fixed-capacity sequence.
    open spec fn is_empty_val(x: Self) -> bool {
        x.elems@ == Seq::<A>::empty()
    }

    proof fn lemma_empty_altable(x: Self, e: Self) {
    }

    proof fn lemma_empty_alt_right(x: Self, e: Self, r: Self) {
        assert(r.elems@ =~= x.elems@);
    }

    proof fn lemma_empty_alt_left(x: Self, e: Self, r: Self) {
        assert(r.elems@ =~= x.elems@);
    }

    fn empty() -> (r: Self) {
        ArrayVec { elems: Vec::new() }
    }
}

impl<A, const N: usize> Semigroup for ArrayVec<A, N> {
    /// Two fixed-capacity sequences are interchangeable when they hold the
    /// same elements in the same order.
    open spec fn sem_eq(self, other: Self) -> bool {
        self.elems@ == other.elems@
    }

    /// A value is well formed when it fits its capacity.
    open spec fn sem_valid(self) -> bool {
        self.wf()
    }

    /// Concatenation is allowed while the result still fits the capacity.
    open spec fn append_req(self, b: Self) -> bool {
        self.elems@.len() + b.elems@.len() <= N
    }

    /// The combination is the concatenation.
    open spec fn is_append(self, b: Self, r: Self) -> bool {
        r.elems@ == self.elems@ + b.elems@
    }

    proof fn lemma_sem_eq_refl(self) {
    }

    proof fn lemma_append_deterministic(a: Self, b: Self, r1: Self, r2: Self) {
    }

    proof fn lemma_append_assoc(a: Self, b: Self, c: Self, ab: Self, bc: Self, ab_c: Self, a_bc: Self) {
        assert(ab_c.elems@ =~= a_bc.elems@);
    }

    fn append(self, b: Self) -> (r: Self) {
        let mut v = self.elems;
        let mut o = b.elems;
        Vec::append(&mut v, &mut o);
        ArrayVec { elems: v }
    }
}

impl<A, const N: usize> Monoid for ArrayVec<A, N> {
    /// The identity for concatenation is the empty sequence.
    open spec fn is_identity(x: Self) -> bool {
        x.elems@ == Seq::<A>::empty()
    }

    proof fn lemma_identity_appendable(x: Self, e: Self) {
    }

    proof fn lemma_identity_right(x: Self, e: Self, r: Self) {
        assert(r.elems@ =~= x.elems@);
    }

    proof fn lemma_identity_left(x: Self, e: Self, r: Self) {
        assert(r.elems@ =~= x.elems@);
    }

    fn identity() -> (r: Self) {
        ArrayVec { elems: Vec::new() }
    }
}

impl<A, const N: usize> Default for ArrayVec<A, N> {
    /// The default fixed-capacity sequence is empty.
    fn default() -> (r: Self)
        ensures
            r.elems@ == Seq::<A>::empty(),
            r.wf(),
    {
        ArrayVec { elems: Vec::new() }
    }
}

/// Append an element to a fixed-capacity sequence that still has room.
pub fn append<T, const N: usize>(t: T, v: ArrayVec<T, N>) -> (r: ArrayVec<T, N>)
    requires
        v.elems@.len() < N,
    ensures
        r.elems@ == v.elems@.push(t),
        r.wf(),
{
    let mut v2 = v.elems;
    v2.push(t);
    ArrayVec { elems: v2 }
}

} // verus!
