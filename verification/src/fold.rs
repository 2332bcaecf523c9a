//! Foldable: collapsing a container to a summary value from a seed and a
//! step function.  Each container exposes its elements as a sequence
//! (`view_elems`), every fold is specified through a fold graph over that
//! sequence, and the derived operations (`fold_map`, `fold`, `intercalate`,
//! `any`, `all`, `length`, `is_empty`, `find_map`, `find`, `get_or`) are
//! defined in terms of the fold primitives alone, each folding with a small
//! named callable defined below and each carrying its own contract.
use vstd::prelude::*;

use crate::fun::{F1, F1Once, F2, F2Once, F3, F3Once};
use crate::semigroup::{Monoid, Semigroup};
use crate::HKT1;

verus! {

/// The step relation a two-argument callable induces on fold summaries,
/// with the summary on the left.
pub open spec fn foldl_fn_rel<A, B, F: F2Once<B, A, Ret = B>>(f: F) -> spec_fn(B, A, B) -> bool {
    |acc: B, a: A, o: B| f.post2(acc, a, o)
}

/// The step relation a two-argument callable induces on fold summaries,
/// with the summary on the right.
pub open spec fn foldr_fn_rel<A, B, F: F2Once<A, B, Ret = B>>(f: F) -> spec_fn(A, B, B) -> bool {
    |a: A, acc: B, o: B| f.post2(a, acc, o)
}

/// As [`foldl_fn_rel`], for a callable taking the element by reference.
pub open spec fn foldl_ref_fn_rel<'a, A: 'a, B, F: F2Once<B, &'a A, Ret = B>>(f: F) -> spec_fn(
    B,
    A,
    B,
) -> bool {
    |acc: B, a: A, o: B| f.post2(acc, &a, o)
}

/// As [`foldr_fn_rel`], for a callable taking the element by reference.
pub open spec fn foldr_ref_fn_rel<'a, A: 'a, B, F: F2Once<&'a A, B, Ret = B>>(f: F) -> spec_fn(
    A,
    B,
    B,
) -> bool {
    |a: A, acc: B, o: B| f.post2(&a, acc, o)
}

/// When a left fold may run: each step's precondition holds for whatever
/// summary the earlier steps may have produced.
pub open spec fn foldl_ok<A, B, F: F2Once<B, A, Ret = B>>(s: Seq<A>, f: F, acc: B) -> bool
    decreases s.len(),
{
    s.len() == 0 || (f.pre2(acc, s[0]) && (forall|o: B|
        #[trigger] f.post2(acc, s[0], o) ==> foldl_ok(s.drop_first(), f, o)))
}

/// When a right fold may run: each step's precondition holds for whatever
/// summary the later steps may have produced.
pub open spec fn foldr_ok<A, B, F: F2Once<A, B, Ret = B>>(s: Seq<A>, f: F, acc: B) -> bool
    decreases s.len(),
{
    s.len() == 0 || (f.pre2(s.last(), acc) && (forall|o: B|
        #[trigger] f.post2(s.last(), acc, o) ==> foldr_ok(s.drop_last(), f, o)))
}

/// As [`foldl_ok`], for a callable taking the element by reference.
pub open spec fn foldl_ref_ok<'a, A: 'a, B, F: F2Once<B, &'a A, Ret = B>>(s: Seq<A>, f: F, acc: B) -> bool
    decreases s.len(),
{
    s.len() == 0 || (f.pre2(acc, &s[0]) && (forall|o: B|
        #[trigger] f.post2(acc, &s[0], o) ==> foldl_ref_ok(s.drop_first(), f, o)))
}

/// As [`foldr_ok`], for a callable taking the element by reference.
pub open spec fn foldr_ref_ok<'a, A: 'a, B, F: F2Once<&'a A, B, Ret = B>>(s: Seq<A>, f: F, acc: B) -> bool
    decreases s.len(),
{
    s.len() == 0 || (f.pre2(&s.last(), acc) && (forall|o: B|
        #[trigger] f.post2(&s.last(), acc, o) ==> foldr_ref_ok(s.drop_last(), f, o)))
}

/// A callable whose precondition holds everywhere may run over any
/// elements from any seed.
pub proof fn lemma_foldl_ok_total<A, B, F: F2Once<B, A, Ret = B>>(s: Seq<A>, f: F, acc: B)
    requires
        forall|x: B, a: A| #[trigger] f.pre2(x, a),
    ensures
        foldl_ok(s, f, acc),
    decreases s.len(),
{
    if s.len() > 0 {
        assert forall|o: B| #[trigger] f.post2(acc, s[0], o) implies foldl_ok(
            s.drop_first(),
            f,
            o,
        ) by {
            lemma_foldl_ok_total(s.drop_first(), f, o);
        }
    }
}

/// As [`lemma_foldl_ok_total`], for the right fold.
pub proof fn lemma_foldr_ok_total<A, B, F: F2Once<A, B, Ret = B>>(s: Seq<A>, f: F, acc: B)
    requires
        forall|a: A, x: B| #[trigger] f.pre2(a, x),
    ensures
        foldr_ok(s, f, acc),
    decreases s.len(),
{
    if s.len() > 0 {
        assert forall|o: B| #[trigger] f.post2(s.last(), acc, o) implies foldr_ok(
            s.drop_last(),
            f,
            o,
        ) by {
            lemma_foldr_ok_total(s.drop_last(), f, o);
        }
    }
}

/// As [`lemma_foldl_ok_total`], for a callable taking the element by
/// reference.
pub proof fn lemma_foldl_ref_ok_total<'a, A: 'a, B, F: F2Once<B, &'a A, Ret = B>>(s: Seq<A>, f: F, acc: B)
    requires
        forall|x: B, a: &'a A| #[trigger] f.pre2(x, a),
    ensures
        foldl_ref_ok(s, f, acc),
    decreases s.len(),
{
    if s.len() > 0 {
        assert forall|o: B| #[trigger] f.post2(acc, &s[0], o) implies foldl_ref_ok(
            s.drop_first(),
            f,
            o,
        ) by {
            lemma_foldl_ref_ok_total(s.drop_first(), f, o);
        }
    }
}

/// As [`lemma_foldr_ok_total`], for a callable taking the element by
/// reference.
pub proof fn lemma_foldr_ref_ok_total<'a, A: 'a, B, F: F2Once<&'a A, B, Ret = B>>(s: Seq<A>, f: F, acc: B)
    requires
        forall|a: &'a A, x: B| #[trigger] f.pre2(a, x),
    ensures
        foldr_ref_ok(s, f, acc),
    decreases s.len(),
{
    if s.len() > 0 {
        assert forall|o: B| #[trigger] f.post2(&s.last(), acc, o) implies foldr_ref_ok(
            s.drop_last(),
            f,
            o,
        ) by {
            lemma_foldr_ref_ok_total(s.drop_last(), f, o);
        }
    }
}

/// The graph of a left fold over the first `i` elements of `s`: which
/// summary values `out` can arise from folding them into the seed `b`, one
/// step of the relation `rel` per element, left to right.
pub open spec fn foldl_upto<A, B>(
    s: Seq<A>,
    i: int,
    rel: spec_fn(B, A, B) -> bool,
    b: B,
    out: B,
) -> bool
    decreases i,
{
    if i <= 0 {
        out == b
    } else {
        exists|mid: B| foldl_upto(s, i - 1, rel, b, mid) && #[trigger] rel(mid, s[i - 1], out)
    }
}

/// Extending a left-fold graph by one step.
pub proof fn lemma_foldl_upto_step<A, B>(
    s: Seq<A>,
    j: int,
    rel: spec_fn(B, A, B) -> bool,
    b: B,
    mid: B,
    out: B,
)
    requires
        1 <= j,
        foldl_upto(s, j - 1, rel, b, mid),
        rel(mid, s[j - 1], out),
    ensures
        foldl_upto(s, j, rel, b, out),
{
}

/// The graph of a left fold over all of `s`.
pub open spec fn foldl_graph<A, B>(s: Seq<A>, rel: spec_fn(B, A, B) -> bool, b: B, out: B) -> bool {
    foldl_upto(s, s.len() as int, rel, b, out)
}

/// The graph of a right fold over the elements of `s` from position `i` on:
/// which summary values `out` can arise from folding them into the seed
/// `b`, one step of the relation `rel` per element, right to left.
pub open spec fn foldr_from<A, B>(
    s: Seq<A>,
    i: int,
    rel: spec_fn(A, B, B) -> bool,
    b: B,
    out: B,
) -> bool
    decreases s.len() - i,
{
    if i >= s.len() {
        out == b
    } else {
        exists|mid: B| foldr_from(s, i + 1, rel, b, mid) && #[trigger] rel(s[i], mid, out)
    }
}

/// Extending a right-fold graph by one step on its left.
pub proof fn lemma_foldr_from_step<A, B>(
    s: Seq<A>,
    i: int,
    rel: spec_fn(A, B, B) -> bool,
    b: B,
    mid: B,
    out: B,
)
    requires
        0 <= i < s.len(),
        foldr_from(s, i + 1, rel, b, mid),
        rel(s[i], mid, out),
    ensures
        foldr_from(s, i, rel, b, out),
{
}

/// The graph of a right fold over all of `s`.
pub open spec fn foldr_graph<A, B>(s: Seq<A>, rel: spec_fn(A, B, B) -> bool, b: B, out: B) -> bool {
    foldr_from(s, 0, rel, b, out)
}

/// As [`foldl_upto`], with the position of each element handed to the
/// relation.
pub open spec fn foldl_idx_upto<A, B>(
    s: Seq<A>,
    i: int,
    rel: spec_fn(B, usize, A, B) -> bool,
    b: B,
    out: B,
) -> bool
    decreases i,
{
    if i <= 0 {
        out == b
    } else {
        exists|mid: B|
            foldl_idx_upto(s, i - 1, rel, b, mid) && #[trigger] rel(mid, (i - 1) as usize, s[i - 1], out)
    }
}

/// Extending an indexed left-fold graph by one step.
pub proof fn lemma_foldl_idx_upto_step<A, B>(
    s: Seq<A>,
    j: int,
    rel: spec_fn(B, usize, A, B) -> bool,
    b: B,
    mid: B,
    out: B,
)
    requires
        1 <= j,
        foldl_idx_upto(s, j - 1, rel, b, mid),
        rel(mid, (j - 1) as usize, s[j - 1], out),
    ensures
        foldl_idx_upto(s, j, rel, b, out),
{
}

/// The graph of an indexed left fold over all of `s`.
pub open spec fn foldl_idx_graph<A, B>(
    s: Seq<A>,
    rel: spec_fn(B, usize, A, B) -> bool,
    b: B,
    out: B,
) -> bool {
    foldl_idx_upto(s, s.len() as int, rel, b, out)
}

/// As [`foldr_from`], with the position of each element handed to the
/// relation.
pub open spec fn foldr_idx_from<A, B>(
    s: Seq<A>,
    i: int,
    rel: spec_fn(usize, A, B, B) -> bool,
    b: B,
    out: B,
) -> bool
    decreases s.len() - i,
{
    if i >= s.len() {
        out == b
    } else {
        exists|mid: B|
            foldr_idx_from(s, i + 1, rel, b, mid) && #[trigger] rel(i as usize, s[i], mid, out)
    }
}

/// Extending an indexed right-fold graph by one step on its left.
pub proof fn lemma_foldr_idx_from_step<A, B>(
    s: Seq<A>,
    i: int,
    rel: spec_fn(usize, A, B, B) -> bool,
    b: B,
    mid: B,
    out: B,
)
    requires
        0 <= i < s.len(),
        foldr_idx_from(s, i + 1, rel, b, mid),
        rel(i as usize, s[i], mid, out),
    ensures
        foldr_idx_from(s, i, rel, b, out),
{
}

/// The graph of an indexed right fold over all of `s`.
pub open spec fn foldr_idx_graph<A, B>(
    s: Seq<A>,
    rel: spec_fn(usize, A, B, B) -> bool,
    b: B,
    out: B,
) -> bool {
    foldr_idx_from(s, 0, rel, b, out)
}

/// When a Monoid collapse may run: every summary the chain can reach may be
/// combined with the next element.
pub open spec fn monoid_fold_ok<A: Semigroup>(s: Seq<A>, acc: A) -> bool
    decreases s.len(),
{
    s.len() == 0 || (acc.append_req(s[0]) && (forall|o: A|
        #[trigger] acc.is_append(s[0], o) ==> monoid_fold_ok(s.drop_first(), o)))
}

/// The graph of a Monoid collapse of the first `i` elements of `s`: the
/// summaries reachable by combining them into the seed, left to right.
pub open spec fn monoid_fold_upto<A: Semigroup>(s: Seq<A>, i: int, acc: A, out: A) -> bool
    decreases i,
{
    if i <= 0 {
        out == acc
    } else {
        exists|mid: A| monoid_fold_upto(s, i - 1, acc, mid) && #[trigger] mid.is_append(s[i - 1], out)
    }
}

/// The graph of a Monoid collapse of all of `s`.
pub open spec fn monoid_fold_graph<A: Semigroup>(s: Seq<A>, acc: A, out: A) -> bool {
    monoid_fold_upto(s, s.len() as int, acc, out)
}

/// A fold step that keeps the element and drops the accumulator; folding
/// with it unwraps a container of at most one element.
pub struct PickElem<A>(pub core::marker::PhantomData<A>);

impl<A> F2Once<A, A> for PickElem<A> {
    type Ret = A;

    /// Every pair of arguments is accepted.
    open spec fn pre2(&self, acc: A, x: A) -> bool {
        true
    }

    /// The element `x` is returned.
    open spec fn post2(&self, acc: A, x: A, r: A) -> bool {
        r == x
    }

    fn call1(self, acc: A, x: A) -> (r: A) {
        x
    }
}

impl<A> F2<A, A> for PickElem<A> {
    fn call(&self, acc: A, x: A) -> (r: A) {
        x
    }
}

/// A fold step that sends the element through `f` and appends the result to
/// the accumulator.
pub struct AppendMap<F> {
    /// The function applied to each element.
    pub f: F,
}

impl<F, A, B> F2Once<B, A> for AppendMap<F> where F: F1<A, Ret = B>, B: Semigroup {
    type Ret = B;

    /// `f` must accept the element, and the accumulator must accept
    /// whatever `f` may return.
    open spec fn pre2(&self, acc: B, a: A) -> bool {
        self.f.pre1(a) && forall|fa: B| #[trigger] self.f.post1(a, fa) ==> acc.append_req(fa)
    }

    /// The result combines the accumulator with some result of `f`.
    open spec fn post2(&self, acc: B, a: A, r: B) -> bool {
        exists|fa: B| #[trigger] self.f.post1(a, fa) && acc.is_append(fa, r)
    }

    fn call1(self, acc: B, a: A) -> (r: B) {
        let fa = self.f.call(a);
        acc.append(fa)
    }
}

impl<F, A, B> F2<B, A> for AppendMap<F> where F: F1<A, Ret = B>, B: Semigroup {
    fn call(&self, acc: B, a: A) -> (r: B) {
        let fa = self.f.call(a);
        acc.append(fa)
    }
}

/// A fold step that appends the element to the accumulator with a separator
/// in between; the boolean marks whether the accumulator is still untouched.
pub struct SepStep<A> {
    /// The separator inserted between adjacent elements.
    pub sep: A,
}

impl<A> F2Once<(bool, A), A> for SepStep<A> where A: Semigroup + Clone {
    type Ret = (bool, A);

    /// The accumulator must accept a duplicate of the separator, and what
    /// that yields must accept the element.
    open spec fn pre2(&self, acc: (bool, A), a: A) -> bool {
        acc.0 || (forall|sepc: A|
            #[trigger] vstd::pervasive::cloned::<A>(self.sep, sepc) ==> acc.1.append_req(sepc) && (
            forall|mid: A| #[trigger] acc.1.is_append(sepc, mid) ==> mid.append_req(a)))
    }

    /// The first element replaces the seed; later elements are appended
    /// after a duplicate of the separator.
    open spec fn post2(&self, acc: (bool, A), a: A, r: (bool, A)) -> bool {
        !r.0 && if acc.0 {
            r.1 == a
        } else {
            exists|sepc: A, mid: A|
                #![trigger acc.1.is_append(sepc, mid)]
                vstd::pervasive::cloned::<A>(self.sep, sepc) && acc.1.is_append(sepc, mid)
                    && mid.is_append(a, r.1)
        }
    }

    fn call1(self, acc: (bool, A), a: A) -> (r: (bool, A)) {
        if acc.0 {
            (false, a)
        } else {
            let sepc = self.sep.clone();
            proof {
                assert(vstd::pervasive::cloned::<A>(self.sep, sepc));
            }
            let mid = acc.1.append(sepc);
            let out = mid.append(a);
            proof {
                assert(acc.1.is_append(sepc, mid) && mid.is_append(a, out));
            }
            (false, out)
        }
    }
}

impl<A> F2<(bool, A), A> for SepStep<A> where A: Semigroup + Clone {
    fn call(&self, acc: (bool, A), a: A) -> (r: (bool, A)) {
        if acc.0 {
            (false, a)
        } else {
            let sepc = self.sep.clone();
            proof {
                assert(vstd::pervasive::cloned::<A>(self.sep, sepc));
            }
            let mid = acc.1.append(sepc);
            let out = mid.append(a);
            proof {
                assert(acc.1.is_append(sepc, mid) && mid.is_append(a, out));
            }
            (false, out)
        }
    }
}

/// A fold step that remembers whether any element so far satisfied the
/// predicate `f`.
pub struct AnyStep<F> {
    /// The predicate.
    pub f: F,
}

impl<'a, F, A> F2Once<bool, &'a A> for AnyStep<F> where F: F1<&'a A, Ret = bool> {
    type Ret = bool;

    /// The predicate must accept the element.
    open spec fn pre2(&self, pass: bool, cur: &'a A) -> bool {
        self.f.pre1(cur)
    }

    /// Once true, stays true; otherwise the predicate decides.
    open spec fn post2(&self, pass: bool, cur: &'a A, r: bool) -> bool {
        if pass {
            r
        } else {
            self.f.post1(cur, r)
        }
    }

    fn call1(self, pass: bool, cur: &'a A) -> (r: bool) {
        if !pass {
            self.f.call(cur)
        } else {
            true
        }
    }
}

impl<'a, F, A> F2<bool, &'a A> for AnyStep<F> where F: F1<&'a A, Ret = bool> {
    fn call(&self, pass: bool, cur: &'a A) -> (r: bool) {
        if !pass {
            self.f.call(cur)
        } else {
            true
        }
    }
}

/// A fold step that remembers whether every element so far satisfied the
/// predicate `f`.
pub struct AllStep<F> {
    /// The predicate.
    pub f: F,
}

impl<'a, F, A> F2Once<bool, &'a A> for AllStep<F> where F: F1<&'a A, Ret = bool> {
    type Ret = bool;

    /// The predicate must accept the element.
    open spec fn pre2(&self, pass: bool, cur: &'a A) -> bool {
        self.f.pre1(cur)
    }

    /// Once false, stays false; otherwise the predicate decides.
    open spec fn post2(&self, pass: bool, cur: &'a A, r: bool) -> bool {
        if pass {
            self.f.post1(cur, r)
        } else {
            !r
        }
    }

    fn call1(self, pass: bool, cur: &'a A) -> (r: bool) {
        if pass && self.f.call(cur) {
            true
        } else {
            false
        }
    }
}

impl<'a, F, A> F2<bool, &'a A> for AllStep<F> where F: F1<&'a A, Ret = bool> {
    fn call(&self, pass: bool, cur: &'a A) -> (r: bool) {
        if pass && self.f.call(cur) {
            true
        } else {
            false
        }
    }
}

/// A fold step that counts elements, saturating at the machine limit.
pub struct CountStep<A>(pub core::marker::PhantomData<A>);

impl<'a, A> F2Once<usize, &'a A> for CountStep<A> {
    type Ret = usize;

    /// Every pair of arguments is accepted.
    open spec fn pre2(&self, n: usize, cur: &'a A) -> bool {
        true
    }

    /// The count grows by one until the machine limit.
    open spec fn post2(&self, n: usize, cur: &'a A, r: usize) -> bool {
        if n < usize::MAX {
            r == n + 1
        } else {
            r == n
        }
    }

    fn call1(self, n: usize, cur: &'a A) -> (r: usize) {
        if n < usize::MAX {
            n + 1
        } else {
            n
        }
    }
}

impl<'a, A> F2<usize, &'a A> for CountStep<A> {
    fn call(&self, n: usize, cur: &'a A) -> (r: usize) {
        if n < usize::MAX {
            n + 1
        } else {
            n
        }
    }
}

/// A fold step that keeps the first value that `f` produces.
pub struct FirstMap<F> {
    /// The partial function applied to each element.
    pub f: F,
}

impl<F, A, B> F2Once<Option<B>, A> for FirstMap<F> where F: F1<A, Ret = Option<B>> {
    type Ret = Option<B>;

    /// `f` must accept the element.
    open spec fn pre2(&self, found: Option<B>, a: A) -> bool {
        self.f.pre1(a)
    }

    /// A value already found is kept; otherwise `f` decides.
    open spec fn post2(&self, found: Option<B>, a: A, r: Option<B>) -> bool {
        match found {
            Some(b) => r == Some(b),
            None => self.f.post1(a, r),
        }
    }

    fn call1(self, found: Option<B>, a: A) -> (r: Option<B>) {
        match found {
            Some(b) => Some(b),
            None => self.f.call(a),
        }
    }
}

impl<F, A, B> F2<Option<B>, A> for FirstMap<F> where F: F1<A, Ret = Option<B>> {
    fn call(&self, found: Option<B>, a: A) -> (r: Option<B>) {
        match found {
            Some(b) => Some(b),
            None => self.f.call(a),
        }
    }
}

/// A callable that keeps its argument when the predicate `f` accepts it.
pub struct KeepIf<F> {
    /// The predicate.
    pub f: F,
}

impl<F, A> F1Once<A> for KeepIf<F> where F: for<'x> F1<&'x A, Ret = bool> {
    type Ret = Option<A>;

    /// The predicate must accept a reference to the argument.
    open spec fn pre1(&self, a: A) -> bool {
        self.f.pre1(&a)
    }

    /// The argument is kept exactly when the predicate holds of it.
    open spec fn post1(&self, a: A, r: Option<A>) -> bool {
        exists|keep: bool|
            self.f.post1(&a, keep) && r == if keep {
                Some(a)
            } else {
                None::<A>
            }
    }

    fn call1(self, a: A) -> (r: Option<A>) {
        let keep = self.f.call(&a);
        if keep {
            Some(a)
        } else {
            None
        }
    }
}

impl<F, A> F1<A> for KeepIf<F> where F: for<'x> F1<&'x A, Ret = bool> {
    fn call(&self, a: A) -> (r: Option<A>) {
        let keep = self.f.call(&a);
        if keep {
            Some(a)
        } else {
            None
        }
    }
}

/// Folding with [`AppendMap`] draws a Monoid-collapse graph of the mapped
/// elements; when the map is lossless this specializes the fold graph.
proof fn lemma_append_chain_to_monoid<A: Semigroup>(
    s: Seq<A>,
    i: int,
    rel: spec_fn(A, A, A) -> bool,
    b: A,
    out: A,
)
    requires
        foldl_upto(s, i, rel, b, out),
        forall|x: A, a: A, o: A| #[trigger] rel(x, a, o) ==> x.is_append(a, o),
    ensures
        monoid_fold_upto(s, i, b, out),
    decreases i,
{
    if i > 0 {
        let mid = choose|mid: A| foldl_upto(s, i - 1, rel, b, mid) && #[trigger] rel(mid, s[i - 1], out);
        lemma_append_chain_to_monoid(s, i - 1, rel, b, mid);
        assert(mid.is_append(s[i - 1], out));
    }
}

/// A Monoid collapse that may run may also run as a fold with the
/// identity-mapping append step.
proof fn lemma_monoid_ok_to_foldl_ok<A: Semigroup>(s: Seq<A>, step: AppendMap<crate::fun::IdFn<A>>, acc: A)
    requires
        monoid_fold_ok(s, acc),
    ensures
        foldl_ok(s, step, acc),
    decreases s.len(),
{
    if s.len() > 0 {
        assert(step.pre2(acc, s[0]));
        assert forall|o: A| #[trigger] step.post2(acc, s[0], o) implies foldl_ok(
            s.drop_first(),
            step,
            o,
        ) by {
            let fa = choose|fa: A| #[trigger] step.f.post1(s[0], fa) && acc.is_append(fa, o);
            assert(acc.is_append(s[0], o));
            lemma_monoid_ok_to_foldl_ok(s.drop_first(), step, o);
        }
    }
}

/// What a chain of saturating counting steps counts: the number of elements
/// seen, capped at the machine limit.
proof fn lemma_count_chain<A>(s: Seq<A>, i: int, rel: spec_fn(usize, A, usize) -> bool, z: usize, out: usize)
    requires
        0 <= i,
        foldl_upto(s, i, rel, z, out),
        forall|x: usize, a: A, o: usize|
            #[trigger] rel(x, a, o) ==> o == if x < usize::MAX {
                (x + 1) as usize
            } else {
                x
            },
    ensures
        out == if z + i <= usize::MAX {
            (z + i) as int
        } else {
            usize::MAX as int
        },
    decreases i,
{
    if i > 0 {
        let mid = choose|mid: usize| foldl_upto(s, i - 1, rel, z, mid) && #[trigger] rel(mid, s[i - 1], out);
        lemma_count_chain(s, i - 1, rel, z, mid);
    }
}

/// What a chain of [`AnyStep`] steps computes: a true result names an
/// element the predicate may accept; a false result means the predicate
/// rejected every element.
proof fn lemma_any_chain<A>(
    s: Seq<A>,
    i: int,
    rel: spec_fn(bool, A, bool) -> bool,
    fpost: spec_fn(A, bool) -> bool,
    out: bool,
)
    requires
        0 <= i,
        foldl_upto(s, i, rel, false, out),
        forall|x: bool, a: A, o: bool|
            #[trigger] rel(x, a, o) ==> if x {
                o
            } else {
                fpost(a, o)
            },
    ensures
        out ==> exists|j: int| 0 <= j < i && #[trigger] fpost(s[j], true),
        !out ==> forall|j: int| #![trigger s[j]] 0 <= j < i ==> fpost(s[j], false),
    decreases i,
{
    if i > 0 {
        let mid = choose|mid: bool| foldl_upto(s, i - 1, rel, false, mid) && #[trigger] rel(mid, s[i - 1], out);
        lemma_any_chain(s, i - 1, rel, fpost, mid);
        if mid {
            let j = choose|j: int| 0 <= j < i - 1 && #[trigger] fpost(s[j], true);
            assert(fpost(s[j], true));
        } else {
            if out {
                assert(fpost(s[i - 1], true));
            }
        }
    }
}

/// What a chain of [`AllStep`] steps computes: a true result means the
/// predicate accepted every element; a false result names an element it may
/// reject.
proof fn lemma_all_chain<A>(
    s: Seq<A>,
    i: int,
    rel: spec_fn(bool, A, bool) -> bool,
    fpost: spec_fn(A, bool) -> bool,
    out: bool,
)
    requires
        0 <= i,
        foldl_upto(s, i, rel, true, out),
        forall|x: bool, a: A, o: bool|
            #[trigger] rel(x, a, o) ==> if x {
                fpost(a, o)
            } else {
                !o
            },
    ensures
        out ==> forall|j: int| #![trigger s[j]] 0 <= j < i ==> fpost(s[j], true),
        !out ==> exists|j: int| 0 <= j < i && #[trigger] fpost(s[j], false),
    decreases i,
{
    if i > 0 {
        let mid = choose|mid: bool| foldl_upto(s, i - 1, rel, true, mid) && #[trigger] rel(mid, s[i - 1], out);
        lemma_all_chain(s, i - 1, rel, fpost, mid);
        if mid {
            if !out {
                assert(fpost(s[i - 1], false));
            }
        } else {
            let j = choose|j: int| 0 <= j < i - 1 && #[trigger] fpost(s[j], false);
            assert(fpost(s[j], false));
        }
    }
}

/// [`Foldable`], but specialized to know at compile time that the reducing
/// function will only be called one time: for containers of at most one
/// element, exposed by `view_elem`.
pub trait FoldableOnce<M, A> where M: HKT1<A, T = Self>, Self: Sized {
    /// The at-most-one element this container holds.
    spec fn view_elem(self) -> Option<A>;

    /// Fold the container's element (if any) into the seed `b`.
    fn fold1<B, BAB>(self, f: BAB, b: B) -> (r: B)
        where
            BAB: F2Once<B, A, Ret = B>,
        requires
            (match self.view_elem() {
                Some(a) => f.pre2(b, a),
                None => true,
            }),
        ensures
            (match self.view_elem() {
                Some(a) => f.post2(b, a, r),
                None => r == b,
            }),
    ;

    /// Fold a reference to the container's element (if any) into the seed
    /// `b`.
    fn fold1_ref<'a, B, BAB>(&'a self, f: BAB, b: B) -> (r: B)
        where
            BAB: F2Once<B, &'a A, Ret = B>,
            A: 'a,
        requires
            (match (*self).view_elem() {
                Some(a) => f.pre2(b, &a),
                None => true,
            }),
        ensures
            (match (*self).view_elem() {
                Some(a) => f.post2(b, &a, r),
                None => r == b,
            }),
    ;

    /// Unwrap the container, returning the contained element if there is
    /// one and the provided default value otherwise.
    fn get_or(self, a: A) -> (r: A)
        default_ensures
            r == (match self.view_elem() {
                Some(x) => x,
                None => a,
            }),
    {
        self.fold1(PickElem(core::marker::PhantomData::<A>), a)
    }

    /// Unwrap the container, using the type's default value if it is empty.
    fn get_or_default(self) -> (r: A)
        where
            A: Default,
        default_ensures
            (self.view_elem() matches Some(x) ==> r == x),
    {
        let fallback = Default::default();
        self.fold1(PickElem(core::marker::PhantomData::<A>), fallback)
    }
}

/// [`FoldableOnce`] for indexed containers.
pub trait FoldableOnceIndexed<M, Idx, A>: FoldableOnce<M, A> where M: HKT1<A, T = Self> {
    /// Fold the container's element together with its index.
    fn fold1_idx<B, BAB>(self, f: BAB, b: B) -> B
        where
            BAB: F3Once<B, Idx, A, Ret = B>,
        requires
            forall|acc: B, i: Idx, a: A| #[trigger] f.pre3(acc, i, a),
    ;
}

/// Foldable containers can be collapsed to a single summary value: starting
/// from a seed of type `B`, a step function accumulates every element of
/// the container — the sequence `view_elems` — into the seed.
pub trait Foldable<M, A> where M: HKT1<A, T = Self>, Self: Sized {
    /// The elements this container holds, in the order the folds visit
    /// them.
    spec fn view_elems(self) -> Seq<A>;

    /// Fold the container from left to right.
    fn foldl<B, BAB>(self, f: BAB, b: B) -> (r: B)
        where
            BAB: F2<B, A, Ret = B>,
        requires
            foldl_ok(self.view_elems(), f, b),
        ensures
            foldl_graph(self.view_elems(), foldl_fn_rel(f), b, r),
    ;

    /// Fold the container from right to left.
    fn foldr<B, ABB>(self, f: ABB, b: B) -> (r: B)
        where
            ABB: F2<A, B, Ret = B>,
        requires
            foldr_ok(self.view_elems(), f, b),
        ensures
            foldr_graph(self.view_elems(), foldr_fn_rel(f), b, r),
    ;

    /// Fold references to the elements from left to right.
    fn foldl_ref<'a, B, BAB>(&'a self, f: BAB, b: B) -> (r: B)
        where
            BAB: F2<B, &'a A, Ret = B>,
            A: 'a,
        requires
            foldl_ref_ok((*self).view_elems(), f, b),
        ensures
            foldl_graph((*self).view_elems(), foldl_ref_fn_rel(f), b, r),
    ;

    /// Fold references to the elements from right to left.
    fn foldr_ref<'a, B, ABB>(&'a self, f: ABB, b: B) -> (r: B)
        where
            ABB: F2<&'a A, B, Ret = B>,
            A: 'a,
        requires
            foldr_ref_ok((*self).view_elems(), f, b),
        ensures
            foldr_graph((*self).view_elems(), foldr_ref_fn_rel(f), b, r),
    ;

    /// Fold the container, sending each element through `f` and
    /// accumulating the results into a [`Monoid`], starting from its
    /// identity.
    fn fold_map<AB, B>(self, f: AB) -> (r: B)
        where
            AB: F1<A, Ret = B>,
            B: Monoid,
        requires
            forall|e: B|
                #[trigger] B::is_identity(e) ==> foldl_ok(self.view_elems(), (AppendMap { f }), e),
        default_ensures
            (exists|e: B|
                #[trigger] B::is_identity(e) && foldl_graph(
                    self.view_elems(),
                    foldl_fn_rel((AppendMap { f })),
                    e,
                    r,
                )),
    {
        let seed = B::identity();
        self.foldl(AppendMap { f }, seed)
    }

    /// Collapse the elements into their [`Monoid`], combining them left to
    /// right starting from the identity; an empty container yields the
    /// identity.
    fn fold(self) -> (r: A)
        where
            A: Monoid,
        requires
            forall|e: A| #[trigger] A::is_identity(e) ==> monoid_fold_ok(self.view_elems(), e),
        default_ensures
            (exists|e: A|
                #[trigger] A::is_identity(e) && monoid_fold_graph(self.view_elems(), e, r)),
    {
        let seed = A::identity();
        let step = AppendMap { f: crate::fun::IdFn::<A>(core::marker::PhantomData) };
        proof {
            lemma_monoid_ok_to_foldl_ok(self.view_elems(), step, seed);
        }
        let out = self.foldl(step, seed);
        proof {
            let rel = foldl_fn_rel::<A, A, AppendMap<crate::fun::IdFn<A>>>(step);
            assert forall|x: A, a: A, o: A| #[trigger] rel(x, a, o) implies x.is_append(a, o) by {
                let fa = choose|fa: A| #[trigger] step.f.post1(a, fa) && x.is_append(fa, o);
            }
            lemma_append_chain_to_monoid(
                self.view_elems(),
                self.view_elems().len() as int,
                rel,
                seed,
                out,
            );
        }
        out
    }

    /// [`Foldable::fold`] with a duplicate of a separator appended between
    /// adjacent elements: the first element replaces the identity seed, and
    /// every later element arrives after one separator.
    fn intercalate(self, sep: A) -> (r: A)
        where
            A: Monoid + Clone,
        requires
            forall|e: A|
                #[trigger] A::is_identity(e) ==> foldl_ok(
                    self.view_elems(),
                    (SepStep { sep }),
                    (true, e),
                ),
        default_ensures
            (exists|e: A, folded: (bool, A)|
                #![trigger A::is_identity(e), foldl_graph(self.view_elems(), foldl_fn_rel((SepStep { sep })), (true, e), folded)]
                A::is_identity(e) && foldl_graph(
                    self.view_elems(),
                    foldl_fn_rel((SepStep { sep })),
                    (true, e),
                    folded,
                ) && r == folded.1),
    {
        let seed = A::identity();
        let folded = self.foldl(SepStep { sep }, (true, seed));
        folded.1
    }

    /// Test whether any element satisfies the predicate `f`: a true result
    /// names an element the predicate may accept; a false result means the
    /// predicate rejected every element.  An empty container yields false.
    fn any<'a, P>(&'a self, f: P) -> (r: bool)
        where
            P: F1<&'a A, Ret = bool>,
            A: 'a,
        requires
            forall|a: &'a A| #[trigger] f.pre1(a),
        default_ensures
            (r ==> exists|j: int|
                0 <= j < (*self).view_elems().len() && f.post1(
                    &(#[trigger] (*self).view_elems()[j]),
                    true,
                )),
            (!r ==> forall|j: int|
                #![trigger (*self).view_elems()[j]]
                0 <= j < (*self).view_elems().len() ==> f.post1(&(*self).view_elems()[j], false)),
    {
        let step = AnyStep { f };
        proof {
            lemma_foldl_ref_ok_total((*self).view_elems(), step, false);
        }
        let out = self.foldl_ref(step, false);
        proof {
            let rel = foldl_ref_fn_rel::<A, bool, AnyStep<P>>(step);
            let fpost = |a: A, o: bool| step.f.post1(&a, o);
            assert forall|x: bool, a: A, o: bool| #[trigger] rel(x, a, o) implies if x {
                o
            } else {
                fpost(a, o)
            } by {}
            lemma_any_chain(
                (*self).view_elems(),
                (*self).view_elems().len() as int,
                rel,
                fpost,
                out,
            );
        }
        out
    }

    /// Test whether every element satisfies the predicate `f`: a true
    /// result means the predicate accepted every element; a false result
    /// names an element it may reject.  An empty container yields true.
    fn all<'a, P>(&'a self, f: P) -> (r: bool)
        where
            P: F1<&'a A, Ret = bool>,
            A: 'a,
        requires
            forall|a: &'a A| #[trigger] f.pre1(a),
        default_ensures
            (r ==> forall|j: int|
                #![trigger (*self).view_elems()[j]]
                0 <= j < (*self).view_elems().len() ==> f.post1(&(*self).view_elems()[j], true)),
            (!r ==> exists|j: int|
                0 <= j < (*self).view_elems().len() && f.post1(
                    &(#[trigger] (*self).view_elems()[j]),
                    false,
                )),
    {
        let step = AllStep { f };
        proof {
            lemma_foldl_ref_ok_total((*self).view_elems(), step, true);
        }
        let out = self.foldl_ref(step, true);
        proof {
            let rel = foldl_ref_fn_rel::<A, bool, AllStep<P>>(step);
            let fpost = |a: A, o: bool| step.f.post1(&a, o);
            assert forall|x: bool, a: A, o: bool| #[trigger] rel(x, a, o) implies if x {
                fpost(a, o)
            } else {
                !o
            } by {}
            lemma_all_chain(
                (*self).view_elems(),
                (*self).view_elems().len() as int,
                rel,
                fpost,
                out,
            );
        }
        out
    }

    /// The number of elements contained in the container, saturating at the
    /// machine limit.
    fn length(&self) -> (r: usize)
        default_ensures
            r == if (*self).view_elems().len() <= usize::MAX {
                (*self).view_elems().len() as int
            } else {
                usize::MAX as int
            },
    {
        let step = CountStep(core::marker::PhantomData::<A>);
        proof {
            lemma_foldl_ref_ok_total((*self).view_elems(), step, 0usize);
        }
        let out = self.foldl_ref(step, 0usize);
        proof {
            let rel = foldl_ref_fn_rel::<A, usize, CountStep<A>>(step);
            lemma_count_chain((*self).view_elems(), (*self).view_elems().len() as int, rel, 0, out);
        }
        out
    }

    /// Test whether the container is empty.
    fn is_empty(&self) -> (r: bool)
        default_ensures
            r == ((*self).view_elems().len() == 0),
    {
        let step = CountStep(core::marker::PhantomData::<A>);
        proof {
            lemma_foldl_ref_ok_total((*self).view_elems(), step, 0usize);
        }
        let n = self.foldl_ref(step, 0usize);
        proof {
            let rel = foldl_ref_fn_rel::<A, usize, CountStep<A>>(step);
            lemma_count_chain((*self).view_elems(), (*self).view_elems().len() as int, rel, 0, n);
        }
        n == 0
    }

    /// Send elements through `f`, keeping the first value it produces.
    fn find_map<AB, B>(self, f: AB) -> (r: Option<B>)
        where
            AB: F1<A, Ret = Option<B>>,
        requires
            forall|a: A| #[trigger] f.pre1(a),
        default_ensures
            foldl_graph(
                self.view_elems(),
                foldl_fn_rel((FirstMap { f })),
                Option::<B>::None,
                r,
            ),
    {
        let step = FirstMap { f };
        proof {
            lemma_foldl_ok_total(self.view_elems(), step, Option::<B>::None);
        }
        self.foldl(step, None)
    }

    /// Fold elements, keeping the first one that satisfies the predicate.
    fn find<P>(self, f: P) -> (r: Option<A>)
        where
            P: for<'x> F1<&'x A, Ret = bool>,
        requires
            forall|a: &A| #[trigger] f.pre1(a),
        default_ensures
            foldl_graph(
                self.view_elems(),
                foldl_fn_rel((FirstMap { f: (KeepIf { f }) })),
                Option::<A>::None,
                r,
            ),
    {
        let step = FirstMap { f: KeepIf { f } };
        proof {
            lemma_foldl_ok_total(self.view_elems(), step, Option::<A>::None);
        }
        self.foldl(step, None)
    }
}

/// [`Foldable`] for indexed containers: the step function also receives each
/// element's index.
pub trait FoldableIndexed<M, Idx, A>: Foldable<M, A> where
    M: HKT1<A, T = Self>,
    Idx: Clone,
 {
    /// Fold the container from left to right, with indexes.
    fn foldl_idx<B, BAB>(self, f: BAB, b: B) -> B
        where
            BAB: F3<B, Idx, A, Ret = B>,
        requires
            forall|acc: B, i: Idx, a: A| #[trigger] f.pre3(acc, i, a),
    ;

    /// Fold the container from right to left, with indexes.
    fn foldr_idx<B, ABB>(self, f: ABB, b: B) -> B
        where
            ABB: F3<Idx, A, B, Ret = B>,
        requires
            forall|i: Idx, a: A, acc: B| #[trigger] f.pre3(i, a, acc),
    ;

    /// Fold references to the elements from left to right, with indexes.
    fn foldl_idx_ref<'a, B, BAB>(&'a self, f: BAB, b: B) -> B
        where
            BAB: F3<B, Idx, &'a A, Ret = B>,
            A: 'a,
        requires
            forall|acc: B, i: Idx, a: &'a A| #[trigger] f.pre3(acc, i, a),
    ;

    /// Fold references to the elements from right to left, with indexes.
    fn foldr_idx_ref<'a, B, ABB>(&'a self, f: ABB, b: B) -> B
        where
            ABB: F3<Idx, &'a A, B, Ret = B>,
            A: 'a,
        requires
            forall|i: Idx, a: &'a A, acc: B| #[trigger] f.pre3(i, a, acc),
    ;
}

} // verus!
