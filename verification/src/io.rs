//! The lazy computation engine: a deferred, composable unit of work built
//! from plain nested values.  Creation (`suspend`/`pure`), transformation
//! (`map_`), dependent sequencing (`bind_`) and independent combination
//! (`apply_`) each produce a new structural value; nothing executes until
//! the one terminal operation, [`IOLike::exec`], collapses the chain, once,
//! in the order the nodes were composed.
use vstd::prelude::*;

use crate::fun::F1Once;
use crate::io::apply::Apply;
use crate::io::bind::Bind;
use crate::io::map::Mapped;
use crate::io::suspend::Suspend;
use crate::HKT1;

pub mod apply;
pub mod bind;
pub mod map;
pub mod suspend;

verus! {

/// The lazy computation type lifted to a type-constructor marker.
pub struct IOHkt;

impl<A> HKT1<A> for IOHkt {
    type T = IO<A>;
}

/// A lazy computation: a value equivalent to a computation that yields an
/// `A` when executed.
///
/// `io_pre` says when the whole chain may be executed; `io_post` says which
/// results executing it may produce.  Each node kind states both in terms
/// of its predecessors, so the contract of `exec` composes structurally.
pub trait IOLike<A>: Sized {
    /// When this computation may be executed.
    spec fn io_pre(&self) -> bool;

    /// What executing this computation may return.
    spec fn io_post(&self, a: A) -> bool;

    /// Execute this lazy computation.  Consumes the value: a chain can be
    /// executed at most once.
    fn exec(self) -> (a: A)
        requires
            self.io_pre(),
        ensures
            self.io_post(a),
    ;
}

/// The relaxed counterpart of a functor for lazy values: mapping does not
/// return the canonical container, but a [`Mapped`] node that stores the
/// function and defers applying it.
pub trait FunctorSurrogate<A>: Sized {
    /// Store `f` to be applied to the result of `self` when executed.
    fn map_<B, AB>(self, f: AB) -> (r: Mapped<AB, A, B, Self>)
        where
            AB: F1Once<A, Ret = B>,
        ensures
            r.f == f && r.io == self,
    ;
}

impl<A, I> FunctorSurrogate<A> for I where I: IOLike<A> {
    fn map_<B, AB>(self, f: AB) -> (r: Mapped<AB, A, B, Self>)
        where
            AB: F1Once<A, Ret = B>,
    {
        Mapped { f, io: self, ph: core::marker::PhantomData::<(A, B)> }
    }
}

/// The relaxed counterpart of apply for lazy values: combination does not
/// compute, but returns an [`Apply`] node that stores both computations.
pub trait ApplySurrogate<AB, TofA>: Sized {
    /// Store the lifted argument `a` beside this lifted function, to be
    /// combined when executed (function first).
    fn apply_<A, B>(self, a: TofA) -> (r: Apply<A, B, AB, TofA, Self>)
        where
            AB: F1Once<A, Ret = B>,
        ensures
            r.iof == self && r.ioa == a,
    ;
}

impl<AB, TofA, I> ApplySurrogate<AB, TofA> for I where I: IOLike<AB> {
    fn apply_<A, B>(self, a: TofA) -> (r: Apply<A, B, AB, TofA, Self>)
        where
            AB: F1Once<A, Ret = B>,
    {
        Apply { iof: self, ioa: a, ph: core::marker::PhantomData::<(A, B, AB)> }
    }
}

/// The relaxed counterpart of an applicative for lazy values.
pub trait ApplicativeSurrogate<A>: Sized {
    /// Lift an eager value to the canonical lazy computation.
    fn pure(a: A) -> (r: IO<A>)
        ensures
            r == IO(a),
    ;
}

impl<A, I> ApplicativeSurrogate<A> for I where I: IOLike<A> {
    fn pure(a: A) -> (r: IO<A>) {
        IO(a)
    }
}

/// The relaxed counterpart of a monad for lazy values: sequencing does not
/// run anything, but returns a [`Bind`] node that stores the continuation.
pub trait MonadSurrogate<A>: Sized {
    /// Store `f` to be applied to the result of `self` when executed; the
    /// computation `f` returns is then executed in turn.
    fn bind_<B, AMB>(self, f: AMB) -> (r: Bind<AMB, A, B, Self>)
        where
            AMB: F1Once<A>,
            AMB::Ret: IOLike<B>,
        ensures
            r.f == f && r.io == self,
    ;
}

impl<A, I> MonadSurrogate<A> for I where I: IOLike<A> {
    fn bind_<B, AMB>(self, f: AMB) -> (r: Bind<AMB, A, B, Self>)
        where
            AMB: F1Once<A>,
            AMB::Ret: IOLike<B>,
    {
        Bind { f, io: self, ph: core::marker::PhantomData::<(A, B)> }
    }
}

/// The terminal/leaf lazy computation: a value already computed.
pub struct IO<T>(pub T);

impl<T> IO<T> {
    /// Lift an eager value of type `T` to `IO<T>`.
    pub fn pure(t: T) -> (r: Self)
        ensures
            r == IO(t),
    {
        IO(t)
    }

    /// Store a zero-argument computation to be invoked on execution.
    pub fn suspend<F>(f: F) -> (r: Suspend<F>)
        where
            F: F1Once<(), Ret = T>,
        ensures
            r.f == f,
    {
        Suspend { f }
    }
}

impl<A> IOLike<A> for IO<A> {
    /// An already-computed value may always be executed.
    open spec fn io_pre(&self) -> bool {
        true
    }

    /// Executing returns the stored value.
    open spec fn io_post(&self, a: A) -> bool {
        a == self.0
    }

    fn exec(self) -> (a: A) {
        self.0
    }
}

} // verus!
