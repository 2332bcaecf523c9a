//! The transformation node of a lazy computation chain: a stored function
//! from `X` to `A` waiting to be applied to the result of a predecessor.
use vstd::prelude::*;

use crate::fun::F1Once;
use crate::io::IOLike;

verus! {

/// A function from `X` to `A` waiting to be applied to a lazy value,
/// transforming a computation of `X` into a computation of `A`.
///
/// This is the result of calling
/// [`FunctorSurrogate::map_`](crate::io::FunctorSurrogate::map_).
pub struct Mapped<F, X, A, IOX> {
    /// The stored transformation.
    pub f: F,
    /// The predecessor computation.
    pub io: IOX,
    /// The input and output element types.
    pub ph: core::marker::PhantomData<(X, A)>,
}

impl<F, X, A, IOX> Mapped<F, X, A, IOX> {
    /// Pack a transformation and its predecessor into a map node.
    pub fn new(f: F, io: IOX) -> (r: Self)
        ensures
            r.f == f && r.io == io,
    {
        Mapped { f, io, ph: core::marker::PhantomData::<(X, A)> }
    }
}

impl<F, X, A, IOX> IOLike<A> for Mapped<F, X, A, IOX> where
    F: F1Once<X, Ret = A>,
    IOX: IOLike<X>,
 {
    /// The predecessor must be executable, and the stored function must
    /// accept whatever it may return.
    open spec fn io_pre(&self) -> bool {
        self.io.io_pre() && forall|x: X| self.io.io_post(x) ==> #[trigger] self.f.pre1(x)
    }

    /// The result comes from the stored function applied to some result of
    /// the predecessor.
    open spec fn io_post(&self, a: A) -> bool {
        exists|x: X| #[trigger] self.io.io_post(x) && self.f.post1(x, a)
    }

    fn exec(self) -> (a: A) {
        let x = self.io.exec();
        self.f.call1(x)
    }
}

} // verus!
