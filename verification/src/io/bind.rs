//! The dependent-sequencing node of a lazy computation chain: a stored
//! function from `A` to a further computation, applied to the result of a
//! predecessor; the computation it returns is executed in turn.
use vstd::prelude::*;

use crate::fun::F1Once;
use crate::io::IOLike;

verus! {

/// A function from `A` to a lazy computation of `B`, waiting to be applied
/// to the result of a predecessor computation of `A`.
///
/// This is the result of calling
/// [`MonadSurrogate::bind_`](crate::io::MonadSurrogate::bind_).
pub struct Bind<F, A, B, IOA> {
    /// The stored continuation.
    pub f: F,
    /// The predecessor computation.
    pub io: IOA,
    /// The input and output element types.
    pub ph: core::marker::PhantomData<(A, B)>,
}

impl<F, A, B, IOA> Bind<F, A, B, IOA> {
    /// Pack a continuation and its predecessor into a bind node.
    pub fn new(f: F, io: IOA) -> (r: Self)
        ensures
            r.f == f && r.io == io,
    {
        Bind { f, io, ph: core::marker::PhantomData::<(A, B)> }
    }
}

impl<F, A, B, IOA> IOLike<B> for Bind<F, A, B, IOA> where
    F: F1Once<A>,
    F::Ret: IOLike<B>,
    IOA: IOLike<A>,
 {
    /// The predecessor must be executable, the continuation must accept
    /// whatever it may return, and every computation the continuation may
    /// return must be executable in turn.
    open spec fn io_pre(&self) -> bool {
        self.io.io_pre() && (forall|a: A| self.io.io_post(a) ==> #[trigger] self.f.pre1(a))
            && (forall|a: A, m: F::Ret|
            self.io.io_post(a) && #[trigger] self.f.post1(a, m) ==> m.io_pre())
    }

    /// The result comes from executing the computation that the stored
    /// continuation made of some result of the predecessor.
    open spec fn io_post(&self, b: B) -> bool {
        exists|a: A, m: F::Ret|
            self.io.io_post(a) && #[trigger] self.f.post1(a, m) && m.io_post(b)
    }

    fn exec(self) -> (b: B) {
        let a = self.io.exec();
        let m = self.f.call1(a);
        m.exec()
    }
}

} // verus!
