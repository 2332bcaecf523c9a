//! The independent-combination node of a lazy computation chain: a lazy
//! function and a lazy argument, combined when executed (function first).
use vstd::prelude::*;

use crate::fun::F1Once;
use crate::io::IOLike;

verus! {

/// A lazy computation that, when executed, executes a computation of a
/// function `A -> B`, then a computation of an `A`, then applies the one to
/// the other.
///
/// This is the result of calling
/// [`ApplySurrogate::apply_`](crate::io::ApplySurrogate::apply_).
pub struct Apply<A, B, AB, IOA, IOAB> {
    /// The computation producing the function.
    pub iof: IOAB,
    /// The computation producing the argument.
    pub ioa: IOA,
    /// The element types and the function type.
    pub ph: core::marker::PhantomData<(A, B, AB)>,
}

impl<A, B, AB, IOA, IOAB> Apply<A, B, AB, IOA, IOAB> {
    /// Pack a lazy function and a lazy argument into an apply node.
    pub fn new(iof: IOAB, ioa: IOA) -> (r: Self)
        ensures
            r.iof == iof && r.ioa == ioa,
    {
        Apply { iof, ioa, ph: core::marker::PhantomData::<(A, B, AB)> }
    }
}

impl<A, B, AB, IOA, IOAB> IOLike<B> for Apply<A, B, AB, IOA, IOAB> where
    AB: F1Once<A, Ret = B>,
    IOA: IOLike<A>,
    IOAB: IOLike<AB>,
 {
    /// Both predecessors must be executable, and every function the first
    /// may produce must accept every argument the second may produce.
    open spec fn io_pre(&self) -> bool {
        self.iof.io_pre() && self.ioa.io_pre() && forall|g: AB, a: A|
            self.iof.io_post(g) && self.ioa.io_post(a) ==> #[trigger] g.pre1(a)
    }

    /// The result comes from some function the first predecessor may
    /// produce, applied to some argument the second may produce.
    open spec fn io_post(&self, b: B) -> bool {
        exists|g: AB, a: A|
            self.iof.io_post(g) && self.ioa.io_post(a) && #[trigger] g.post1(a, b)
    }

    fn exec(self) -> (b: B) {
        let g = self.iof.exec();
        let a = self.ioa.exec();
        g.call1(a)
    }
}

} // verus!
