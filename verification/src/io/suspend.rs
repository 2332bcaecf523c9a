//! The suspended leaf of a lazy computation chain: a stored thunk, invoked
//! exactly once when the chain is executed.
use vstd::prelude::*;

use crate::fun::F1Once;
use crate::io::IOLike;

verus! {

/// A deferred computation: holds the thunk, performs nothing until
/// executed.
pub struct Suspend<F> {
    /// The stored zero-argument computation.
    pub f: F,
}

impl<F, A> IOLike<A> for Suspend<F> where F: F1Once<(), Ret = A> {
    /// The thunk must be invocable.
    open spec fn io_pre(&self) -> bool {
        self.f.pre1(())
    }

    /// Executing returns whatever the thunk may return.
    open spec fn io_post(&self, a: A) -> bool {
        self.f.post1((), a)
    }

    fn exec(self) -> (a: A) {
        self.f.call1(())
    }
}

} // verus!
