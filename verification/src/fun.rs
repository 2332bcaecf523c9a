//! Callable abstraction: traits for functions of arity 1, 2 and 3, each in a
//! consume-on-call form (`F1Once`, `F2Once`, `F3Once`) and a repeatable form
//! (`F1`, `F2`, `F3`), together with currying and composition.
//!
//! Every callable carries a precondition and a postcondition as spec
//! methods (`pre1`/`post1` and friends); for ordinary closures these are the
//! closure's own `call_requires`/`call_ensures`.
use vstd::prelude::*;

pub mod compose;
pub mod curry2;
pub mod curry3;

verus! {

/// Create a pair from two values.
pub fn tuple2<A, B>(a: A, b: B) -> (r: (A, B))
    ensures
        r == (a, b),
{
    (a, b)
}

/// Create a triple from three values.
pub fn tuple3<A, B, C>(a: A, b: B, c: C) -> (r: (A, B, C))
    ensures
        r == (a, b, c),
{
    (a, b, c)
}

/// Lift a function expecting a borrowed view (for instance a slice) to one
/// taking an owned value that dereferences to that view, by inserting the
/// borrow step.
pub fn call_deref<F, A, ADeref: ?Sized, B>(f: F, a: A) -> (r: B)
    where
        A: core::ops::Deref<Target = ADeref>,
        F: for<'x> F1Once<&'x ADeref, Ret = B>,
    requires
        forall|x: &ADeref| #[trigger] f.pre1(x),
    ensures
        exists|x: &ADeref| #[trigger] f.post1(x, r),
{
    let borrowed = &*a;
    f.call1(borrowed)
}

/// A type-level argument slot of a curried function: either already
/// [supplied](Just) or still [pending](Nothing).
pub trait Arg {
    /// The type of the argument held in (or awaited by) this slot.
    type T;
}

/// Type-level marker indicating that the curried function has been applied
/// with this argument; it stores the argument.
pub struct Just<T>(pub T);

/// Type-level marker indicating that the curried function has **not** been
/// applied with this argument.
pub struct Nothing<T>(pub core::marker::PhantomData<T>);

impl<T> Nothing<T> {
    /// Create a Nothing.
    pub fn new() -> (r: Self) {
        Nothing(core::marker::PhantomData)
    }
}

impl<T> Arg for Just<T> {
    type T = T;
}

impl<T> Arg for Nothing<T> {
    type T = T;
}

/// The identity function as a callable value: calling it returns its
/// argument unchanged.
pub struct IdFn<A>(pub core::marker::PhantomData<A>);

impl<A> IdFn<A> {
    /// Create an identity callable.
    pub fn new() -> (r: Self) {
        IdFn(core::marker::PhantomData)
    }
}

/// A callable that duplicates a value by plain copy.
pub struct CopyFn<A>(pub core::marker::PhantomData<A>);

impl<A> CopyFn<A> {
    /// Create a copying callable.
    pub fn new() -> (r: Self) {
        CopyFn(core::marker::PhantomData)
    }
}

/// A function that accepts 1 argument and can be called at most once.
pub trait F1Once<A>: Sized {
    /// The type returned by this function.
    type Ret;

    /// When this callable may be invoked on `a`.
    spec fn pre1(&self, a: A) -> bool;

    /// What may come back from invoking this callable on `a`.
    spec fn post1(&self, a: A, r: Self::Ret) -> bool;

    /// Call the function, consuming it.
    fn call1(self, a: A) -> (r: Self::Ret)
        requires
            self.pre1(a),
        ensures
            self.post1(a, r),
    ;
}

/// A function that accepts 2 arguments and can be called at most once.
pub trait F2Once<A, B>: Sized {
    /// The type returned by this function.
    type Ret;

    /// When this callable may be invoked on `a` and `b`.
    spec fn pre2(&self, a: A, b: B) -> bool;

    /// What may come back from invoking this callable on `a` and `b`.
    spec fn post2(&self, a: A, b: B, r: Self::Ret) -> bool;

    /// Call the function, consuming it.
    fn call1(self, a: A, b: B) -> (r: Self::Ret)
        requires
            self.pre2(a, b),
        ensures
            self.post2(a, b, r),
    ;
}

/// A function that accepts 3 arguments and can be called at most once.
pub trait F3Once<A, B, C>: Sized {
    /// The type returned by this function.
    type Ret;

    /// When this callable may be invoked on `a`, `b` and `c`.
    spec fn pre3(&self, a: A, b: B, c: C) -> bool;

    /// What may come back from invoking this callable on `a`, `b` and `c`.
    spec fn post3(&self, a: A, b: B, c: C, r: Self::Ret) -> bool;

    /// Call the function, consuming it.
    fn call1(self, a: A, b: B, c: C) -> (r: Self::Ret)
        requires
            self.pre3(a, b, c),
        ensures
            self.post3(a, b, c, r),
    ;
}

/// A function that accepts 1 argument and can be called any number of times.
pub trait F1<A>: F1Once<A> {
    /// Call the function through a shared reference.
    fn call(&self, a: A) -> (r: Self::Ret)
        requires
            self.pre1(a),
        ensures
            self.post1(a, r),
    ;
}

/// A function that accepts 2 arguments and can be called any number of times.
pub trait F2<A, B>: F2Once<A, B> {
    /// Call the function through a shared reference.
    fn call(&self, a: A, b: B) -> (r: Self::Ret)
        requires
            self.pre2(a, b),
        ensures
            self.post2(a, b, r),
    ;
}

/// A function that accepts 3 arguments and can be called any number of times.
pub trait F3<A, B, C>: F3Once<A, B, C> {
    /// Call the function through a shared reference.
    fn call(&self, a: A, b: B, c: C) -> (r: Self::Ret)
        requires
            self.pre3(a, b, c),
        ensures
            self.post3(a, b, c, r),
    ;
}

impl<A> F1Once<A> for IdFn<A> {
    type Ret = A;

    /// The identity function accepts every argument.
    open spec fn pre1(&self, a: A) -> bool {
        true
    }

    /// The identity function returns its argument.
    open spec fn post1(&self, a: A, r: A) -> bool {
        r == a
    }

    fn call1(self, a: A) -> (r: A) {
        a
    }
}

impl<A> F1<A> for IdFn<A> {
    fn call(&self, a: A) -> (r: A) {
        a
    }
}

impl<'x, A: Copy> F1Once<&'x A> for CopyFn<A> {
    type Ret = A;

    /// Copying accepts every argument.
    open spec fn pre1(&self, a: &'x A) -> bool {
        true
    }

    /// The result is the copied value.
    open spec fn post1(&self, a: &'x A, r: A) -> bool {
        r == *a
    }

    fn call1(self, a: &'x A) -> (r: A) {
        *a
    }
}

impl<'x, A: Copy> F1<&'x A> for CopyFn<A> {
    fn call(&self, a: &'x A) -> (r: A) {
        *a
    }
}

impl<F, A, B> F1Once<A> for F where F: FnOnce(A) -> B {
    type Ret = B;

    open spec fn pre1(&self, a: A) -> bool {
        call_requires(*self, (a,))
    }

    open spec fn post1(&self, a: A, r: B) -> bool {
        call_ensures(*self, (a,), r)
    }

    fn call1(self, a: A) -> (r: B) {
        self(a)
    }
}

impl<F, A, B> F1<A> for F where F: Fn(A) -> B {
    fn call(&self, a: A) -> (r: B) {
        self(a)
    }
}

impl<F, A, B, C> F2Once<A, B> for F where F: FnOnce(A, B) -> C {
    type Ret = C;

    open spec fn pre2(&self, a: A, b: B) -> bool {
        call_requires(*self, (a, b))
    }

    open spec fn post2(&self, a: A, b: B, r: C) -> bool {
        call_ensures(*self, (a, b), r)
    }

    fn call1(self, a: A, b: B) -> (r: C) {
        self(a, b)
    }
}

impl<F, A, B, C> F2<A, B> for F where F: Fn(A, B) -> C {
    fn call(&self, a: A, b: B) -> (r: C) {
        self(a, b)
    }
}

impl<F, A, B, C, D> F3Once<A, B, C> for F where F: FnOnce(A, B, C) -> D {
    type Ret = D;

    open spec fn pre3(&self, a: A, b: B, c: C) -> bool {
        call_requires(*self, (a, b, c))
    }

    open spec fn post3(&self, a: A, b: B, c: C, r: D) -> bool {
        call_ensures(*self, (a, b, c), r)
    }

    fn call1(self, a: A, b: B, c: C) -> (r: D) {
        self(a, b, c)
    }
}

impl<F, A, B, C, D> F3<A, B, C> for F where F: Fn(A, B, C) -> D {
    fn call(&self, a: A, b: B, c: C) -> (r: D) {
        self(a, b, c)
    }
}

} // verus!
