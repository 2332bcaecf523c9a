//! The hierarchy on the optional-value, fallible-result and identity
//! adapters: mapping, applying, lifting, selecting, combining and binding
//! on concrete values.
use naan::alt::{Alt, Plus};
use naan::apply::{Applicative, Apply, ApplyOnce};
use naan::bifunctor::{Bifunctor, BifunctorOnce};
use naan::fold::FoldableOnce;
use naan::functor::{Functor, FunctorOnce};
use naan::impls::identity::Id;
use naan::impls::result::ResultExt;
use naan::monad::{Monad, MonadOnce};
use naan::semigroup::{Monoid, Semigroup};

#[test]
fn option_functor_identity() {
    let some: Option<u64> = Some(7);
    let none: Option<u64> = None;
    assert_eq!(some.fmap(|x: u64| x), Some(7));
    assert_eq!(none.fmap(|x: u64| x), None);
}

#[test]
fn option_functor_composition() {
    let c: Option<u64> = Some(3);
    let stepwise = c.fmap(|x: u64| x + 1).fmap(|x: u64| x * 2);
    let composed = c.fmap(|x: u64| (x + 1) * 2);
    assert_eq!(stepwise, composed);
    assert_eq!(stepwise, Some(8));
}

#[test]
fn option_apply_and_pure() {
    let lifted: Option<u64> = Option::pure(5);
    assert_eq!(lifted, Some(5));
    let f: Option<fn(u64) -> u64> = Some(double_it);
    assert_eq!(f.apply1(Some(21)), Some(42));
    let g: Option<fn(u64) -> u64> = None;
    assert_eq!(g.apply1(Some(21)), None);
}

fn double_it(x: u64) -> u64 {
    2 * x
}

#[test]
fn option_alt_identity() {
    let c: Option<u64> = Some(9);
    let e: Option<u64> = Option::empty();
    assert_eq!(c.alt(e), c);
    let e2: Option<u64> = Option::empty();
    assert_eq!(e2.alt(c), c);
    let n: Option<u64> = None;
    assert_eq!(n.alt(Some(4)), Some(4));
    assert_eq!(Some(1u64).alt(Some(4)), Some(1));
}

#[test]
fn option_semigroup_append() {
    let a: Option<String> = Some(String::from("a"));
    let b: Option<String> = Some(String::from("b"));
    assert_eq!(a.append(b), Some(String::from("ab")));
    let n: Option<String> = None;
    assert_eq!(n.append(Some(String::from("x"))), Some(String::from("x")));
    let e: Option<String> = Option::identity();
    assert_eq!(Some(String::from("y")).append(e), Some(String::from("y")));
}

#[test]
fn option_monad_laws_concrete() {
    let f = |x: u64| if x > 0 { Some(x * 2) } else { None };
    // left identity
    assert_eq!(Option::pure(4u64).bind(f), f(4));
    // right identity
    let m: Option<u64> = Some(11);
    assert_eq!(m.bind(|x: u64| Option::pure(x)), m);
    // associativity
    let g = |x: u64| if x < 100 { Some(x + 1) } else { None };
    let m2: Option<u64> = Some(6);
    assert_eq!(m2.bind(f).bind(g), m2.bind(|x: u64| f(x).bind(g)));
}

#[test]
fn option_fold_and_get_or() {
    assert_eq!(Some(3u64).fold1(|acc: u64, x: u64| acc + x, 10), 13);
    let n: Option<u64> = None;
    assert_eq!(n.fold1(|acc: u64, x: u64| acc + x, 10), 10);
    assert_eq!(Some("a").get_or("b"), "a");
    let nn: Option<&str> = None;
    assert_eq!(nn.get_or("b"), "b");
}

#[test]
fn result_functor_and_monad() {
    let ok: Result<u64, String> = Ok(3);
    let err: Result<u64, String> = Err(String::from("boom"));
    assert_eq!(ok.clone().fmap1(|x: u64| x + 1), Ok(4));
    assert_eq!(err.clone().fmap1(|x: u64| x + 1), Err(String::from("boom")));
    assert_eq!(ok.clone().bind1(|x: u64| Ok::<u64, String>(x * 10)), Ok(30));
    assert_eq!(Result::<u64, String>::pure(8), Ok(8));
    assert_eq!(ok.alt(Err(String::from("z"))), Ok(3));
    assert_eq!(err.clone().alt(Ok(5)), Ok(5));
}

#[test]
fn result_swap_and_recover() {
    let ok: Result<u64, &str> = Ok(1);
    assert_eq!(ok.swap(), Err(1));
    let err: Result<u64, &str> = Err("e");
    assert_eq!(err.swap(), Ok("e"));
    assert_eq!(err.recover(|_e: &str| Ok::<u64, u8>(9)), Ok(9));
    assert_eq!(ok.recover(|_e: &str| Err::<u64, u8>(3)), Ok(1));
}

#[test]
fn result_filter_and_zip() {
    let ok: Result<u64, String> = Ok(4);
    let kept = ok.clone().filter(|x: &u64| *x % 2 == 0, |x: &u64| format!("odd {}", x));
    assert_eq!(kept, Ok(4));
    let rejected = Ok::<u64, String>(5).filter(|x: &u64| *x % 2 == 0, |x: &u64| format!("odd {}", x));
    assert_eq!(rejected, Err(String::from("odd 5")));
    let passed: Result<u64, String> = Err(String::from("prior"));
    assert_eq!(
        passed.filter(|_x: &u64| true, |_x: &u64| String::from("unused")),
        Err(String::from("prior"))
    );
    assert_eq!(ok.zip(|x: &u64| Ok::<u64, String>(x + 1)), Ok((4, 5)));
    assert_eq!(
        Ok::<u64, String>(4).zip(|_x: &u64| Err::<u64, String>(String::from("no"))),
        Err(String::from("no"))
    );
}

#[test]
fn result_discard_err_keeps_value() {
    let err: Result<u64, String> = Err(String::from("logged"));
    let seen = std::cell::Cell::new(false);
    let back = err.discard_err(|_e: &String| seen.set(true));
    assert_eq!(back, Err(String::from("logged")));
    assert!(seen.get());
}

#[test]
fn result_bifunctor() {
    let ok: Result<u64, u64> = Ok(2);
    let err: Result<u64, u64> = Err(3);
    assert_eq!(ok.bimap1(|x: u64| x + 1, |e: u64| e * 10), Ok::<u64, u64>(3));
    assert_eq!(err.bimap1(|x: u64| x + 1, |e: u64| e * 10), Err::<u64, u64>(30));
    assert_eq!(ok.lmap(|x: u64| x * 5), Ok::<u64, u64>(10));
    assert_eq!(err.rmap(|e: u64| e + 1), Err::<u64, u64>(4));
}

#[test]
fn identity_wrapper() {
    let a = Id::new(5u64);
    assert_eq!(a.get(), 5);
    assert_eq!(a.fmap1(|x: u64| x * 3), Id(15));
    assert_eq!(a.bind1(|x: u64| Id(x + 1)), Id(6));
    assert_eq!(Id::pure(2u64), Id(2));
    assert_eq!(Id(|x: u64| x + 7).apply1(Id(1)), Id(8u64));
    assert_eq!(Id::new(1u64).alt(Id::new(2)), Id(1));
    let s = Id::new(String::from("he")).append(Id::new(String::from("llo")));
    assert_eq!(s, Id(String::from("hello")));
}

#[test]
fn string_monoid_identity() {
    let e: String = Monoid::identity();
    assert_eq!(e, String::new());
    let h = String::from("hello");
    assert_eq!(h.clone().append(e.clone()), h);
    assert_eq!(e.append(h.clone()), h);
    assert_eq!(String::from("ab").append(String::from("cd")), String::from("abcd"));
}
