//! A monad interface, a report of the monad laws, and `Plumber`, which
//! threads a value through steps that may fail.

use vstd::prelude::*;
use crate::text::{signed_decimal, signed_decimal_of};

verus! {

/// A type that can wrap a plain value.
pub trait Monad: Sized {
    type Item;

    fn unit(value: Self::Item) -> Self;
}

/// Reports on the monad laws.
pub struct MonadLaws;

/// The text of the laws report.
pub open spec fn laws_report() -> Seq<char> {
    "Monad Laws Verification:\n  Left Identity: ✓ Pass\n  Right Identity: ✓ Pass\n  Associativity: ✓ Pass"@
}

impl MonadLaws {
    /// Left identity: `unit(a).bind(f) == f(a)`; reported as holding.
    pub fn verify_left_identity() -> (r: bool)
        ensures
            r,
    {
        true
    }

    /// Right identity: `m.bind(unit) == m`; reported as holding.
    pub fn verify_right_identity() -> (r: bool)
        ensures
            r,
    {
        true
    }

    /// Associativity: `m.bind(f).bind(g) == m.bind(|x| f(x).bind(g))`;
    /// reported as holding.
    pub fn verify_associativity() -> (r: bool)
        ensures
            r,
    {
        true
    }

    /// A report naming each law with its outcome.
    pub fn verify_all() -> (r: String)
        ensures
            r@ == laws_report(),
    {
        String::from_str(
            "Monad Laws Verification:\n  Left Identity: ✓ Pass\n  Right Identity: ✓ Pass\n  Associativity: ✓ Pass",
        )
    }
}

/// A value that may be missing; each step runs only while it is present.
pub struct Plumber<T> {
    value: Option<T>,
}

impl<T> View for Plumber<T> {
    type V = Option<T>;

    closed spec fn view(&self) -> Option<T> {
        self.value
    }
}

impl<T> Plumber<T> {
    /// Holds `value`.
    pub fn new(value: T) -> (r: Self)
        ensures
            r@ == Some(value),
    {
        Plumber { value: Some(value) }
    }

    /// Applies `f` to the value if there is one; a missing value stays
    /// missing and `f` is not called.
    pub fn pipe<F, U>(self, f: F) -> (r: Plumber<U>)
        where
            F: FnOnce(T) -> Option<U>,
        requires
            self@ is Some ==> f.requires((self@->Some_0,)),
        ensures
            self@ is None ==> r@ is None,
            self@ is Some ==> f.ensures((self@->Some_0,), r@),
    {
        Plumber { value: self.value.and_then(f) }
    }

    /// The value, if there is one.
    pub fn extract(self) -> (r: Option<T>)
        ensures
            r == self@,
    {
        self.value
    }
}

/// How an optional integer is written in debug form: `Some(n)` or `None`.
pub open spec fn option_text(v: Option<int>) -> Seq<char> {
    match v {
        Some(n) => "Some("@ + signed_decimal_of(n) + ")"@,
        None => "None"@,
    }
}

fn option_i32_text(v: Option<i32>) -> (r: String)
    ensures
        r@ == option_text(
            match v {
                Some(n) => Some(n as int),
                None => None,
            },
        ),
{
    match v {
        Some(n) => {
            let mut out = String::from_str("Some(");
            let digits = signed_decimal(n as i64);
            out.append(digits.as_str());
            out.append(")");
            out
        },
        None => String::from_str("None"),
    }
}

/// The laws report followed by a run of 42 through doubling and adding ten.
pub fn demonstrate_monad_system() -> (r: String)
    ensures
        r@ == laws_report() + "\n\nPlumber Demo: "@ + option_text(Some(94)) + "\n  42 -> *2 -> +10 = "@
            + option_text(Some(94)),
{
    let laws = MonadLaws::verify_all();
    let double = |x: i32| -> (r: Option<i32>)
        requires
            -1000 <= x <= 1000,
        ensures
            r == Some((2 * x) as i32),
        { Some(x * 2) };
    let add_ten = |x: i32| -> (r: Option<i32>)
        requires
            -1000 <= x <= 1000,
        ensures
            r == Some((x + 10) as i32),
        { Some(x + 10) };
    let plumber_demo = Plumber::new(42i32).pipe(double).pipe(add_ten).extract();
    assert(plumber_demo == Some(94i32));
    let text = option_i32_text(plumber_demo);
    let mut out = laws;
    out.append("\n\nPlumber Demo: ");
    out.append(text.as_str());
    out.append("\n  42 -> *2 -> +10 = ");
    out.append(text.as_str());
    out
}

} // verus!
