//! The single error kind: a human-readable reason. Every fallible step of
//! parsing and evaluation returns one of these rather than panicking, and
//! each message a function can produce is pinned down by a spec function
//! here.
use vstd::prelude::*;
use crate::expr::Expression;
use crate::text::{dec_str, text_of, to_text, usize_to_string};

verus! {

/// A failure, carrying a human-readable description.
#[derive(Debug)]
pub enum Error {
    Reason(String),
}

impl View for Error {
    type V = Seq<char>;

    open spec fn view(&self) -> Seq<char> {
        match self {
            Error::Reason(s) => s@,
        }
    }
}

impl Error {
    /// The carried description, for hosts that print failures.
    pub fn message(self) -> (r: String)
        ensures
            r@ == self@,
    {
        match self {
            Error::Reason(s) => s,
        }
    }
}

pub open spec fn msg_could_not_get_token() -> Seq<char> {
    "could not get token"@
}

pub open spec fn msg_unexpected_close_paren() -> Seq<char> {
    "unexpected `)`"@
}

pub open spec fn msg_missing_close_paren() -> Seq<char> {
    "could not find closing `)`"@
}

pub open spec fn msg_unbound_symbol(k: Seq<char>) -> Seq<char> {
    "unexpected symbol k='"@ + k + "'"@
}

pub open spec fn msg_empty_list() -> Seq<char> {
    "expected a non-empty list"@
}

pub open spec fn msg_not_a_function() -> Seq<char> {
    "first form must be a function"@
}

pub open spec fn msg_unexpected_form() -> Seq<char> {
    "unexpected form"@
}

pub open spec fn msg_expected_test_form() -> Seq<char> {
    "expected test form"@
}

/// The message for a missing branch: the branch at index 1 is taken on a
/// true test, the one at index 2 on a false test.
pub open spec fn msg_missing_branch(test: bool) -> Seq<char> {
    if test {
        "expected form idx=1"@
    } else {
        "expected form idx=2"@
    }
}

pub open spec fn msg_non_boolean_test(rendered: Seq<char>) -> Seq<char> {
    "unexpected test form='"@ + rendered + "'"@
}

pub open spec fn msg_expected_first_form() -> Seq<char> {
    "expected first form"@
}

pub open spec fn msg_first_form_not_symbol() -> Seq<char> {
    "expected first form to be a symbol"@
}

pub open spec fn msg_expected_second_form() -> Seq<char> {
    "expected second form"@
}

pub open spec fn msg_def_two_forms() -> Seq<char> {
    "def can only have two forms "@
}

pub open spec fn msg_expected_args_form() -> Seq<char> {
    "expected args form"@
}

pub open spec fn msg_fn_two_forms() -> Seq<char> {
    "fn definition can only have two forms "@
}

pub open spec fn msg_args_form_not_list() -> Seq<char> {
    "expected args form to be a list"@
}

pub open spec fn msg_args_not_symbols() -> Seq<char> {
    "expected symbols in the argument list"@
}

pub open spec fn msg_arity_mismatch(expected: nat, got: nat) -> Seq<char> {
    "expected "@ + dec_str(expected) + " arguments, got "@ + dec_str(got)
}

pub open spec fn msg_expected_number() -> Seq<char> {
    "expected a number"@
}

pub open spec fn msg_expected_at_least_one_number() -> Seq<char> {
    "expected at least one number"@
}

pub open spec fn msg_depth_limit() -> Seq<char> {
    "evaluation depth limit reached"@
}

/// An error carrying exactly the given description.
pub fn reason(s: &str) -> (e: Error)
    ensures
        e@ == s@,
{
    Error::Reason(String::from_str(s))
}

/// The unbound-symbol error, naming the symbol.
pub fn err_unbound_symbol(k: &String) -> (e: Error)
    ensures
        e@ == msg_unbound_symbol(k@),
{
    let mut m = String::from_str("unexpected symbol k='");
    m.append(k.as_str());
    m.append("'");
    Error::Reason(m)
}

/// The non-boolean-test error, naming the offending test form.
pub fn err_non_boolean_test(test_form: &Expression) -> (e: Error)
    ensures
        e@ == msg_non_boolean_test(text_of(test_form@)),
{
    let mut m = String::from_str("unexpected test form='");
    let t = to_text(test_form);
    m.append(t.as_str());
    m.append("'");
    Error::Reason(m)
}

/// The arity-mismatch error, naming the expected and actual counts.
pub fn err_arity_mismatch(expected: usize, got: usize) -> (e: Error)
    ensures
        e@ == msg_arity_mismatch(expected as nat, got as nat),
{
    let mut m = String::from_str("expected ");
    let a = usize_to_string(expected);
    m.append(a.as_str());
    m.append(" arguments, got ");
    let b = usize_to_string(got);
    m.append(b.as_str());
    Error::Reason(m)
}

} // verus!
