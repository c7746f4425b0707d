//! Identifier-case conversion, done by the `convert_case` crate.
//!
//! What a case conversion returns takes pages to state, but it is a pure
//! function of the input characters, so the results are given names that
//! the rest of the crate's contracts carry along exactly.
use vstd::prelude::*;
use convert_case::{Case, Casing};

verus! {

/// The snake_case spelling of a string.
pub uninterp spec fn snake_case_of(s: Seq<char>) -> Seq<char>;

/// The UPPER_SNAKE_CASE spelling of a string.
pub uninterp spec fn upper_snake_case_of(s: Seq<char>) -> Seq<char>;

/// Relies on `convert_case`'s `Casing::to_case` with `Case::Snake`: the
/// result depends on the characters of `s` alone.
#[verifier::external_body]
pub fn to_snake_case(s: &str) -> (r: String)
    ensures
        r@ == snake_case_of(s@),
{
    s.to_case(Case::Snake)
}

/// Relies on `convert_case`'s `Casing::to_case` with `Case::UpperSnake`:
/// the result depends on the characters of `s` alone.
#[verifier::external_body]
pub fn to_upper_snake_case(s: &str) -> (r: String)
    ensures
        r@ == upper_snake_case_of(s@),
{
    s.to_case(Case::UpperSnake)
}

} // verus!
