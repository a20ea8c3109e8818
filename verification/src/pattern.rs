//! Pattern matching by the `regex` crate, as far as the counting needs it.
//!
//! The verifier does not look into the `regex` crate. What this module
//! says of it is believed, not proved: that compiling a pattern and
//! searching a text with the compiled pattern are functions of their
//! arguments. What they return is named here and left undefined.

use crate::frequency::views;
use regex::Regex;
use vstd::prelude::*;

verus! {

/// A compiled pattern, `regex::Regex`. Its inside is hidden from the
/// verifier: verified code only carries one from [`compile`] to
/// [`find_all`], and learns of it what those two state.
#[verifier::external_type_specification]
#[verifier::external_body]
pub struct ExRegex(regex::Regex);

/// What `Regex::new` makes of `pattern`: the compiled pattern, or `None`
/// where it rejects the pattern.
pub uninterp spec fn compiled(pattern: Seq<char>) -> Option<Regex>;

/// What `Regex::find_iter` finds of `re` in `haystack`: the texts of the
/// successive non-overlapping matches, from left to right.
pub uninterp spec fn regex_matches(re: Regex, haystack: Seq<char>) -> Seq<Seq<char>>;

/// Compiles `pattern` with `Regex::new` and drops the error of a pattern
/// that is rejected.
///
/// Trusted: whether and to what a pattern compiles depends on the pattern
/// alone, so the outcome is the one that [`compiled`] names.
#[verifier::external_body]
pub(crate) fn compile(pattern: &str) -> (re: Option<Regex>)
    ensures
        re == compiled(pattern@),
{
    Regex::new(pattern).ok()
}

/// Collects what `Regex::find_iter` yields for `haystack`, each match as an
/// owned copy of the text that `Match::as_str` gives.
///
/// Trusted: the matches depend on the compiled pattern and the haystack
/// alone, so their texts are the ones that [`regex_matches`] names, in the
/// same order.
#[verifier::external_body]
pub(crate) fn find_all(re: &Regex, haystack: &str) -> (found: Vec<String>)
    ensures
        views(found@) == regex_matches(*re, haystack@),
{
    re.find_iter(haystack).map(|m| m.as_str().to_string()).collect()
}

} // verus!
