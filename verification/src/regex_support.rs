//! Regular-expression matching, behind trusted wrappers over the regex crate.

use vstd::prelude::*;

verus! {

/// Whether a pattern is accepted by the regex engine; a function of the
/// pattern alone.
pub uninterp spec fn regex_valid(pattern: Seq<char>) -> bool;

/// Whether a pattern matches a text; a function of the pattern and the text
/// alone. An invalid pattern matches nothing.
pub uninterp spec fn regex_match(pattern: Seq<char>, text: Seq<char>) -> bool;

/// Relies on regex's `Regex::new`: a pattern either compiles or is rejected,
/// the same way on every call.
#[verifier::external_body]
pub(crate) fn regex_pattern_valid(pattern: &str) -> (r: bool)
    ensures
        r == regex_valid(pattern@),
{
    regex::Regex::new(pattern).is_ok()
}

/// Relies on regex's `Regex::new` and `Regex::is_match`: whether a pattern
/// matches a text depends on the pattern and the text alone, and a pattern
/// the engine rejects matches nothing.
#[verifier::external_body]
pub(crate) fn regex_is_match(pattern: &str, text: &str) -> (r: bool)
    ensures
        r == regex_match(pattern@, text@),
        !regex_valid(pattern@) ==> !r,
{
    match regex::Regex::new(pattern) {
        Ok(re) => re.is_match(text),
        Err(_) => false,
    }
}

} // verus!
