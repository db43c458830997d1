//! Regular expressions, as far as the search needs them: whether a
//! compiled pattern matches somewhere in a text.

use regex::Regex;
use vstd::prelude::*;

verus! {

/// A compiled regular expression of the `regex` crate. Nothing is known of
/// what it holds.
#[verifier::external_type_specification]
#[verifier::external_body]
pub struct ExRegex(Regex);

/// Whether a compiled pattern has a match anywhere in a text: what
/// `Regex::is_match` returns for the two.
pub uninterp spec fn pattern_matches(pattern: Regex, text: Seq<char>) -> bool;

/// `Regex::is_match` of the `regex` crate: true if and only if the pattern
/// has a match anywhere in the text. The answer depends on the pattern and
/// the text alone, so it is named by [`pattern_matches`]; nothing more is
/// claimed of it.
#[verifier::external_body]
pub(crate) fn is_match(pattern: &Regex, text: &str) -> (r: bool)
    ensures
        r == pattern_matches(*pattern, text@),
{
    pattern.is_match(text)
}

} // verus!
