//! Matching a text against a regular expression, done by the `regex` crate.
//!
//! The function in this module is trusted: Verus takes its contract for
//! granted and does not look at its body.

use vstd::prelude::*;

verus! {

/// What `regex::Regex::captures` finds when the regular expression compiled
/// from `pattern` is run over `haystack`: `None` when the pattern does not
/// compile or matches nowhere; otherwise the capture groups of the leftmost
/// match, group 0 (the whole match) first, each with the text it matched, or
/// `None` for a group that took no part in the match.
pub uninterp spec fn regex_captures(pattern: Seq<char>, haystack: Seq<char>) -> Option<
    Seq<Option<Seq<char>>>,
>;

/// Compiles `pattern` with `regex::Regex::new` and runs `Regex::captures` over
/// `haystack`, copying out the text of every capture group. The contract only
/// names the result.
#[verifier::external_body]
pub(crate) fn capture_groups(pattern: &str, haystack: &str) -> (found: Option<
    Vec<Option<String>>,
>)
    ensures
        found.deep_view() == regex_captures(pattern@, haystack@),
{
    let compiled = regex::Regex::new(pattern).ok()?;
    let captures = compiled.captures(haystack)?;
    Some(captures.iter().map(|group| group.map(|found| found.as_str().to_string())).collect())
}

} // verus!
