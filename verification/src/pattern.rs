//! Matching text against a regular expression.

use vstd::prelude::*;

verus! {

/// What the `regex` crate finds when it searches `haystack` for `pattern`.
///
/// `None` where the crate does not accept the pattern. Otherwise one entry
/// for each match, in the order in which the matches follow one another in
/// the haystack; an entry holds the text of every capture group of the
/// pattern, the whole match first, with `None` for a group that took no part
/// in the match.
pub uninterp spec fn regex_captures(pattern: Seq<char>, haystack: Seq<char>) -> Option<
    Seq<Seq<Option<Seq<char>>>>,
>;

/// Compiles `pattern` with `regex::Regex::new`, walks the successive matches
/// in `haystack` with `Regex::captures_iter`, and copies out the text of each
/// capture group (`Captures::iter`, `Match::as_str`).
///
/// Trusted: the result is what [`regex_captures`] names. Nothing more is
/// claimed of it.
#[verifier::external_body]
pub(crate) fn find_captures(pattern: &str, haystack: &str) -> (found: Option<
    Vec<Vec<Option<String>>>,
>)
    ensures
        found.deep_view() == regex_captures(pattern@, haystack@),
{
    match regex::Regex::new(pattern) {
        Ok(re) => Some(
            re.captures_iter(haystack).map(
                |caps| caps.iter().map(|group| group.map(|m| m.as_str().to_string())).collect(),
            ).collect(),
        ),
        Err(_) => None,
    }
}

} // verus!
