//! Searching a text with a regular expression.

use vstd::prelude::*;
use regex::Regex;

verus! {

/// What the regular expression `pattern` finds in `text`.
///
/// `None` where `pattern` is no regular expression. Otherwise the matches,
/// from left to right and without overlap, and for each match the text of its
/// groups in the order of their opening brackets, the whole match first; a
/// group that took no part in the match is `None`.
pub uninterp spec fn regex_captures(pattern: Seq<char>, text: Seq<char>) -> Option<
    Seq<Seq<Option<Seq<char>>>>,
>;

/// Compiles `pattern` with `regex::Regex::new` and walks `text` with
/// `Regex::captures_iter`, copying the text of each group of each match.
///
/// The contract only names the result: that the same pattern and text always
/// give the same matches is taken from the regex crate, and nothing is claimed
/// of what they are.
#[verifier::external_body]
pub(crate) fn find_captures(pattern: &str, text: &str) -> (found: Option<
    Vec<Vec<Option<String>>>,
>)
    ensures
        found.deep_view() == regex_captures(pattern@, text@),
{
    match Regex::new(pattern) {
        Ok(compiled) => Some(
            compiled.captures_iter(text).map(
                |m| m.iter().map(|group| group.map(|part| part.as_str().to_string())).collect(),
            ).collect(),
        ),
        Err(_) => None,
    }
}

} // verus!
