//! Matching a text against a regular expression.

use regex::Regex;
use vstd::prelude::*;

verus! {

/// What `Regex::captures` finds for the expression `pattern` in `text`: the
/// text of each capture group of the leftmost match, the whole match first,
/// and `None` for a group that took no part in it. `None` where nothing
/// matches, or where `Regex::new` takes `pattern` for no expression.
pub uninterp spec fn regex_captures(pattern: Seq<char>, text: Seq<char>) -> Option<
    Seq<Option<Seq<char>>>,
>;

/// What the captured groups hold, as sequences of characters.
pub open spec fn group_texts(groups: Seq<Option<String>>) -> Seq<Option<Seq<char>>> {
    Seq::new(
        groups.len(),
        |i: int|
            match groups[i] {
                Some(t) => Some(t@),
                None => None,
            },
    )
}

/// The capture groups of the leftmost match of `pattern` in `text`.
///
/// Not proved: the body compiles `pattern` with `Regex::new`, calls
/// `Regex::captures` on `text`, and copies each group that
/// `Captures::iter` yields into a string. The contract only gives that
/// result its name, [`regex_captures`]; nothing else is claimed of it.
#[verifier::external_body]
pub(crate) fn captures(pattern: &str, text: &str) -> (r: Option<Vec<Option<String>>>)
    ensures
        match r {
            Some(groups) => regex_captures(pattern@, text@) == Some(group_texts(groups@)),
            None => regex_captures(pattern@, text@) is None,
        },
{
    let found = Regex::new(pattern).ok()?.captures(text)?;
    let mut groups: Vec<Option<String>> = Vec::new();
    for group in found.iter() {
        groups.push(
            match group {
                Some(m) => Some(m.as_str().to_string()),
                None => None,
            },
        );
    }
    Some(groups)
}

} // verus!
