//! Regular expressions, matched by the `regex` crate.

use regex::Regex;
use vstd::prelude::*;

verus! {

/// What the `regex` crate captures when it searches `text` for the regular
/// expression `pattern`: `None` if `pattern` is no regular expression to the
/// crate or matches nowhere in `text`; else, for the leftmost match, one entry
/// for each capture group of the pattern, in the order of their opening
/// brackets and with the whole match in front as group 0. The entry of a
/// group is the text that it matched, or `None` if the group took no part in
/// the match.
pub uninterp spec fn regex_captures(pattern: Seq<char>, text: Seq<char>) -> Option<
    Seq<Option<Seq<char>>>,
>;

/// Compiles `pattern` with `regex::Regex::new` and searches `text` with
/// `Regex::captures`. The groups that `Captures::iter` yields are handed
/// back as owned strings. Nothing is claimed of the result but that it is
/// what the crate finds for this pattern in this text.
#[verifier::external_body]
pub(crate) fn captures(pattern: &str, text: &str) -> (groups: Option<Vec<Option<String>>>)
    ensures
        groups.deep_view() == regex_captures(pattern@, text@),
{
    let compiled = Regex::new(pattern).ok()?;
    let found = compiled.captures(text)?;
    Some(found.iter().map(|group| group.map(|m| String::from(m.as_str()))).collect())
}

} // verus!
