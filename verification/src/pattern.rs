//! Regular expressions, matched by the `regex` crate.
//!
//! What a pattern finds in a text is not derived here: it is given a name,
//! and the library's contracts speak of it by that name.

use vstd::prelude::*;

verus! {

#[verifier::external_type_specification]
#[verifier::external_body]
pub struct ExRegexError(regex::Error);

/// Whether `regex::Regex::new` compiles `pattern`.
pub uninterp spec fn regex_accepts(pattern: Seq<char>) -> bool;

/// What `regex::Regex::captures` returns for `text`, on the regular expression
/// that `pattern` compiles to: `None` where the pattern matches nowhere in
/// the text; otherwise the groups of the leftmost match, the whole match
/// first, each with the text it matched, or `None` where it took no part.
pub uninterp spec fn regex_captures(pattern: Seq<char>, text: Seq<char>) -> Option<
    Seq<Option<Seq<char>>>,
>;

/// The groups of a match as sequences of characters.
pub open spec fn groups_view(groups: Seq<Option<String>>) -> Seq<Option<Seq<char>>> {
    Seq::new(
        groups.len(),
        |i: int|
            match groups[i] {
                Some(s) => Some(s@),
                None => None,
            },
    )
}

/// Compiles `pattern` with `regex::Regex::new` and searches `text` with
/// `regex::Regex::captures`. Nothing is proved of either; the contract only
/// names what they return. It is an error exactly where the pattern does not
/// compile. Otherwise the result is the groups that `Captures::iter` yields,
/// each as the string that `Match::as_str` gives.
#[verifier::external_body]
pub(crate) fn captures(pattern: &str, text: &str) -> (r: Result<
    Option<Vec<Option<String>>>,
    regex::Error,
>)
    ensures
        r is Ok == regex_accepts(pattern@),
        r matches Ok(Some(groups)) ==> regex_captures(pattern@, text@) == Some(groups_view(groups@)),
        r matches Ok(None) ==> regex_captures(pattern@, text@) is None,
{
    let re = regex::Regex::new(pattern)?;
    Ok(re.captures(text).map(|c| c.iter().map(|m| m.map(|m| m.as_str().to_string())).collect()))
}

} // verus!
