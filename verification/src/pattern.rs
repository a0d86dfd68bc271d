//! Searching text with regular expressions. The searches themselves are the
//! work of the `regex` crate; what they answer is known here only by name.

use vstd::prelude::*;
use regex::Regex;

verus! {

/// Whether the pattern matches anywhere in the text; `None` where the pattern
/// does not compile.
pub uninterp spec fn found_in(pattern: Seq<char>, text: Seq<char>) -> Option<bool>;

/// The groups of the first match of the pattern in the text, the whole match
/// first, each with the text it matched if it took part in the match. The
/// inner `None` says that there is no match, the outer that the pattern does
/// not compile.
pub uninterp spec fn first_groups(pattern: Seq<char>, text: Seq<char>) -> Option<
    Option<Seq<Option<Seq<char>>>>,
>;

/// The groups of every match of the pattern in the text, match by match from
/// left to right without overlap; `None` where the pattern does not compile.
pub uninterp spec fn all_groups(pattern: Seq<char>, text: Seq<char>) -> Option<
    Seq<Seq<Option<Seq<char>>>>,
>;

/// The text with every match of the pattern replaced by the replacement, in
/// which a `$` followed by a group's number or name stands for what that
/// group matched; `None` where the pattern does not compile.
pub uninterp spec fn all_replaced(
    pattern: Seq<char>,
    text: Seq<char>,
    replacement: Seq<char>,
) -> Option<Seq<char>>;

/// `Regex::new` and `Regex::is_match`: compiles the pattern and asks whether
/// it matches anywhere in the text. The contract only gives the answer its
/// name; a pattern that `Regex::new` rejects gives `None`.
#[verifier::external_body]
pub(crate) fn is_match(pattern: &str, text: &str) -> (found: Option<bool>)
    ensures
        found == found_in(pattern@, text@),
{
    match Regex::new(pattern) {
        Ok(re) => Some(re.is_match(text)),
        Err(_) => None,
    }
}

/// `Regex::new` and `Regex::captures`: compiles the pattern and searches the
/// text for its first match. Each group of the match is handed out as the
/// text it matched. The contract only gives the answer its name.
#[verifier::external_body]
pub(crate) fn captures(pattern: &str, text: &str) -> (found: Option<Option<Vec<Option<String>>>>)
    ensures
        found.deep_view() == first_groups(pattern@, text@),
{
    match Regex::new(pattern) {
        Ok(re) => Some(
            re.captures(text).map(|c| c.iter().map(|g| g.map(|m| m.as_str().to_owned())).collect()),
        ),
        Err(_) => None,
    }
}

/// `Regex::new` and `Regex::captures_iter`: compiles the pattern and searches
/// the text for all its matches. Each group of each match is handed out as
/// the text it matched. The contract only gives the answer its name.
#[verifier::external_body]
pub(crate) fn captures_iter(pattern: &str, text: &str) -> (found: Option<
    Vec<Vec<Option<String>>>,
>)
    ensures
        found.deep_view() == all_groups(pattern@, text@),
{
    match Regex::new(pattern) {
        Ok(re) => Some(
            re.captures_iter(text).map(
                |c| c.iter().map(|g| g.map(|m| m.as_str().to_owned())).collect(),
            ).collect(),
        ),
        Err(_) => None,
    }
}

/// `Regex::new` and `Regex::replace_all`: compiles the pattern and replaces
/// each of its matches in the text, expanding the `$` references of the
/// replacement. The contract only gives the answer its name.
#[verifier::external_body]
pub(crate) fn replace_all(pattern: &str, text: &str, replacement: &str) -> (replaced: Option<
    String,
>)
    ensures
        replaced.deep_view() == all_replaced(pattern@, text@, replacement@),
{
    match Regex::new(pattern) {
        Ok(re) => Some(re.replace_all(text, replacement).into_owned()),
        Err(_) => None,
    }
}

} // verus!
