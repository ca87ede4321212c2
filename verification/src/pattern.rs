//! Searching a text for a pattern, by way of the `regex` crate. A pattern
//! is compiled once and searched for as often as needed.

use vstd::prelude::*;

verus! {

#[verifier::external_type_specification]
#[verifier::external_body]
pub struct ExRegex(regex::Regex);

/// What a compiled pattern finds in `text`: the capture groups of its
/// leftmost match, the whole match first, then each group in the order of
/// its opening parenthesis, a group that took no part in the match being
/// empty. `None` where it matches nowhere in the text.
pub uninterp spec fn regex_groups(compiled: regex::Regex, text: Seq<char>) -> Option<
    Seq<Seq<char>>,
>;

/// What `pattern`, once compiled, finds in `text`. `None` also where the
/// pattern is not valid and so cannot be compiled.
pub uninterp spec fn pattern_groups(pattern: Seq<char>, text: Seq<char>) -> Option<Seq<Seq<char>>>;

/// `regex::Regex::new` compiles a pattern, and fails on one that is not
/// valid or grows too large. What comes of it depends on the pattern alone:
/// the contract says that the compiled pattern finds in every text what the
/// pattern is said to find there, and that a pattern that does not compile
/// finds nothing.
#[verifier::external_body]
pub(crate) fn compile(pattern: &str) -> (compiled: Option<regex::Regex>)
    ensures
        match compiled {
            Some(re) => forall|text: Seq<char>| #[trigger]
                regex_groups(re, text) == pattern_groups(pattern@, text),
            None => forall|text: Seq<char>| (#[trigger] pattern_groups(pattern@, text)) is None,
        },
{
    regex::Regex::new(pattern).ok()
}

/// `regex::Regex::captures` searches a text for the leftmost match of a
/// compiled pattern and gives the text of each capture group, or nothing
/// where there is no match. The contract only names the outcome as a
/// function of compiled pattern and text.
#[verifier::external_body]
pub(crate) fn capture_groups(compiled: &regex::Regex, text: &str) -> (groups: Option<Vec<String>>)
    ensures
        groups.deep_view() == regex_groups(*compiled, text@),
{
    let found = compiled.captures(text)?;
    Some(found.iter().map(|m| m.map_or(String::new(), |m| m.as_str().to_string())).collect())
}

} // verus!
