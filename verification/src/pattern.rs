//! Regular expressions, through the `regex` crate.
use vstd::prelude::*;

verus! {

/// `regex::Regex::new(pattern)` succeeds.
pub uninterp spec fn spec_regex_valid(pattern: Seq<char>) -> bool;

/// `Regex::is_match` of the compiled pattern on `text`.
pub uninterp spec fn spec_regex_is_match(pattern: Seq<char>, text: Seq<char>) -> bool;

/// The text of capture group 1 of the first match of the pattern in `text`
/// (`Regex::captures`, then `get(1)`), if there is a match with that group.
pub uninterp spec fn spec_regex_capture1(pattern: Seq<char>, text: Seq<char>) -> Option<Seq<char>>;

/// For each successive match of the pattern in `text` (`Regex::captures_iter`),
/// the text of capture group 1, if the group took part in the match.
pub uninterp spec fn spec_regex_group1_all(pattern: Seq<char>, text: Seq<char>) -> Seq<Option<Seq<char>>>;

/// `Regex::replace_all(text, replacement)` of the compiled pattern.
pub uninterp spec fn spec_regex_replace_all(
    pattern: Seq<char>,
    text: Seq<char>,
    replacement: Seq<char>,
) -> Seq<char>;

/// The message (`Display`) of the error `regex::Regex::new(pattern)` gives.
pub uninterp spec fn spec_regex_error(pattern: Seq<char>) -> Seq<char>;

/// Compiles `pattern` with `regex::Regex::new` and calls `is_match` on `text`;
/// gives the compile error's message when the pattern does not compile. The
/// contract names all three.
#[verifier::external_body]
pub(crate) fn regex_is_match(pattern: &str, text: &str) -> (r: Result<bool, String>)
    ensures
        r is Ok <==> spec_regex_valid(pattern@),
        r is Ok ==> r->Ok_0 == spec_regex_is_match(pattern@, text@),
        r is Err ==> r->Err_0@ == spec_regex_error(pattern@),
{
    match regex::Regex::new(pattern) {
        Ok(re) => Ok(re.is_match(text)),
        Err(e) => Err(e.to_string()),
    }
}

/// Compiles `pattern` and calls `captures(text)`, then `get(1)`; gives `None`
/// when the pattern does not compile. The contract names both.
#[verifier::external_body]
pub(crate) fn regex_capture1(pattern: &str, text: &str) -> (r: Option<Option<String>>)
    ensures
        r is Some <==> spec_regex_valid(pattern@),
        r is Some ==> (r->Some_0 is Some <==> spec_regex_capture1(pattern@, text@) is Some),
        r is Some && r->Some_0 is Some ==> r->Some_0->Some_0@ == spec_regex_capture1(pattern@, text@)->Some_0,
{
    match regex::Regex::new(pattern) {
        Ok(re) => Some(re.captures(text).and_then(|c| c.get(1)).map(|m| m.as_str().to_string())),
        Err(_) => None,
    }
}

/// Compiles `pattern` and calls `captures_iter(text)`, taking group 1 of each
/// match; gives `None` when the pattern does not compile. The contract names
/// both.
#[verifier::external_body]
pub(crate) fn regex_group1_all(pattern: &str, text: &str) -> (r: Option<Vec<Option<String>>>)
    ensures
        r is Some <==> spec_regex_valid(pattern@),
        r is Some ==> r->Some_0@.len() == spec_regex_group1_all(pattern@, text@).len(),
        r is Some ==> forall|i: int|
            0 <= i < r->Some_0@.len() ==> (#[trigger] r->Some_0@[i] is Some
                <==> spec_regex_group1_all(pattern@, text@)[i] is Some),
        r is Some ==> forall|i: int|
            0 <= i < r->Some_0@.len() && #[trigger] r->Some_0@[i] is Some
                ==> r->Some_0@[i]->Some_0@ == spec_regex_group1_all(pattern@, text@)[i]->Some_0,
{
    match regex::Regex::new(pattern) {
        Ok(re) => Some(
            re.captures_iter(text).map(|c| c.get(1).map(|m| m.as_str().to_string())).collect(),
        ),
        Err(_) => None,
    }
}

/// Compiles `pattern` and calls `replace_all(text, replacement)`; gives `None`
/// when the pattern does not compile. The contract names both.
#[verifier::external_body]
pub(crate) fn regex_replace_all(pattern: &str, text: &str, replacement: &str) -> (r: Option<String>)
    ensures
        r is Some <==> spec_regex_valid(pattern@),
        r is Some ==> r->Some_0@ == spec_regex_replace_all(pattern@, text@, replacement@),
{
    match regex::Regex::new(pattern) {
        Ok(re) => Some(re.replace_all(text, replacement).into_owned()),
        Err(_) => None,
    }
}

} // verus!
