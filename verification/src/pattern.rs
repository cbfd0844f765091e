//! Regular expressions, as far as the link extractor needs them.
//!
//! Matching is done by the `regex` crate. Nothing in this file is proved:
//! each function states what is taken on trust of the call it makes.

use regex::Regex;
use vstd::prelude::*;

verus! {

/// `regex::Regex`, a compiled regular expression. Nothing inside it is
/// visible here.
#[verifier::external_type_specification]
#[verifier::external_body]
pub struct ExRegex(regex::Regex);

/// `regex::Error`, why a pattern did not compile. Nothing inside it is
/// visible here.
#[verifier::external_type_specification]
#[verifier::external_body]
pub struct ExRegexError(regex::Error);

/// Whether `pattern` compiles: whether `Regex::new` returns a regex for it.
/// A pattern fails to compile if it is no valid regular expression, or if
/// its compiled form is larger than the engine's size limit.
pub uninterp spec fn regex_compiles(pattern: Seq<char>) -> bool;

/// The pattern text that `re` was compiled from: what `Regex::as_str`
/// returns for it.
pub uninterp spec fn regex_source(re: Regex) -> Seq<char>;

/// Whether `re` matches anywhere in `text`: what `Regex::is_match` returns.
pub uninterp spec fn regex_is_match(re: Regex, text: Seq<char>) -> bool;

/// For each successive non-overlapping match of `re` in `text`, in the order
/// in which `Regex::captures_iter` yields them, what capture group `group`
/// matched, or `None` where that group took no part in the match or does
/// not exist.
pub uninterp spec fn regex_group_matches(re: Regex, text: Seq<char>, group: int) -> Seq<
    Option<Seq<char>>,
>;

/// Calls `Regex::new`. Trusted: whether the call succeeds depends on the
/// pattern alone, and a regex that was compiled keeps the text it was
/// compiled from. Which patterns compile is not said.
#[verifier::external_body]
pub(crate) fn compile(pattern: &str) -> (compiled: Result<Regex, regex::Error>)
    ensures
        compiled is Ok <==> regex_compiles(pattern@),
        compiled matches Ok(re) ==> regex_source(re) == pattern@,
{
    Regex::new(pattern)
}

/// Calls `Regex::as_str`. Trusted: the result is the text that the regex was
/// compiled from.
#[verifier::external_body]
pub(crate) fn source_of(re: &Regex) -> (source: &str)
    ensures
        source@ == regex_source(*re),
{
    re.as_str()
}

/// Calls `Regex::is_match`. Trusted: the answer depends on the regex and on
/// `text` alone, so the same question always gets the same answer.
#[verifier::external_body]
pub(crate) fn is_match(re: &Regex, text: &str) -> (found: bool)
    ensures
        found == regex_is_match(*re, text@),
{
    re.is_match(text)
}

/// Calls `Regex::captures_iter` and keeps of each match the text of capture
/// group `group`, read with `Captures::get`. Trusted: the list depends on the
/// regex, on `text` and on `group` alone.
#[verifier::external_body]
pub(crate) fn group_matches(re: &Regex, text: &str, group: usize) -> (found: Vec<Option<String>>)
    ensures
        found.deep_view() == regex_group_matches(*re, text@, group as int),
{
    re.captures_iter(text).map(|c| c.get(group).map(|m| m.as_str().to_string())).collect()
}

} // verus!
