//! Regular expressions.

use vstd::prelude::*;

use crate::text::opt_view;

verus! {

/// A compiled regular expression.
#[verifier::external_type_specification]
#[verifier::external_body]
pub struct ExRegex(regex::Regex);

/// The text that a regular expression was made of, as `regex::Regex::as_str` gives it.
pub uninterp spec fn pattern_of(re: regex::Regex) -> Seq<char>;

/// `regex::Regex::new` accepts the pattern.
pub uninterp spec fn is_pattern(pattern: Seq<char>) -> bool;

/// `regex::Regex::is_match` finds the pattern in the text.
pub uninterp spec fn has_match(pattern: Seq<char>, text: Seq<char>) -> bool;

/// The part of the text that the first group of the pattern matched, in the first match
/// that `regex::Regex::captures` finds.
pub uninterp spec fn first_group(pattern: Seq<char>, text: Seq<char>) -> Option<Seq<char>>;

/// `regex::Regex::new`: whether the pattern is accepted is a function of its text, and
/// the expression keeps that text.
#[verifier::external_body]
pub(crate) fn compile_pattern(pattern: &str) -> (r: Option<regex::Regex>)
    ensures
        r is Some == is_pattern(pattern@),
        r matches Some(re) ==> pattern_of(re) == pattern@,
{
    regex::Regex::new(pattern).ok()
}

/// `regex::Regex::is_match`: a function of the pattern and the text.
#[verifier::external_body]
pub(crate) fn pattern_matches(re: &regex::Regex, text: &str) -> (r: bool)
    ensures
        r == has_match(pattern_of(*re), text@),
{
    re.is_match(text)
}

/// `regex::Regex::captures`: what the first group of the first match holds is a function
/// of the pattern and the text; nothing where the pattern is not accepted, is not found,
/// or has no such group.
#[verifier::external_body]
pub(crate) fn find_group(pattern: &str, text: &str) -> (r: Option<String>)
    ensures
        opt_view(r) == first_group(pattern@, text@),
{
    let found = regex::Regex::new(pattern).ok()?;
    let group = found.captures(text)?.get(1)?;
    Some(group.as_str().to_owned())
}

} // verus!
