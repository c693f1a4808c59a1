//! Searching the lines of a file for a pattern.

use vstd::prelude::*;

verus! {

/// A line that a search through a file came up with.
pub struct Hit {
    pub line: u64,
    pub text: String,
}

/// The lines by their numbers and texts.
pub open spec fn hit_views(hits: Seq<Hit>) -> Seq<(u64, Seq<char>)> {
    Seq::new(hits.len(), |i: int| (hits[i].line, hits[i].text@))
}

/// A pattern that lines are searched for.
#[verifier::external_type_specification]
#[verifier::external_body]
pub struct ExRegexMatcher(grep_regex::RegexMatcher);

/// `grep_regex::RegexMatcherBuilder::build` makes a matcher of the pattern.
pub uninterp spec fn is_search_pattern(pattern: Seq<char>, case_sensitive: bool) -> bool;

/// The pattern that a matcher was made of, and whether it tells upper from lower case.
pub uninterp spec fn search_pattern_of(matcher: grep_regex::RegexMatcher) -> (Seq<char>, bool);

/// The lines that `grep_searcher::Searcher::search_reader` reports of the bytes, and
/// whether it came to its end without a fault.
pub uninterp spec fn found_lines(
    pattern: Seq<char>,
    case_sensitive: bool,
    context_lines: nat,
    limit: nat,
    bytes: Seq<u8>,
) -> (Seq<(u64, Seq<char>)>, bool);

/// `grep_regex::RegexMatcherBuilder::build`: whether the pattern is accepted is a
/// function of its text and of how case is told apart, and the matcher keeps both.
#[verifier::external_body]
pub(crate) fn build_matcher(pattern: &str, case_sensitive: bool) -> (r: Option<
    grep_regex::RegexMatcher,
>)
    ensures
        r is Some == is_search_pattern(pattern@, case_sensitive),
        r matches Some(matcher) ==> search_pattern_of(matcher) == (pattern@, case_sensitive),
{
    grep_regex::RegexMatcherBuilder::new().case_insensitive(!case_sensitive).build(pattern).ok()
}

/// Takes up a line that was reported, and says whether more are wanted.
fn note_hit(hits: &mut Vec<Hit>, line: u64, text: &str, limit: usize) -> (r: bool)
    ensures
        hit_views(final(hits)@) == hit_views(old(hits)@).push((line, text@)),
        r == (final(hits)@.len() < limit),
{
    let ghost before = hit_views(hits@);
    hits.push(Hit { line, text: text.to_owned() });
    assert(hit_views(hits@) =~= before.push((line, text@)));
    hits.len() < limit
}

/// `grep_searcher::Searcher::search_reader` on the bytes, with lines numbered, with as
/// many lines of context on both sides, and with an end where a zero byte is met: the
/// lines that its sink `UTF8` is told of until there are `limit` of them, and whether
/// there was no fault, are a function of the pattern, of how case is told apart, of the
/// two numbers and of the bytes. Which lines these are is left to the pattern.
#[verifier::external_body]
pub(crate) fn search_lines(
    matcher: &grep_regex::RegexMatcher,
    context_lines: usize,
    limit: usize,
    bytes: &[u8],
) -> (r: (Vec<Hit>, bool))
    ensures
        (hit_views(r.0@), r.1) == found_lines(
            search_pattern_of(*matcher).0,
            search_pattern_of(*matcher).1,
            context_lines as nat,
            limit as nat,
            bytes@,
        ),
{
    let mut hits: Vec<Hit> = Vec::new();
    let mut searcher = grep_searcher::SearcherBuilder::new().binary_detection(
        grep_searcher::BinaryDetection::quit(0),
    ).line_number(true).before_context(context_lines).after_context(context_lines).build();
    let note = |line: u64, text: &str| Ok(note_hit(&mut hits, line, text, limit));
    let ended = searcher.search_reader(matcher, bytes, grep_searcher::sinks::UTF8(note));
    (hits, ended.is_ok())
}

} // verus!
