//! Glob patterns.

use vstd::prelude::*;

verus! {

/// `glob::Pattern::new` accepts the pattern, on a platform on which the slash
/// is the only path separator.
pub uninterp spec fn glob_is_valid(pattern: Seq<char>) -> bool;

/// `glob::Pattern::matches` finds that the text matches the pattern, on a
/// platform on which the slash is the only path separator.
pub uninterp spec fn glob_matches(pattern: Seq<char>, text: Seq<char>) -> bool;

/// `glob::Pattern::new`: whether the pattern is one is a function of its text.
#[verifier::external_body]
pub(crate) fn glob_valid(pattern: &str) -> (r: bool)
    ensures
        r == glob_is_valid(pattern@),
{
    glob::Pattern::new(pattern).is_ok()
}

/// `glob::Pattern::matches`, on the pattern that `glob::Pattern::new` makes of
/// the text: whether a text matches is a function of the two texts; there is no
/// answer where the pattern is not one.
#[verifier::external_body]
pub(crate) fn glob_match(pattern: &str, text: &str) -> (r: Option<bool>)
    ensures
        r is Some == glob_is_valid(pattern@),
        r matches Some(b) ==> b == glob_matches(pattern@, text@),
{
    glob::Pattern::new(pattern).ok().map(|p| p.matches(text))
}

/// The text matches one of the patterns.
pub open spec fn any_glob_matches(patterns: Seq<Seq<char>>, text: Seq<char>) -> bool {
    exists|i: int|
        0 <= i < patterns.len() && glob_is_valid(#[trigger] patterns[i]) && glob_matches(
            patterns[i],
            text,
        )
}

/// Whether the text matches one of the patterns.
pub fn matches_any(patterns: &[String], text: &str) -> (r: bool)
    ensures
        r == any_glob_matches(crate::text::views(patterns@), text@),
{
    for i in 0..patterns.len()
        invariant
            forall|j: int|
                0 <= j < i ==> !(glob_is_valid(#[trigger] patterns@[j]@) && glob_matches(
                    patterns@[j]@,
                    text@,
                )),
    {
        if let Some(hit) = glob_match(patterns[i].as_str(), text) {
            if hit {
                assert(crate::text::views(patterns@)[i as int] == patterns@[i as int]@);
                return true;
            }
        }
    }
    proof {
        let all = crate::text::views(patterns@);
        assert forall|j: int| 0 <= j < all.len() implies !(glob_is_valid(#[trigger] all[j])
            && glob_matches(all[j], text@)) by {
            assert(all[j] == patterns@[j]@);
        }
    }
    false
}

} // verus!
