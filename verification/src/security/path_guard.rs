//! Paths that the server does not touch.

use vstd::prelude::*;

use crate::globs::{glob_is_valid, glob_match, glob_matches, glob_valid};
use crate::text::{opt_view, replace_all, str_replace, views};

verus! {

/// Whether a path may be used.
#[derive(Debug, PartialEq, Eq, Clone, Copy, Structural)]
pub enum Tier {
    Allowed,
    Blocked,
}

/// The patterns of paths that are blocked.
pub struct PathGuard {
    pub blocked_patterns: Vec<String>,
}

/// The patterns among `patterns` that are valid, in order.
pub open spec fn valid_only(patterns: Seq<Seq<char>>) -> Seq<Seq<char>>
    decreases patterns.len(),
{
    if patterns.len() == 0 {
        Seq::empty()
    } else {
        let before = valid_only(patterns.drop_last());
        if glob_is_valid(patterns.last()) {
            before.push(patterns.last())
        } else {
            before
        }
    }
}

/// The first of the patterns from position `from` on that the text matches.
pub open spec fn first_match(
    patterns: Seq<Seq<char>>,
    text: Seq<char>,
    from: int,
) -> Option<Seq<char>>
    decreases patterns.len() - from,
{
    if from < 0 || from >= patterns.len() {
        None
    } else if glob_is_valid(patterns[from]) && glob_matches(patterns[from], text) {
        Some(patterns[from])
    } else {
        first_match(patterns, text, from + 1)
    }
}

/// Whether a pattern blocks a path.
pub open spec fn blocks(pattern: Seq<char>, text: Seq<char>) -> bool {
    glob_is_valid(pattern) && glob_matches(pattern, text)
}

/// The pattern that is found blocks the path, and where none is found, none does.
pub proof fn law_first_match(patterns: Seq<Seq<char>>, text: Seq<char>, from: int)
    requires
        0 <= from <= patterns.len(),
    ensures
        first_match(patterns, text, from) matches Some(p) ==> blocks(p, text) && patterns.contains(
            p,
        ),
        first_match(patterns, text, from) is None ==> forall|i: int|
            from <= i < patterns.len() ==> !blocks(#[trigger] patterns[i], text),
    decreases patterns.len() - from,
{
    if from < patterns.len() {
        law_first_match(patterns, text, from + 1);
    }
}

/// A guard holds the patterns that it was given, without those that are not valid.
pub proof fn law_valid_only(patterns: Seq<Seq<char>>, p: Seq<char>)
    ensures
        valid_only(patterns).contains(p) <==> glob_is_valid(p) && patterns.contains(p),
    decreases patterns.len(),
{
    if patterns.len() > 0 {
        law_valid_only(patterns.drop_last(), p);
        let before = valid_only(patterns.drop_last());
        let all = valid_only(patterns);
        let front = patterns.drop_last();
        assert(patterns[patterns.len() - 1] == patterns.last());
        if patterns.contains(p) && p != patterns.last() {
            let i = patterns.index_of(p);
            assert(front[i] == p);
        }
        if front.contains(p) {
            let i = front.index_of(p);
            assert(patterns[i] == p);
        }
        if before.contains(p) {
            let i = before.index_of(p);
            assert(all[i] == p);
        }
        if all.contains(p) && p != patterns.last() {
            let i = all.index_of(p);
            assert(before[i] == p);
        }
        if glob_is_valid(patterns.last()) {
            assert(all[all.len() - 1] == patterns.last());
        }
    }
}

impl PathGuard {
    /// Every pattern is valid.
    pub open spec fn wf(&self) -> bool {
        forall|i: int|
            0 <= i < self.blocked_patterns@.len() ==> glob_is_valid(
                #[trigger] self.blocked_patterns@[i]@,
            )
    }

    /// A guard against the paths that match one of the patterns; those that are
    /// not valid are left out.
    pub fn new(blocked: Vec<String>) -> (r: Self)
        ensures
            r.wf(),
            views(r.blocked_patterns@) == valid_only(views(blocked@)),
            forall|p: Seq<char>| #[trigger]
                views(r.blocked_patterns@).contains(p) <==> glob_is_valid(p) && views(
                    blocked@,
                ).contains(p),
    {
        proof {
            assert forall|p: Seq<char>| #[trigger]
                valid_only(views(blocked@)).contains(p) <==> glob_is_valid(p) && views(
                    blocked@,
                ).contains(p) by {
                law_valid_only(views(blocked@), p);
            }
        }
        let mut kept: Vec<String> = Vec::new();
        let ghost all = views(blocked@);
        assert(all.take(0) =~= Seq::<Seq<char>>::empty());
        assert(views(kept@) =~= Seq::<Seq<char>>::empty());
        for i in 0..blocked.len()
            invariant
                all == views(blocked@),
                views(kept@) == valid_only(all.take(i as int)),
                forall|j: int| 0 <= j < kept@.len() ==> glob_is_valid(#[trigger] kept@[j]@),
        {
            let ghost before = kept@;
            assert(all.take(i + 1).drop_last() =~= all.take(i as int));
            assert(all.take(i + 1).last() == blocked@[i as int]@);
            if glob_valid(blocked[i].as_str()) {
                kept.push(blocked[i].clone());
                assert(views(kept@) =~= views(before).push(blocked@[i as int]@));
            }
        }
        assert(all.take(all.len() as int) =~= all);
        PathGuard { blocked_patterns: kept }
    }

    /// What is done with a path, given in its canonical form, and why it is
    /// blocked.
    pub fn check_path(&self, canonical: &str) -> (r: (Tier, Option<String>))
        ensures
            match first_match(
                views(self.blocked_patterns@),
                replace_all(canonical@, "\\"@, "/"@),
                0,
            ) {
                Some(pattern) => r.0 == Tier::Blocked && opt_view(r.1) == Some(
                    "Path matches blocked pattern: "@ + pattern,
                ),
                None => r.0 == Tier::Allowed && r.1 is None,
            },
            r.0 == Tier::Blocked <==> exists|i: int|
                0 <= i < self.blocked_patterns@.len() && blocks(
                    (#[trigger] self.blocked_patterns@[i])@,
                    replace_all(canonical@, "\\"@, "/"@),
                ),
            r.0 == Tier::Allowed ==> r.1 is None,
    {
        proof {
            reveal_strlit("\\");
        }
        let text = str_replace(canonical, "\\", "/");
        let ghost all = views(self.blocked_patterns@);
        let mut i: usize = 0;
        while i < self.blocked_patterns.len()
            invariant
                all == views(self.blocked_patterns@),
                text@ == replace_all(canonical@, "\\"@, "/"@),
                first_match(all, text@, 0) == first_match(all, text@, i as int),
            decreases self.blocked_patterns@.len() - i,
        {
            assert(all[i as int] == self.blocked_patterns@[i as int]@);
            if let Some(hit) = glob_match(self.blocked_patterns[i].as_str(), text.as_str()) {
                if hit {
                    let mut reason = "Path matches blocked pattern: ".to_owned();
                    reason.append(self.blocked_patterns[i].as_str());
                    assert(blocks(self.blocked_patterns@[i as int]@, text@));
                    return (Tier::Blocked, Some(reason));
                }
            }
            i += 1;
        }
        proof {
            law_first_match(all, text@, 0);
            assert forall|k: int| 0 <= k < self.blocked_patterns@.len() implies !blocks(
                (#[trigger] self.blocked_patterns@[k])@,
                text@,
            ) by {
                assert(all[k] == self.blocked_patterns@[k]@);
            }
        }
        (Tier::Allowed, None)
    }
}

/// The guard that the server uses: what packages are installed in, and the
/// objects of a repository, are blocked.
pub fn default_guard() -> (r: PathGuard)
    ensures
        r.wf(),
        views(r.blocked_patterns@) == valid_only(
            seq!["**/node_modules/**"@, "**/.git/objects/**"@],
        ),
{
    let mut blocked: Vec<String> = Vec::new();
    blocked.push("**/node_modules/**".to_owned());
    blocked.push("**/.git/objects/**".to_owned());
    assert(views(blocked@) =~= seq!["**/node_modules/**"@, "**/.git/objects/**"@]);
    PathGuard::new(blocked)
}

} // verus!
