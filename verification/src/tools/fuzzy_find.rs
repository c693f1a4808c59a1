//! Finding files and directories by a part of their path.

use vstd::prelude::*;

use fuzzy_matcher::FuzzyMatcher;

use crate::lines::{split, str_split};
use crate::order::{
    lemma_precedes_total, lemma_precedes_transitive, precedes, str_precedes,
};
use crate::paths::{
    below, extension, extension_of, file_name, file_name_of, normalize_display_path, parts_of,
    same_path, shown_path, strip_prefix,
};
use crate::sorted::{ascending, insert_new, text_set};
use crate::text::{
    ascii_lower, byte_len, chars_of, contains, find, find_from, str_ascii_lower, str_contains,
    str_eq, str_take, views,
};
use crate::tools::compare_directories::capped_sum;
use crate::unicode::{lowercase, to_lowercase};
use crate::words::{split_words, words};

verus! {

/// How many matches are returned at most.
pub const MAX_FUZZY_RESULTS: usize = 500;

/// The score that `fuzzy_matcher::skim::SkimMatcherV2` gives a text for a
/// pattern, where the text matches it.
pub uninterp spec fn skim_score(choice: Seq<char>, pattern: Seq<char>) -> Option<i64>;

/// `fuzzy_matcher::FuzzyMatcher::fuzzy_match` of the default
/// `SkimMatcherV2`: a function of the text and the pattern.
#[verifier::external_body]
fn fuzzy_score(choice: &str, pattern: &str) -> (r: Option<i64>)
    ensures
        r == skim_score(choice@, pattern@),
{
    fuzzy_matcher::skim::SkimMatcherV2::default().fuzzy_match(choice, pattern)
}

/// What is looked for.
pub struct FuzzyQuery {
    pub pattern: String,
    pub target_type: String,
    pub extensions: Vec<String>,
    pub filter_terms: Vec<String>,
    pub max_depth: Option<u64>,
    pub max_results: usize,
}

/// A directory or file that is searched.
pub struct SearchRoot {
    pub path: String,
    pub is_dir: bool,
    pub is_file: bool,
}

/// A file or directory that may match, with its size and time.
pub struct Candidate {
    pub path: String,
    pub is_dir: bool,
    pub size: u64,
    pub modified_at: u64,
}

/// A file or directory that matches.
pub struct RankedMatch {
    pub path: String,
    pub relative_path: String,
    pub score: i64,
    pub entry_type: &'static str,
    pub size: u64,
    pub modified_at: u64,
}

/// A file or directory that matches.
pub struct Ranked {
    pub path: Seq<char>,
    pub relative: Seq<char>,
    pub score: int,
    pub kind: Seq<char>,
    pub size: u64,
    pub modified_at: u64,
}

impl View for RankedMatch {
    type V = Ranked;

    open spec fn view(&self) -> Ranked {
        Ranked {
            path: self.path@,
            relative: self.relative_path@,
            score: self.score as int,
            kind: self.entry_type@,
            size: self.size,
            modified_at: self.modified_at,
        }
    }
}

/// The matches.
pub open spec fn ranked_views(items: Seq<RankedMatch>) -> Seq<Ranked> {
    Seq::new(items.len(), |i: int| items[i]@)
}

/// The path below the first of the roots that it lies at or below: for a root
/// that is a file, its name. Where it lies below none, the path itself.
pub open spec fn relative_to(path: Seq<char>, roots: Seq<SearchRoot>, from: int) -> Seq<char>
    decreases roots.len() - from,
{
    if from < 0 || from >= roots.len() {
        shown_path(path)
    } else {
        let root = roots[from];
        if root.is_dir && below(path, root.path@) is Some {
            shown_path(below(path, root.path@)->0)
        } else if !root.is_dir && root.is_file && parts_of(root.path@) == parts_of(path) {
            match file_name_of(path) {
                Some(name) => name,
                None => Seq::empty(),
            }
        } else {
            relative_to(path, roots, from + 1)
        }
    }
}

/// A path below none of the roots is shown whole.
proof fn lemma_outside_roots(path: Seq<char>, roots: Seq<SearchRoot>, from: int)
    requires
        0 <= from <= roots.len(),
        forall|i: int|
            0 <= i < roots.len() ==> below(path, (#[trigger] roots[i]).path@) is None,
    ensures
        relative_to(path, roots, from) == shown_path(path),
    decreases roots.len() - from,
{
    if from < roots.len() {
        assert(below(path, roots[from].path@) is None);
        let all = parts_of(path);
        assert(all.take(all.len() as int) =~= all);
        lemma_outside_roots(path, roots, from + 1);
    }
}

/// The path below the first of the roots that it lies at or below.
pub fn compute_relative_path(path: &str, roots: &[SearchRoot]) -> (r: String)
    ensures
        r@ == relative_to(path@, roots@, 0),
        roots@.len() > 0 && roots@[0].is_dir && below(path@, roots@[0].path@) is Some ==> r@
            == shown_path(below(path@, roots@[0].path@)->0),
        (forall|i: int|
            0 <= i < roots@.len() ==> below(path@, (#[trigger] roots@[i]).path@) is None) ==> r@
            == shown_path(path@),
{
    proof {
        if (forall|i: int|
            0 <= i < roots@.len() ==> below(path@, (#[trigger] roots@[i]).path@) is None) {
            lemma_outside_roots(path@, roots@, 0);
        }
    }
    let mut i: usize = 0;
    while i < roots.len()
        invariant
            i <= roots@.len(),
            relative_to(path@, roots@, 0) == relative_to(path@, roots@, i as int),
            (forall|i: int|
                0 <= i < roots@.len() ==> below(path@, (#[trigger] roots@[i]).path@) is None)
                ==> relative_to(path@, roots@, 0) == shown_path(path@),
        decreases roots@.len() - i,
    {
        let root = &roots[i];
        if root.is_dir {
            if let Some(rest) = strip_prefix(path, root.path.as_str()) {
                return normalize_display_path(rest.as_str());
            }
        } else if root.is_file && same_path(root.path.as_str(), path) {
            return match file_name(path) {
                Some(name) => name,
                None => String::new(),
            };
        }
        i += 1;
    }
    normalize_display_path(path)
}

/// The path has no more components than asked for.
pub open spec fn depth_allows(relative: Seq<char>, max_depth: Option<u64>) -> bool {
    match max_depth {
        None => true,
        Some(most) => relative.len() == 0 || split(relative, '/').len() <= most,
    }
}

/// Whether the path has no more components than asked for.
pub fn within_max_depth(relative_path: &str, max_depth: Option<u64>) -> (r: bool)
    ensures
        r == depth_allows(relative_path@, max_depth),
{
    match max_depth {
        None => true,
        Some(most) => {
            if relative_path.is_empty() {
                return true;
            }
            let parts = str_split(relative_path, '/');
            assert(views(parts@).len() == parts@.len());
            parts.len() as u64 <= most
        },
    }
}

/// What is looked for is of this kind: a file, a directory, or either.
pub open spec fn type_allows(target_type: Seq<char>, is_dir: bool) -> bool {
    !(target_type == "file"@ && is_dir) && !(target_type == "dir"@ && !is_dir)
}

/// The extension is one of those asked for; directories have none.
pub open spec fn extension_allows(
    extensions: Seq<Seq<char>>,
    is_dir: bool,
    path: Seq<char>,
) -> bool {
    extensions.len() == 0 || is_dir || extensions.contains(
        match extension_of(path) {
            Some(ext) => lowercase(ext),
            None => Seq::empty(),
        },
    )
}

/// Whether one of the texts is `x`.
pub fn holds(items: &[String], x: &str) -> (r: bool)
    ensures
        r == views(items@).contains(x@),
{
    for i in 0..items.len()
        invariant
            forall|k: int| 0 <= k < i ==> (#[trigger] items@[k])@ != x@,
    {
        if str_eq(items[i].as_str(), x) {
            assert(views(items@)[i as int] == x@);
            return true;
        }
    }
    assert forall|k: int| 0 <= k < views(items@).len() implies views(items@)[k] != x@ by {
        assert(views(items@)[k] == items@[k]@);
    }
    false
}

/// Whether the kind and the extension are those asked for.
pub fn kind_fits(query: &FuzzyQuery, is_dir: bool, path: &str) -> (r: bool)
    ensures
        r && query.target_type@ == "dir"@ ==> is_dir,
        r && query.target_type@ == "file"@ ==> !is_dir,
        query.target_type@ != "dir"@ && query.target_type@ != "file"@ && (is_dir
            || query.extensions@.len() == 0) ==> r,
        query.target_type@ == "dir"@ && is_dir ==> r,
        query.target_type@ == "file"@ && !is_dir && query.extensions@.len() == 0 ==> r,
        !is_dir && query.extensions@.len() > 0 && query.target_type@ != "dir"@ ==> r == exists|
            i: int,
        |
            0 <= i < query.extensions@.len() && (#[trigger] query.extensions@[i])@ == (
            match extension_of(path@) {
                Some(ext) => lowercase(ext),
                None => Seq::empty(),
            }),
        r == (type_allows(query.target_type@, is_dir) && extension_allows(
            views(query.extensions@),
            is_dir,
            path@,
        )),
{
    proof {
        reveal_strlit("file");
        reveal_strlit("dir");
        assert("file"@.len() != "dir"@.len());
    }
    if str_eq(query.target_type.as_str(), "file") && is_dir {
        return false;
    }
    if str_eq(query.target_type.as_str(), "dir") && !is_dir {
        return false;
    }
    assert(views(query.extensions@).len() == query.extensions@.len());
    if query.extensions.len() > 0 && !is_dir {
        let ext: String = match extension(path) {
            Some(ext) => to_lowercase(ext.as_str()),
            None => String::new(),
        };
        proof {
            let all = views(query.extensions@);
            if all.contains(ext@) {
                let i = all.index_of(ext@);
                assert(query.extensions@[i]@ == ext@);
            }
            if exists|i: int|
                0 <= i < query.extensions@.len() && (#[trigger] query.extensions@[i])@ == ext@ {
                let i = choose|i: int|
                    0 <= i < query.extensions@.len() && (#[trigger] query.extensions@[i])@ == ext@;
                assert(all[i] == ext@);
            }
        }
        return holds(query.extensions.as_slice(), ext.as_str());
    }
    true
}

/// Every one of the terms stands in the text.
pub open spec fn holds_all(text: Seq<char>, filter: Seq<Seq<char>>) -> bool {
    forall|i: int| 0 <= i < filter.len() ==> contains(text, #[trigger] filter[i])
}

/// Whether every one of the terms stands in the text.
fn contains_all(text: &str, filter: &[String]) -> (r: bool)
    ensures
        r == holds_all(text@, views(filter@)),
{
    for i in 0..filter.len()
        invariant
            forall|k: int| 0 <= k < i ==> contains(text@, #[trigger] views(filter@)[k]),
    {
        if !str_contains(text, filter[i].as_str()) {
            assert(!contains(text@, views(filter@)[i as int]));
            return false;
        }
    }
    true
}

/// Where a term stands first in the text, in bytes; nothing where it does not.
pub open spec fn byte_position(text: Seq<char>, term: Seq<char>) -> nat {
    match find_from(text, term, 0) {
        Some(i) => byte_len(text.take(i)),
        None => 0,
    }
}

/// The sum of the positions of the terms.
pub open spec fn position_sum(text: Seq<char>, filter: Seq<Seq<char>>) -> nat
    decreases filter.len(),
{
    if filter.len() == 0 {
        0
    } else {
        position_sum(text, filter.drop_last()) + byte_position(text, filter.last())
    }
}

/// The score of a text in which the terms stand: the better the shorter it is,
/// and the earlier they stand.
pub open spec fn containment_score(text: Seq<char>, filter: Seq<Seq<char>>) -> int {
    let lower = ascii_lower(text);
    let length = if byte_len(lower) <= 2000 {
        byte_len(lower) as int
    } else {
        2000
    };
    2000 - length - position_sum(lower, filter)
}

/// The score of a text in which the terms stand; the lowest number of the
/// machine where it is lower.
pub fn term_containment_score(score_target: &str, filter_terms: &[String]) -> (r: i64)
    ensures
        r == (if containment_score(score_target@, views(filter_terms@)) < i64::MIN {
            i64::MIN as int
        } else {
            containment_score(score_target@, views(filter_terms@))
        }),
{
    let lower = str_ascii_lower(score_target);
    let chars = chars_of(lower.as_str());
    let ghost all = views(filter_terms@);
    let mut sum: u128 = 0;
    assert(all.take(0) =~= Seq::<Seq<char>>::empty());
    for i in 0..filter_terms.len()
        invariant
            lower@ == ascii_lower(score_target@),
            chars@ == lower@,
            all == views(filter_terms@),
            sum == position_sum(lower@, all.take(i as int)),
            sum <= i * 0xffff_ffff_ffff_ffff,
    {
        assert(all.take(i + 1).drop_last() =~= all.take(i as int));
        assert(all.take(i + 1).last() == filter_terms@[i as int]@);
        let term = chars_of(filter_terms[i].as_str());
        assert(i * 0xffff_ffff_ffff_ffff <= 0xffff_ffff_ffff_ffff * 0xffff_ffff_ffff_ffff)
            by (nonlinear_arith)
            requires
                i <= 0xffff_ffff_ffff_ffff,
        ;
        assert((i + 1) * 0xffff_ffff_ffff_ffff == i * 0xffff_ffff_ffff_ffff
            + 0xffff_ffff_ffff_ffff) by (nonlinear_arith);
        if let Some(at) = find(chars.as_slice(), term.as_slice(), 0) {
            let head = str_take(lower.as_str(), at);
            let offset: usize = head.as_str().as_bytes().len();
            sum = sum + offset as u128;
        }
    }
    assert(all.take(all.len() as int) =~= all);
    let size: usize = lower.as_str().as_bytes().len();
    let length: i64 = if size <= 2000 {
        size as i64
    } else {
        2000
    };
    let base: i64 = 2000 - length;
    if sum > 0x8000_0000_0000_0000 {
        if sum - 0x8000_0000_0000_0000 > base as u128 {
            return i64::MIN;
        }
        let over: i64 = (sum - 0x8000_0000_0000_0000) as i64;
        return (base - over) + i64::MIN;
    }
    if sum == 0x8000_0000_0000_0000 {
        return base + i64::MIN;
    }
    base - sum as i64
}

/// The score of a file or directory whose path below the roots is `relative`;
/// none where it does not match.
pub open spec fn score_of(query: FuzzyQuery, path: Seq<char>, relative: Seq<char>) -> Option<int> {
    let target = if relative.len() == 0 {
        shown_path(path)
    } else {
        relative
    };
    let filter = views(query.filter_terms@);
    match skim_score(target, query.pattern@) {
        Some(score) => Some(score as int),
        None => if filter.len() > 0 {
            Some(containment_score(target, filter))
        } else {
            None
        },
    }
}

/// The match that a file or directory is: of the kind, the extension and the
/// depth asked for, with all terms in its path, and with a score above none.
pub open spec fn scored(
    query: FuzzyQuery,
    candidate: Candidate,
    roots: Seq<SearchRoot>,
    max_depth: Option<u64>,
) -> Option<Ranked> {
    let path = candidate.path@;
    let relative = relative_to(path, roots, 0);
    let score = score_of(query, path, relative);
    if type_allows(query.target_type@, candidate.is_dir) && extension_allows(
        views(query.extensions@),
        candidate.is_dir,
        path,
    ) && depth_allows(relative, max_depth) && holds_all(
        ascii_lower(relative),
        views(query.filter_terms@),
    ) && score is Some && score->0 > 0 {
        Some(
            Ranked {
                path: shown_path(path),
                relative,
                score: score->0,
                kind: if candidate.is_dir {
                    "dir"@
                } else {
                    "file"@
                },
                size: candidate.size,
                modified_at: candidate.modified_at,
            },
        )
    } else {
        None
    }
}

/// A file or directory is one of those asked for: where files are, no directory is,
/// and where directories are, no file; a file has one of the extensions, where there
/// are some; and its path has no more components than asked for.
pub open spec fn is_asked_for(
    query: FuzzyQuery,
    candidate: Candidate,
    relative: Seq<char>,
    max_depth: Option<u64>,
) -> bool {
    &&& query.target_type@ == "file"@ ==> !candidate.is_dir
    &&& query.target_type@ == "dir"@ ==> candidate.is_dir
    &&& query.extensions@.len() > 0 && !candidate.is_dir ==> exists|i: int|
        0 <= i < query.extensions@.len() && (#[trigger] query.extensions@[i])@ == (
        match extension_of(candidate.path@) {
            Some(ext) => lowercase(ext),
            None => Seq::empty(),
        })
    &&& max_depth matches Some(most) ==> relative.len() > 0 ==> split(relative, '/').len() <= most
}

/// A file or directory is asked for exactly where its kind, extension and depth allow
/// it.
pub proof fn lemma_asked_for(
    query: FuzzyQuery,
    candidate: Candidate,
    relative: Seq<char>,
    max_depth: Option<u64>,
)
    ensures
        is_asked_for(query, candidate, relative, max_depth) == (type_allows(
            query.target_type@,
            candidate.is_dir,
        ) && extension_allows(views(query.extensions@), candidate.is_dir, candidate.path@)
            && depth_allows(relative, max_depth)),
{
    reveal_strlit("file");
    reveal_strlit("dir");
    assert("file"@.len() != "dir"@.len());
    let ext = match extension_of(candidate.path@) {
        Some(ext) => lowercase(ext),
        None => Seq::empty(),
    };
    let all = views(query.extensions@);
    if all.contains(ext) {
        let i = choose|i: int| 0 <= i < all.len() && all[i] == ext;
        assert(query.extensions@[i]@ == ext);
    }
    if exists|i: int| 0 <= i < query.extensions@.len() && (#[trigger] query.extensions@[i])@ == ext {
        let i = choose|i: int|
            0 <= i < query.extensions@.len() && (#[trigger] query.extensions@[i])@ == ext;
        assert(all[i] == ext);
    }
}

/// The match says of the candidate what it is.
pub open spec fn shows(m: Ranked, candidate: Candidate, relative: Seq<char>) -> bool {
    &&& m.path == shown_path(candidate.path@)
    &&& m.relative == relative
    &&& m.kind == "dir"@ <==> candidate.is_dir
    &&& m.kind == "file"@ <==> !candidate.is_dir
    &&& m.size == candidate.size
    &&& m.modified_at == candidate.modified_at
}

/// A match is a file or directory that is asked for, in whose path every one of the
/// terms stands, and it is shown as what it is. One that is asked for, with the terms
/// in its path and a score above none, is a match.
pub proof fn law_match_asked_for(
    query: FuzzyQuery,
    candidate: Candidate,
    roots: Seq<SearchRoot>,
    max_depth: Option<u64>,
)
    ensures
        ({
            let relative = relative_to(candidate.path@, roots, 0);
            let target = if relative.len() == 0 {
                shown_path(candidate.path@)
            } else {
                relative
            };
            let found = scored(query, candidate, roots, max_depth);
            let has_terms = forall|i: int|
                0 <= i < query.filter_terms@.len() ==> contains(
                    ascii_lower(relative),
                    (#[trigger] query.filter_terms@[i])@,
                );
            &&& found matches Some(m) ==> {
                &&& is_asked_for(query, candidate, relative, max_depth)
                &&& has_terms
                &&& m.score > 0
                &&& shows(m, candidate, relative)
                &&& (skim_score(target, query.pattern@) matches Some(score) ==> m.score == score)
            }
            &&& is_asked_for(query, candidate, relative, max_depth) && has_terms && (skim_score(
                target,
                query.pattern@,
            ) matches Some(score) && score > 0) ==> found is Some
        }),
{
    reveal_strlit("file");
    reveal_strlit("dir");
    assert("file"@.len() != "dir"@.len());
    let relative = relative_to(candidate.path@, roots, 0);
    lemma_asked_for(query, candidate, relative, max_depth);
    let lower = ascii_lower(relative);
    let all = views(query.filter_terms@);
    if holds_all(lower, all) {
        assert forall|i: int| 0 <= i < query.filter_terms@.len() implies contains(
            lower,
            (#[trigger] query.filter_terms@[i])@,
        ) by {
            assert(contains(lower, all[i]));
        }
    } else {
        let i = choose|i: int| 0 <= i < all.len() && !contains(lower, #[trigger] all[i]);
        assert(!contains(lower, query.filter_terms@[i]@));
    }
}

/// The match that a file or directory is, where it is one.
pub fn score_candidate(
    query: &FuzzyQuery,
    candidate: &Candidate,
    roots: &[SearchRoot],
    max_depth: Option<u64>,
) -> (r: Option<RankedMatch>)
    ensures
        scored(*query, *candidate, roots@, max_depth) == (match r {
            Some(m) => Some(m@),
            None => None,
        }),
        r matches Some(m) ==> is_asked_for(*query, *candidate, m.relative_path@, max_depth)
            && shows(m@, *candidate, relative_to(candidate.path@, roots@, 0)) && m.score > 0,
{
    proof {
        law_match_asked_for(*query, *candidate, roots@, max_depth);
    }
    let path = candidate.path.as_str();
    if !kind_fits(query, candidate.is_dir, path) {
        return None;
    }
    let relative = compute_relative_path(path, roots);
    if !within_max_depth(relative.as_str(), max_depth) {
        return None;
    }
    let lower = str_ascii_lower(relative.as_str());
    if !contains_all(lower.as_str(), query.filter_terms.as_slice()) {
        return None;
    }
    let normalized = normalize_display_path(path);
    let target = if relative.as_str().is_empty() {
        normalized.as_str()
    } else {
        relative.as_str()
    };
    assert(views(query.filter_terms@).len() == query.filter_terms@.len());
    let score: i64 = match fuzzy_score(target, query.pattern.as_str()) {
        Some(score) => score,
        None => {
            if query.filter_terms.len() == 0 {
                return None;
            }
            term_containment_score(target, query.filter_terms.as_slice())
        },
    };
    if score <= 0 {
        return None;
    }
    let entry_type: &'static str = if candidate.is_dir {
        "dir"
    } else {
        "file"
    };
    Some(
        RankedMatch {
            path: normalized,
            relative_path: relative,
            score,
            entry_type,
            size: candidate.size,
            modified_at: candidate.modified_at,
        },
    )
}

/// `a` is to be listed before `b`: by a higher score, else by its path.
pub open spec fn better(a: Ranked, b: Ranked) -> bool {
    ||| a.score > b.score
    ||| (a.score == b.score && precedes(a.relative, b.relative))
    ||| (a.score == b.score && a.relative == b.relative && precedes(a.path, b.path))
}

/// No match stands behind one that is to be listed after it.
pub open spec fn in_order(items: Seq<Ranked>) -> bool {
    forall|i: int, j: int|
        0 <= i < j < items.len() ==> !better(#[trigger] items[j], #[trigger] items[i])
}

/// Whether `left` is to be listed before `right`.
pub fn is_better(left: &RankedMatch, right: &RankedMatch) -> (r: bool)
    ensures
        r == better(left@, right@),
        left.score > right.score ==> r,
        left.score < right.score ==> !r,
        left.score == right.score && left.relative_path@ != right.relative_path@ ==> r == precedes(
            left.relative_path@,
            right.relative_path@,
        ),
        left.score == right.score && left.relative_path@ == right.relative_path@ ==> r == precedes(
            left.path@,
            right.path@,
        ),
{
    proof {
        lemma_precedes_total(left.relative_path@, right.relative_path@);
    }
    if left.score != right.score {
        return left.score > right.score;
    }
    if !str_eq(left.relative_path.as_str(), right.relative_path.as_str()) {
        return str_precedes(left.relative_path.as_str(), right.relative_path.as_str());
    }
    str_precedes(left.path.as_str(), right.path.as_str())
}

/// What is not listed before a match is not listed before what that match is
/// not listed before.
proof fn lemma_not_better_transitive(a: Ranked, b: Ranked, c: Ranked)
    requires
        !better(b, a),
        !better(c, b),
    ensures
        !better(c, a),
{
    lemma_precedes_total(a.relative, b.relative);
    lemma_precedes_total(b.relative, c.relative);
    lemma_precedes_total(a.relative, c.relative);
    lemma_precedes_total(a.path, b.path);
    lemma_precedes_total(b.path, c.path);
    lemma_precedes_total(a.path, c.path);
    if better(c, a) {
        if c.score == a.score {
            assert(b.score == a.score);
            if precedes(c.relative, a.relative) {
                if a.relative != b.relative {
                    assert(precedes(a.relative, b.relative));
                    lemma_precedes_transitive(c.relative, a.relative, b.relative);
                }
            } else {
                assert(c.relative == a.relative);
                assert(precedes(c.path, a.path));
                if a.relative != b.relative {
                    assert(precedes(a.relative, b.relative));
                } else if a.path != b.path {
                    assert(precedes(a.path, b.path));
                    lemma_precedes_transitive(c.path, a.path, b.path);
                }
            }
        }
    }
}

/// Before how many of the matches `m` is not to be listed: behind these it has
/// its place.
pub open spec fn place_of(items: Seq<Ranked>, m: Ranked) -> int
    decreases items.len(),
{
    if items.len() > 0 && better(m, items.last()) {
        place_of(items.drop_last(), m)
    } else {
        items.len() as int
    }
}

/// The matches with one more, in its place, and of all these the first ones, as
/// many as are returned.
pub open spec fn with_match(items: Seq<Ranked>, m: Ranked, max_results: usize) -> Seq<Ranked> {
    if max_results == 0 {
        items
    } else {
        let all = items.insert(place_of(items, m), m);
        if all.len() > max_results {
            all.take(max_results as int)
        } else {
            all
        }
    }
}

/// The place of a match lies behind those that it is not listed before, and
/// before those that it is.
proof fn lemma_place(items: Seq<Ranked>, m: Ranked)
    requires
        in_order(items),
    ensures
        0 <= place_of(items, m) <= items.len(),
        forall|i: int| 0 <= i < place_of(items, m) ==> !better(m, #[trigger] items[i]),
        forall|i: int| place_of(items, m) <= i < items.len() ==> better(m, #[trigger] items[i]),
    decreases items.len(),
{
    if items.len() > 0 {
        let last = items[items.len() - 1];
        if better(m, last) {
            let init = items.drop_last();
            assert(in_order(init)) by {
                assert forall|i: int, j: int| 0 <= i < j < init.len() implies !better(
                    #[trigger] init[j],
                    #[trigger] init[i],
                ) by {
                    assert(!better(items[j], items[i]));
                }
            }
            lemma_place(init, m);
            assert forall|i: int| 0 <= i < place_of(items, m) implies !better(
                m,
                #[trigger] items[i],
            ) by {
                assert(items[i] == init[i]);
            }
            assert forall|i: int| place_of(items, m) <= i < items.len() implies better(
                m,
                #[trigger] items[i],
            ) by {
                if i < init.len() {
                    assert(items[i] == init[i]);
                }
            }
        } else {
            assert forall|i: int| 0 <= i < items.len() implies !better(m, #[trigger] items[i]) by {
                if i < items.len() - 1 {
                    assert(!better(last, items[i]));
                    lemma_not_better_transitive(items[i], last, m);
                }
            }
        }
    }
}

/// A match that is put in its place leaves the matches in order.
proof fn lemma_inserted_in_order(items: Seq<Ranked>, m: Ranked)
    requires
        in_order(items),
    ensures
        in_order(items.insert(place_of(items, m), m)),
{
    lemma_place(items, m);
    let at = place_of(items, m);
    let all = items.insert(at, m);
    assert forall|i: int, j: int| 0 <= i < j < all.len() implies !better(
        #[trigger] all[j],
        #[trigger] all[i],
    ) by {
        if i < at {
            assert(all[i] == items[i]);
            if j < at {
                assert(all[j] == items[j]);
            } else if j > at {
                assert(all[j] == items[j - 1]);
                assert(!better(items[j - 1], items[i]));
            }
        } else {
            assert(all[j] == items[j - 1]);
            if i > at {
                assert(all[i] == items[i - 1]);
                assert(!better(items[j - 1], items[i - 1]));
            } else {
                assert(better(m, items[j - 1]));
                lemma_better_one_way(m, items[j - 1]);
            }
        }
    }
}

/// The matches stay in order, and there are never more than are returned.
pub proof fn law_matches_in_order(items: Seq<Ranked>, m: Ranked, max_results: usize)
    requires
        in_order(items),
        items.len() <= max_results,
    ensures
        in_order(with_match(items, m, max_results)),
        with_match(items, m, max_results).len() <= max_results,
{
    lemma_place(items, m);
    lemma_inserted_in_order(items, m);
    let all = items.insert(place_of(items, m), m);
    let out = with_match(items, m, max_results);
    if max_results > 0 {
        assert forall|i: int, j: int| 0 <= i < j < out.len() implies !better(
            #[trigger] out[j],
            #[trigger] out[i],
        ) by {
            assert(out[i] == all[i]);
            assert(out[j] == all[j]);
        }
    }
}

/// Of two matches at most one is to be listed before the other.
proof fn lemma_better_one_way(a: Ranked, b: Ranked)
    requires
        better(a, b),
    ensures
        !better(b, a),
{
    lemma_precedes_total(a.relative, b.relative);
    lemma_precedes_total(a.path, b.path);
}

/// Of the matches so far and one more the best are kept, as many as are
/// returned: no match that is left out is to be listed before one that is kept.
pub proof fn law_best_kept(items: Seq<Ranked>, m: Ranked, max_results: usize)
    requires
        in_order(items),
        items.len() <= max_results,
    ensures
        with_match(items, m, max_results).len() == if items.len() < max_results {
            items.len() + 1
        } else {
            max_results as nat
        },
        forall|i: int|
            0 <= i < with_match(items, m, max_results).len() ==> items.push(m).contains(
                #[trigger] with_match(items, m, max_results)[i],
            ),
        forall|x: Ranked, i: int|
            #![trigger items.push(m).contains(x), with_match(items, m, max_results)[i]]
            items.push(m).contains(x) && !with_match(items, m, max_results).contains(x) && 0 <= i
                < with_match(items, m, max_results).len() ==> !better(
                x,
                with_match(items, m, max_results)[i],
            ),
        items.len() < max_results ==> forall|x: Ranked| #[trigger]
            items.push(m).contains(x) ==> with_match(items, m, max_results).contains(x),
{
    lemma_place(items, m);
    let at = place_of(items, m);
    let all = items.insert(at, m);
    let out = with_match(items, m, max_results);
    if max_results > 0 {
        assert forall|i: int| 0 <= i < out.len() implies items.push(m).contains(
            #[trigger] out[i],
        ) by {
            assert(out[i] == all[i]);
            if i < at {
                assert(items.push(m)[i] == out[i]);
            } else if i == at {
                assert(items.push(m)[items.len() as int] == out[i]);
            } else {
                assert(items.push(m)[i - 1] == out[i]);
            }
        }
        lemma_inserted_in_order(items, m);
        assert forall|x: Ranked| #[trigger] items.push(m).contains(x) implies out.contains(x) || (
        out.len() < all.len() && all.skip(out.len() as int).contains(x)) by {
            let k = choose|k: int| 0 <= k < items.push(m).len() && items.push(m)[k] == x;
            let j = if k == items.len() {
                at
            } else if k < at {
                k
            } else {
                k + 1
            };
            assert(all[j] == x);
            if j < out.len() {
                assert(out[j] == x);
            } else {
                assert(all.skip(out.len() as int)[j - out.len()] == x);
            }
        }
        assert forall|x: Ranked, i: int|
            #![trigger items.push(m).contains(x), out[i]]
            items.push(m).contains(x) && !out.contains(x) && 0 <= i < out.len() implies !better(
            x,
            out[i],
        ) by {
            let rest = all.skip(out.len() as int);
            let k = choose|k: int| 0 <= k < rest.len() && rest[k] == x;
            assert(all[out.len() + k] == x);
            assert(out[i] == all[i]);
        }
    }
}

/// A match that is taken up by a full list is not to be listed behind one that
/// the list had left out.
proof fn lemma_kept_ahead_of_left_out(
    items: Seq<Ranked>,
    m: Ranked,
    max_results: usize,
    x: Ranked,
    i: int,
)
    requires
        in_order(items),
        items.len() == max_results,
        forall|k: int| 0 <= k < items.len() ==> !better(x, #[trigger] items[k]),
        0 <= i < with_match(items, m, max_results).len(),
        with_match(items, m, max_results)[i] == m,
    ensures
        !better(x, m),
{
    lemma_place(items, m);
    let at = place_of(items, m);
    let all = items.insert(at, m);
    let last = items[items.len() - 1];
    assert(!better(x, last));
    if at < items.len() {
        assert(better(m, last));
        lemma_better_one_way(m, last);
        lemma_not_better_transitive(m, last, x);
    } else {
        assert(all[i] == items[i]);
        assert(!better(x, items[i]));
    }
}

/// The matches that are kept of some that are found one after the other.
pub open spec fn best_of(found: Seq<Ranked>, max_results: usize) -> Seq<Ranked>
    decreases found.len(),
{
    if found.len() == 0 {
        Seq::empty()
    } else {
        with_match(best_of(found.drop_last(), max_results), found.last(), max_results)
    }
}

/// A search keeps the best of all that it finds, in order and as many as are
/// returned, whatever the order in which it finds them.
pub proof fn law_best_found(found: Seq<Ranked>, max_results: usize)
    ensures
        in_order(best_of(found, max_results)),
        best_of(found, max_results).len() == if found.len() < max_results {
            found.len() as int
        } else {
            max_results as int
        },
        forall|i: int|
            0 <= i < best_of(found, max_results).len() ==> found.contains(
                #[trigger] best_of(found, max_results)[i],
            ),
        forall|x: Ranked, i: int|
            #![trigger found.contains(x), best_of(found, max_results)[i]]
            found.contains(x) && !best_of(found, max_results).contains(x) && 0 <= i < best_of(
                found,
                max_results,
            ).len() ==> !better(x, best_of(found, max_results)[i]),
        found.len() <= max_results ==> forall|x: Ranked| #[trigger]
            found.contains(x) ==> best_of(found, max_results).contains(x),
    decreases found.len(),
{
    if found.len() > 0 {
        let init = found.drop_last();
        let m = found.last();
        let before = best_of(init, max_results);
        let out = best_of(found, max_results);
        law_best_found(init, max_results);
        law_matches_in_order(before, m, max_results);
        law_best_kept(before, m, max_results);
        assert(found =~= init.push(m));
        assert forall|i: int| 0 <= i < out.len() implies found.contains(#[trigger] out[i]) by {
            assert(before.push(m).contains(out[i]));
            let k = choose|k: int| 0 <= k < before.push(m).len() && before.push(m)[k] == out[i];
            if k < before.len() {
                assert(init.contains(before[k]));
                let j = choose|j: int| 0 <= j < init.len() && init[j] == before[k];
                assert(found[j] == out[i]);
            } else {
                assert(found[init.len() as int] == out[i]);
            }
        }
        assert forall|x: Ranked| #[trigger] found.contains(x) implies before.push(m).contains(x)
            || (init.contains(x) && !before.contains(x)) by {
            let k = choose|k: int| 0 <= k < found.len() && found[k] == x;
            if k == init.len() {
                assert(before.push(m)[before.len() as int] == x);
            } else {
                assert(init[k] == x);
                if before.contains(x) {
                    let j = choose|j: int| 0 <= j < before.len() && before[j] == x;
                    assert(before.push(m)[j] == x);
                }
            }
        }
        assert forall|x: Ranked, i: int|
            #![trigger found.contains(x), out[i]]
            found.contains(x) && !out.contains(x) && 0 <= i < out.len() implies !better(
            x,
            out[i],
        ) by {
            if !before.push(m).contains(x) {
                assert(before.push(m).contains(out[i]));
                let j = choose|j: int|
                    0 <= j < before.push(m).len() && before.push(m)[j] == out[i];
                if j < before.len() {
                    assert(before[j] == out[i]);
                } else {
                    lemma_kept_ahead_of_left_out(before, m, max_results, x, i);
                }
            }
        }
    }
}

/// Takes up one more match.
pub fn push_ranked_match(ranked: &mut Vec<RankedMatch>, candidate: RankedMatch, max_results: usize)
    requires
        in_order(ranked_views(old(ranked)@)),
    ensures
        ranked_views(final(ranked)@) == with_match(
            ranked_views(old(ranked)@),
            candidate@,
            max_results,
        ),
{
    let ghost before = ranked_views(ranked@);
    assert(before.len() == ranked@.len());
    if max_results == 0 {
        return ;
    }
    let mut at: usize = ranked.len();
    assert(before.take(before.len() as int) =~= before);
    while at > 0 && is_better(&candidate, &ranked[at - 1])
        invariant
            at <= ranked@.len(),
            before == ranked_views(ranked@),
            place_of(before.take(at as int), candidate@) == place_of(before, candidate@),
        ensures
            at == place_of(before, candidate@),
            at <= ranked@.len(),
        decreases at,
    {
        assert(before.take(at as int).last() == ranked@[at - 1]@);
        assert(before.take(at as int).drop_last() =~= before.take(at - 1));
        at -= 1;
    }
    let ghost m = candidate@;
    ranked.insert(at, candidate);
    assert(ranked_views(ranked@) =~= before.insert(at as int, m));
    let ghost all = ranked_views(ranked@);
    if ranked.len() > max_results {
        ranked.truncate(max_results);
        assert(ranked_views(ranked@) =~= all.take(max_results as int));
    }
}

/// How the search goes: how many entries were looked at, and how many roots by
/// the index, in part by the index, or by walking through them.
pub struct FuzzyStats {
    pub entries_scanned: usize,
    pub indexed_roots_used: usize,
    pub partial_index_roots_used: usize,
    pub filesystem_roots_walked: usize,
    pub broad_query_roots_skipped: usize,
    pub warnings: Vec<String>,
}

/// What a search has found so far.
pub struct FuzzySearch {
    pub ranked: Vec<RankedMatch>,
    pub seen: Vec<String>,
    pub stats: FuzzyStats,
}

/// What a search has found so far.
pub struct Found {
    pub ranked: Seq<Ranked>,
    pub seen: Set<Seq<char>>,
    pub scanned: nat,
    pub indexed: nat,
    pub partial: nat,
    pub walked: nat,
    pub broad: nat,
    pub warnings: Seq<Seq<char>>,
}

impl View for FuzzySearch {
    type V = Found;

    open spec fn view(&self) -> Found {
        Found {
            ranked: ranked_views(self.ranked@),
            seen: text_set(self.seen@),
            scanned: self.stats.entries_scanned as nat,
            indexed: self.stats.indexed_roots_used as nat,
            partial: self.stats.partial_index_roots_used as nat,
            walked: self.stats.filesystem_roots_walked as nat,
            broad: self.stats.broad_query_roots_skipped as nat,
            warnings: views(self.stats.warnings@),
        }
    }
}

impl FuzzySearch {
    /// The matches are in order, no more than are returned, and the paths that
    /// were seen are sorted.
    pub open spec fn wf(&self, max_results: usize) -> bool {
        &&& in_order(ranked_views(self.ranked@))
        &&& self.ranked@.len() <= max_results
        &&& ascending(views(self.seen@))
    }

    /// A search that has found nothing.
    pub fn new() -> (r: Self)
        ensures
            forall|n: usize| r.wf(n),
            r@ == nothing_found(),
    {
        let out = FuzzySearch {
            ranked: Vec::new(),
            seen: Vec::new(),
            stats: FuzzyStats {
                entries_scanned: 0,
                indexed_roots_used: 0,
                partial_index_roots_used: 0,
                filesystem_roots_walked: 0,
                broad_query_roots_skipped: 0,
                warnings: Vec::new(),
            },
        };
        assert(ranked_views(out.ranked@) =~= Seq::<Ranked>::empty());
        assert(text_set(out.seen@) =~= Set::<Seq<char>>::empty());
        assert(views(out.stats.warnings@) =~= Seq::<Seq<char>>::empty());
        out
    }
}

/// Nothing was found.
pub open spec fn nothing_found() -> Found {
    Found {
        ranked: Seq::empty(),
        seen: Set::empty(),
        scanned: 0,
        indexed: 0,
        partial: 0,
        walked: 0,
        broad: 0,
        warnings: Seq::empty(),
    }
}

/// What is found after a match is taken up, unless its path was seen.
pub open spec fn with_new(f: Found, m: Option<Ranked>, max_results: usize) -> Found {
    match m {
        None => f,
        Some(m) => if f.seen.contains(m.path) {
            f
        } else {
            Found {
                ranked: with_match(f.ranked, m, max_results),
                seen: f.seen.insert(m.path),
                ..f
            }
        },
    }
}

/// Every match was seen, and no path is listed twice.
pub open spec fn paths_distinct(f: Found) -> bool {
    &&& forall|i: int| 0 <= i < f.ranked.len() ==> f.seen.contains((#[trigger] f.ranked[i]).path)
    &&& forall|i: int, j: int|
        0 <= i < j < f.ranked.len() ==> (#[trigger] f.ranked[i]).path != (
        #[trigger] f.ranked[j]).path
}

/// A search never lists a path twice.
pub proof fn law_paths_distinct(f: Found, m: Option<Ranked>, max_results: usize)
    requires
        in_order(f.ranked),
        paths_distinct(f),
    ensures
        paths_distinct(with_new(f, m, max_results)),
{
    if let Some(item) = m {
        lemma_place(f.ranked, item);
        let at = place_of(f.ranked, item);
        let all = f.ranked.insert(at, item);
        let out = with_new(f, m, max_results);
        if !f.seen.contains(item.path) {
            assert forall|i: int| 0 <= i < out.ranked.len() implies out.seen.contains(
                (#[trigger] out.ranked[i]).path,
            ) by {
                if out.ranked != f.ranked {
                    assert(out.ranked[i] == all[i]);
                    assert(i < at ==> all[i] == f.ranked[i]);
                    assert(i > at ==> all[i] == f.ranked[i - 1]);
                }
            }
            assert forall|i: int, j: int| 0 <= i < j < out.ranked.len() implies (
            #[trigger] out.ranked[i]).path != (#[trigger] out.ranked[j]).path by {
                if out.ranked != f.ranked {
                    assert(out.ranked[i] == all[i] && out.ranked[j] == all[j]);
                    assert(i < at ==> all[i] == f.ranked[i]);
                    assert(i > at ==> all[i] == f.ranked[i - 1]);
                    assert(j < at ==> all[j] == f.ranked[j]);
                    assert(j > at ==> all[j] == f.ranked[j - 1]);
                }
            }
        }
    }
}

/// Takes up a match, unless its path was seen.
pub fn take_up(search: &mut FuzzySearch, found: Option<RankedMatch>, max_results: usize)
    requires
        old(search).wf(max_results),
    ensures
        final(search).wf(max_results),
        final(search)@ == with_new(
            old(search)@,
            match found {
                Some(m) => Some(m@),
                None => None,
            },
            max_results,
        ),
{
    if let Some(m) = found {
        let ghost before = search@;
        let ghost item = m@;
        let fresh = insert_new(&mut search.seen, m.path.as_str());
        if fresh {
            proof {
                law_matches_in_order(before.ranked, item, max_results);
            }
            push_ranked_match(&mut search.ranked, m, max_results);
            assert(ranked_views(search.ranked@).len() == search.ranked@.len());
        } else {
            assert(before.seen.insert(item.path) =~= before.seen);
        }
    }
}

/// What is found after a file or directory was considered.
pub open spec fn considered(
    f: Found,
    query: FuzzyQuery,
    candidate: Candidate,
    roots: Seq<SearchRoot>,
    max_depth: Option<u64>,
) -> Found {
    with_new(f, scored(query, candidate, roots, max_depth), query.max_results)
}

/// Considers a file or directory.
pub fn consider_candidate(
    search: &mut FuzzySearch,
    query: &FuzzyQuery,
    candidate: &Candidate,
    roots: &[SearchRoot],
    max_depth: Option<u64>,
)
    requires
        old(search).wf(query.max_results),
    ensures
        final(search).wf(query.max_results),
        final(search)@ == considered(old(search)@, *query, *candidate, roots@, max_depth),
{
    let found = score_candidate(query, candidate, roots, max_depth);
    take_up(search, found, query.max_results);
}

/// What is found after the first `n` of the candidates were considered.
pub open spec fn considered_all(
    f: Found,
    query: FuzzyQuery,
    candidates: Seq<Candidate>,
    roots: Seq<SearchRoot>,
    n: int,
) -> Found
    decreases n,
{
    if n <= 0 {
        f
    } else {
        considered(
            considered_all(f, query, candidates, roots, n - 1),
            query,
            candidates[n - 1],
            roots,
            query.max_depth,
        )
    }
}

/// Where a walk through the file system would find too much: several words,
/// none of them with a sign of a path, and nothing else to go by.
pub open spec fn is_broad(query: FuzzyQuery) -> bool {
    let pattern = query.pattern@;
    &&& words(pattern).len() >= 2
    &&& query.filter_terms@.len() >= 2
    &&& !contains(pattern, "/"@)
    &&& !contains(pattern, "\\"@)
    &&& !contains(pattern, "."@)
    &&& query.extensions@.len() == 0
    &&& query.max_depth is None
}

/// Whether a walk through the file system would find too much.
pub fn should_skip_broad_filesystem_fallback(query: &FuzzyQuery) -> (r: bool)
    ensures
        r == is_broad(*query),
{
    let pattern = query.pattern.as_str();
    let found = split_words(pattern);
    assert(views(found@).len() == found@.len());
    found.len() >= 2 && query.filter_terms.len() >= 2 && !str_contains(pattern, "/")
        && !str_contains(pattern, "\\") && !str_contains(pattern, ".") && query.extensions.len()
        == 0 && query.max_depth.is_none()
}

/// What stands at a root: nothing, a file, something else, or a directory with
/// what the index says of it, where it is there.
pub enum RootFacts {
    Missing,
    File(Candidate),
    Other,
    Directory { own: Candidate, index_complete: bool, candidates: Option<Vec<Candidate>> },
}

/// The warning that a walk was left out.
pub open spec fn broad_words(pattern: Seq<char>, root: Seq<char>) -> Seq<char> {
    "Skipped filesystem fallback for broad fuzzy pattern '"@ + pattern + "' under indexed root '"@
        + root
        + "'; use a concrete basename/path token, extensions, max_depth, or a narrower path."@
}

/// What is found at a root by what is known of it, and whether it is to be
/// walked through as well.
pub open spec fn searched_root(
    f: Found,
    query: FuzzyQuery,
    root: RootFacts,
    roots: Seq<SearchRoot>,
) -> (Found, bool) {
    match root {
        RootFacts::Missing => (f, false),
        RootFacts::Other => (f, false),
        RootFacts::File(candidate) => (considered(f, query, candidate, roots, None), false),
        RootFacts::Directory { own, index_complete, candidates } => match candidates {
            None => (f, true),
            Some(list) => {
                let counted = Found {
                    indexed: capped_sum(f.indexed, 1),
                    partial: if index_complete {
                        f.partial
                    } else {
                        capped_sum(f.partial, 1)
                    },
                    ..f
                };
                let with_own = if query.target_type@ != "file"@ {
                    considered(counted, query, own, roots, query.max_depth)
                } else {
                    counted
                };
                let all = considered_all(with_own, query, list@, roots, list@.len() as int);
                if all.ranked.len() > f.ranked.len() {
                    (all, false)
                } else if index_complete && is_broad(query) {
                    (
                        Found {
                            broad: capped_sum(all.broad, 1),
                            warnings: all.warnings.push(broad_words(query.pattern@, own.path@)),
                            ..all
                        },
                        false,
                    )
                } else {
                    (all, true)
                }
            },
        },
    }
}

/// Considers all the candidates.
fn consider_all(
    search: &mut FuzzySearch,
    query: &FuzzyQuery,
    candidates: &[Candidate],
    roots: &[SearchRoot],
)
    requires
        old(search).wf(query.max_results),
    ensures
        final(search).wf(query.max_results),
        final(search)@ == considered_all(
            old(search)@,
            *query,
            candidates@,
            roots@,
            candidates@.len() as int,
        ),
{
    for i in 0..candidates.len()
        invariant
            search.wf(query.max_results),
            search@ == considered_all(old(search)@, *query, candidates@, roots@, i as int),
    {
        consider_candidate(search, query, &candidates[i], roots, query.max_depth);
    }
}

/// Searches a root by what is known of it; says whether it is to be walked
/// through as well.
pub fn process_search_root(
    search: &mut FuzzySearch,
    query: &FuzzyQuery,
    root: &RootFacts,
    roots: &[SearchRoot],
) -> (r: bool)
    requires
        old(search).wf(query.max_results),
    ensures
        final(search).wf(query.max_results),
        (final(search)@, r) == searched_root(old(search)@, *query, *root, roots@),
{
    match root {
        RootFacts::Missing => false,
        RootFacts::Other => false,
        RootFacts::File(candidate) => {
            consider_candidate(search, query, candidate, roots, None);
            false
        },
        RootFacts::Directory { own, index_complete, candidates } => match candidates {
            None => true,
            Some(list) => {
                let before: usize = search.ranked.len();
                assert(ranked_views(search.ranked@).len() == search.ranked@.len());
                search.stats.indexed_roots_used = search.stats.indexed_roots_used.saturating_add(1);
                if !*index_complete {
                    search.stats.partial_index_roots_used =
                    search.stats.partial_index_roots_used.saturating_add(1);
                }
                if !str_eq(query.target_type.as_str(), "file") {
                    consider_candidate(search, query, own, roots, query.max_depth);
                }
                consider_all(search, query, list.as_slice(), roots);
                assert(ranked_views(search.ranked@).len() == search.ranked@.len());
                if search.ranked.len() > before {
                    return false;
                }
                if *index_complete && should_skip_broad_filesystem_fallback(query) {
                    search.stats.broad_query_roots_skipped =
                    search.stats.broad_query_roots_skipped.saturating_add(1);
                    let mut words = "Skipped filesystem fallback for broad fuzzy pattern '".to_owned();
                    words.append(query.pattern.as_str());
                    words.append("' under indexed root '");
                    words.append(own.path.as_str());
                    words.append(
                        "'; use a concrete basename/path token, extensions, max_depth, or a narrower path.",
                    );
                    let ghost warned = search.stats.warnings@;
                    let ghost said = words@;
                    search.stats.warnings.push(words);
                    assert(views(search.stats.warnings@) =~= views(warned).push(said));
                    return false;
                }
                true
            },
        },
    }
}

/// An entry that a walk came to; `is_file` says that it is a regular file.
pub struct WalkedEntry {
    pub candidate: Candidate,
    pub is_file: bool,
}

/// The entry is of the kind asked for.
pub open spec fn walk_allows(target_type: Seq<char>, entry: WalkedEntry) -> bool {
    !(target_type == "file"@ && !entry.is_file) && !(target_type == "dir"@
        && !entry.candidate.is_dir)
}

/// What a walk alone finds among its first `n` entries.
pub open spec fn walk_found(
    query: FuzzyQuery,
    entries: Seq<WalkedEntry>,
    roots: Seq<SearchRoot>,
    n: int,
) -> Found
    decreases n,
{
    if n <= 0 {
        nothing_found()
    } else {
        let before = walk_found(query, entries, roots, n - 1);
        if walk_allows(query.target_type@, entries[n - 1]) {
            considered(before, query, entries[n - 1].candidate, roots, query.max_depth)
        } else {
            before
        }
    }
}

/// What is found after the first `n` matches of a walk were taken up.
pub open spec fn with_walk(f: Found, items: Seq<Ranked>, max_results: usize, n: int) -> Found
    decreases n,
{
    if n <= 0 {
        f
    } else {
        with_new(with_walk(f, items, max_results, n - 1), Some(items[n - 1]), max_results)
    }
}

/// What is found after a walk: `scanned` is the number of its entries.
pub open spec fn walked_root(
    f: Found,
    query: FuzzyQuery,
    entries: Seq<WalkedEntry>,
    scanned: usize,
    roots: Seq<SearchRoot>,
) -> Found {
    let own = walk_found(query, entries, roots, entries.len() as int).ranked;
    with_walk(
        Found {
            walked: capped_sum(f.walked, 1),
            scanned: capped_sum(f.scanned, scanned as nat),
            ..f
        },
        own,
        query.max_results,
        own.len() as int,
    )
}

/// A copy of a match.
fn copy_match(m: &RankedMatch) -> (r: RankedMatch)
    ensures
        r@ == m@,
{
    RankedMatch {
        path: m.path.clone(),
        relative_path: m.relative_path.clone(),
        score: m.score,
        entry_type: m.entry_type,
        size: m.size,
        modified_at: m.modified_at,
    }
}

/// Takes up what a walk through a root found: `entries` are those whose kind is
/// known, `scanned` counts all of them.
pub fn process_walk(
    search: &mut FuzzySearch,
    query: &FuzzyQuery,
    entries: &[WalkedEntry],
    scanned: usize,
    roots: &[SearchRoot],
)
    requires
        old(search).wf(query.max_results),
    ensures
        final(search).wf(query.max_results),
        final(search)@ == walked_root(old(search)@, *query, entries@, scanned, roots@),
{
    let mut own = FuzzySearch::new();
    for i in 0..entries.len()
        invariant
            own.wf(query.max_results),
            own@ == walk_found(*query, entries@, roots@, i as int),
    {
        let entry = &entries[i];
        let wrong_kind = (str_eq(query.target_type.as_str(), "file") && !entry.is_file) || (str_eq(
            query.target_type.as_str(),
            "dir",
        ) && !entry.candidate.is_dir);
        if !wrong_kind {
            consider_candidate(&mut own, query, &entry.candidate, roots, query.max_depth);
        }
    }
    search.stats.filesystem_roots_walked = search.stats.filesystem_roots_walked.saturating_add(1);
    search.stats.entries_scanned = search.stats.entries_scanned.saturating_add(scanned);
    let ghost start = search@;
    let ghost items = ranked_views(own.ranked@);
    for i in 0..own.ranked.len()
        invariant
            items == ranked_views(own.ranked@),
            search.wf(query.max_results),
            search@ == with_walk(start, items, query.max_results, i as int),
    {
        assert(items[i as int] == own.ranked@[i as int]@);
        take_up(search, Some(copy_match(&own.ranked[i])), query.max_results);
    }
}

/// Of two texts that hold the terms, one that is no longer and holds them no further back
/// scores no lower.
pub proof fn law_containment_score(a: Seq<char>, b: Seq<char>, filter: Seq<Seq<char>>)
    requires
        byte_len(ascii_lower(a)) <= byte_len(ascii_lower(b)),
        position_sum(ascii_lower(a), filter) <= position_sum(ascii_lower(b), filter),
    ensures
        containment_score(a, filter) >= containment_score(b, filter),
        byte_len(ascii_lower(a)) < byte_len(ascii_lower(b)) <= 2000 ==> containment_score(a, filter)
            > containment_score(b, filter),
        position_sum(ascii_lower(a), filter) < position_sum(ascii_lower(b), filter)
            ==> containment_score(a, filter) > containment_score(b, filter),
{
}

} // verus!
