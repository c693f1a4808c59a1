//! Finding files and directories by a glob pattern.

use vstd::prelude::*;

use crate::globs::{glob_is_valid, glob_match, glob_matches, glob_valid};
use crate::lines::{split, str_split};
use crate::paths::{file_name, file_name_of, normalize_display_path, shown_path};
use crate::text::{
    ascii_lower, byte_len, chars_of, replace_all, str_ascii_lower, str_eq, str_replace, str_skip,
    str_trim, trim, views,
};
use crate::tools::compare_directories::{arg_usize, capped_sum, clamped};
use crate::tools::compare_summary::distinct;
use crate::tools::fuzzy_find::{
    compute_relative_path, depth_allows, extension_allows, is_asked_for, kind_fits,
    lemma_asked_for, ranked_views, relative_to, shows, take_up, type_allows, with_new, within_max_depth, Candidate, Found, FuzzyQuery, FuzzySearch,
    Ranked, RankedMatch, SearchRoot, MAX_FUZZY_RESULTS,
};
use crate::tools::project_map::name_or_none;
use crate::words::{are_distinct, find_terms, terms};

verus! {

/// The pattern has a sign that only a glob pattern has.
pub open spec fn has_wildcard(pattern: Seq<char>) -> bool {
    exists|i: int|
        0 <= i < pattern.len() && (#[trigger] pattern[i] == '*' || pattern[i] == '?' || pattern[i]
            == '[')
}

/// The glob pattern that a pattern is, in lower case and with slashes; none
/// where it is not one.
pub open spec fn glob_of(pattern: Seq<char>) -> Option<Seq<char>> {
    let normal = ascii_lower(replace_all(pattern, "\\"@, "/"@));
    if has_wildcard(pattern) && glob_is_valid(normal) {
        Some(normal)
    } else {
        None
    }
}

/// The glob pattern that a pattern is.
pub fn compile_glob_pattern(pattern: &str) -> (r: Option<String>)
    ensures
        (match r {
            Some(g) => Some(g@),
            None => None,
        }) == glob_of(pattern@),
{
    let chars = chars_of(pattern);
    let mut found = false;
    for i in 0..chars.len()
        invariant
            chars@ == pattern@,
            found == exists|k: int|
                0 <= k < i && (#[trigger] pattern@[k] == '*' || pattern@[k] == '?' || pattern@[k]
                    == '['),
    {
        if chars[i] == '*' || chars[i] == '?' || chars[i] == '[' {
            assert(pattern@[i as int] == chars@[i as int]);
            found = true;
        }
    }
    if !found {
        return None;
    }
    proof {
        reveal_strlit("\\");
    }
    let normal = str_ascii_lower(str_replace(pattern, "\\", "/").as_str());
    if glob_valid(normal.as_str()) {
        Some(normal)
    } else {
        None
    }
}

/// The words of a glob pattern that an index can look for.
pub fn glob_anchor_terms(pattern: &str) -> (r: Vec<String>)
    ensures
        are_distinct(terms(pattern@, 3), views(r@)),
{
    let found = find_terms(pattern, 3);
    distinct(found.as_slice())
}

/// The words that the path of a match must hold: none where the pattern has
/// fewer than two.
pub fn pattern_filter_terms(pattern: &str) -> (r: Vec<String>)
    ensures
        terms(pattern@, 2).len() < 2 ==> r@.len() == 0,
        terms(pattern@, 2).len() >= 2 ==> are_distinct(terms(pattern@, 2), views(r@)),
{
    let found = find_terms(pattern, 2);
    assert(views(found@).len() == found@.len());
    if found.len() < 2 {
        return Vec::new();
    }
    distinct(found.as_slice())
}

/// The text without the dots that it begins with.
pub open spec fn without_dots(s: Seq<char>) -> Seq<char>
    decreases s.len(),
{
    if s.len() > 0 && s[0] == '.' {
        without_dots(s.skip(1))
    } else {
        s
    }
}

/// An extension that is asked for, without the dots before it; it may be empty.
pub open spec fn cleaned(asked: Seq<char>) -> Seq<char> {
    ascii_lower(without_dots(trim(asked)))
}

/// An extension that is asked for, without the dots before it.
fn clean_extension(asked: &str) -> (r: String)
    ensures
        r@ == cleaned(asked@),
{
    let trimmed = str_trim(asked);
    let chars = chars_of(trimmed.as_str());
    let mut i: usize = 0;
    assert(chars@.skip(0) =~= chars@);
    while i < chars.len() && chars[i] == '.'
        invariant
            i <= chars@.len(),
            without_dots(chars@) == without_dots(chars@.skip(i as int)),
        ensures
            i <= chars@.len(),
            without_dots(chars@) == chars@.skip(i as int),
        decreases chars@.len() - i,
    {
        assert(chars@.skip(i as int)[0] == '.');
        assert(chars@.skip(i as int).skip(1) =~= chars@.skip(i + 1));
        i += 1;
    }
    let rest = str_skip(trimmed.as_str(), i);
    str_ascii_lower(rest.as_str())
}

/// The extensions that are asked for, without those that are empty.
pub open spec fn cleaned_all(asked: Seq<Seq<char>>) -> Seq<Seq<char>>
    decreases asked.len(),
{
    if asked.len() == 0 {
        Seq::empty()
    } else {
        let before = cleaned_all(asked.drop_last());
        let last = cleaned(asked.last());
        if last.len() > 0 {
            before.push(last)
        } else {
            before
        }
    }
}

/// The extensions that are asked for, without those that are empty.
pub fn clean_extensions(asked: &[String]) -> (r: Vec<String>)
    ensures
        views(r@) == cleaned_all(views(asked@)),
{
    let ghost all = views(asked@);
    let mut out: Vec<String> = Vec::new();
    assert(views(out@) =~= Seq::<Seq<char>>::empty());
    assert(all.take(0) =~= Seq::<Seq<char>>::empty());
    for i in 0..asked.len()
        invariant
            all == views(asked@),
            views(out@) == cleaned_all(all.take(i as int)),
    {
        assert(all.take(i + 1).drop_last() =~= all.take(i as int));
        assert(all.take(i + 1).last() == asked@[i as int]@);
        let extension = clean_extension(asked[i].as_str());
        if !extension.as_str().is_empty() {
            let ghost before = views(out@);
            let ghost name = extension@;
            out.push(extension);
            assert(views(out@) =~= before.push(name));
        }
    }
    assert(all.take(all.len() as int) =~= all);
    out
}

/// The patterns that a walk for files is limited to: one for each extension.
pub open spec fn extension_globs(
    target_type: Seq<char>,
    extensions: Seq<Seq<char>>,
) -> Seq<Seq<char>>
    decreases extensions.len(),
{
    if target_type != "file"@ || extensions.len() == 0 {
        Seq::empty()
    } else {
        let before = extension_globs(target_type, extensions.drop_last());
        if extensions.last().len() > 0 {
            before.push("*."@ + extensions.last())
        } else {
            before
        }
    }
}

/// The patterns that a walk for files is limited to.
pub fn extension_override_globs(target_type: &str, extensions: &[String]) -> (r: Vec<String>)
    ensures
        views(r@) == extension_globs(target_type@, views(extensions@)),
{
    let ghost all = views(extensions@);
    let mut out: Vec<String> = Vec::new();
    assert(views(out@) =~= Seq::<Seq<char>>::empty());
    if !str_eq(target_type, "file") {
        return out;
    }
    assert(all.take(0) =~= Seq::<Seq<char>>::empty());
    for i in 0..extensions.len()
        invariant
            all == views(extensions@),
            target_type@ == "file"@,
            views(out@) == extension_globs(target_type@, all.take(i as int)),
    {
        assert(all.take(i + 1).drop_last() =~= all.take(i as int));
        assert(all.take(i + 1).last() == extensions@[i as int]@);
        if !extensions[i].as_str().is_empty() {
            let mut glob = "*.".to_owned();
            glob.append(extensions[i].as_str());
            let ghost before = views(out@);
            let ghost text = glob@;
            out.push(glob);
            assert(views(out@) =~= before.push(text));
        }
    }
    assert(all.take(all.len() as int) =~= all);
    out
}

/// How many paths the index is asked for: many more than are returned, within
/// limits.
pub open spec fn shortlist_limit(max_results: usize) -> int {
    if max_results * 64 < 256 {
        256
    } else if max_results * 64 > 4096 {
        4096
    } else {
        max_results * 64
    }
}

/// How many paths the index is asked for.
pub fn indexed_shortlist_limit(max_results: usize) -> (r: usize)
    ensures
        r == shortlist_limit(max_results),
{
    if max_results >= 64 {
        4096
    } else if max_results <= 4 {
        256
    } else {
        max_results * 64
    }
}

/// What a caller asks for.
pub struct FuzzyArgs {
    pub pattern: Option<String>,
    pub target_type: Option<String>,
    pub extensions: Option<Vec<String>>,
    pub max_depth: Option<u64>,
    pub max_results: Option<u64>,
}

/// What is to be done: a search for what the query says, by a glob pattern where
/// there is one.
pub struct FuzzyPlan {
    pub query: FuzzyQuery,
    pub glob: Option<String>,
}

/// The plan is the one for what was asked for.
pub open spec fn is_plan(args: FuzzyArgs, plan: FuzzyPlan) -> bool {
    let query = plan.query;
    &&& args.pattern is Some
    &&& query.pattern@ == args.pattern->0@
    &&& query.target_type@ == (match args.target_type {
        Some(kind) => kind@,
        None => "any"@,
    })
    &&& views(query.extensions@) == (match args.extensions {
        Some(list) => cleaned_all(views(list@)),
        None => Seq::empty(),
    })
    &&& query.max_depth == args.max_depth
    &&& query.max_results == clamped(args.max_results, 50, 0, MAX_FUZZY_RESULTS)
    &&& (match plan.glob {
        Some(g) => Some(g@),
        None => None,
    }) == glob_of(args.pattern->0@)
    &&& terms(args.pattern->0@, 2).len() < 2 ==> query.filter_terms@.len() == 0
    &&& terms(args.pattern->0@, 2).len() >= 2 ==> are_distinct(
        terms(args.pattern->0@, 2),
        views(query.filter_terms@),
    )
}

/// Plans a search. There is no plan without a pattern.
pub fn plan_search(args: &FuzzyArgs) -> (r: Result<FuzzyPlan, &'static str>)
    ensures
        args.pattern is None ==> r is Err && r->Err_0@ == "Missing/empty pattern"@,
        args.pattern is Some ==> r is Ok && is_plan(*args, r->Ok_0),
        r matches Ok(plan) ==> {
            &&& args.max_results is None ==> plan.query.max_results == 50
            &&& args.max_results matches Some(n) ==> n <= 500 ==> plan.query.max_results == n
            &&& plan.query.max_results <= 500
            &&& plan.query.max_depth == args.max_depth
            &&& args.target_type matches Some(kind) ==> plan.query.target_type@ == kind@
            &&& args.extensions is None ==> plan.query.extensions@.len() == 0
            &&& plan.glob is Some ==> has_wildcard(args.pattern->0@)
        },
{
    match &args.pattern {
        None => Err("Missing/empty pattern"),
        Some(pattern) => {
            let extensions: Vec<String> = match &args.extensions {
                Some(list) => clean_extensions(list.as_slice()),
                None => Vec::new(),
            };
            assert(args.extensions is None ==> views(extensions@) =~= Seq::<Seq<char>>::empty());
            let target_type: String = match &args.target_type {
                Some(kind) => kind.clone(),
                None => "any".to_owned(),
            };
            Ok(
                FuzzyPlan {
                    query: FuzzyQuery {
                        pattern: pattern.clone(),
                        target_type,
                        extensions,
                        filter_terms: pattern_filter_terms(pattern.as_str()),
                        max_depth: args.max_depth,
                        max_results: arg_usize(args.max_results, 50, 0, MAX_FUZZY_RESULTS),
                    },
                    glob: compile_glob_pattern(pattern.as_str()),
                },
            )
        },
    }
}

/// The score of a match: the better the less deep it lies and the shorter its
/// path is.
pub open spec fn glob_score(relative: Seq<char>) -> int {
    let length = if byte_len(relative) <= 9000 {
        byte_len(relative) as int
    } else {
        9000
    };
    let score = 10000 - 10 * split(relative, '/').len() - length;
    if score < i64::MIN {
        i64::MIN as int
    } else {
        score
    }
}

/// The text matches the glob pattern.
pub open spec fn glob_hits(glob: Seq<char>, text: Seq<char>) -> bool {
    glob_is_valid(glob) && glob_matches(glob, text)
}

/// The match that a file or directory is: of the kind, the extension and the
/// depth asked for, with a path or a name that matches the pattern.
pub open spec fn glob_match_of(
    query: FuzzyQuery,
    glob: Seq<char>,
    candidate: Candidate,
    roots: Seq<SearchRoot>,
) -> Option<Ranked> {
    let path = candidate.path@;
    let relative = relative_to(path, roots, 0);
    let name = match file_name_of(path) {
        Some(name) => name,
        None => Seq::empty(),
    };
    if type_allows(query.target_type@, candidate.is_dir) && extension_allows(
        views(query.extensions@),
        candidate.is_dir,
        path,
    ) && depth_allows(relative, query.max_depth) && (glob_hits(glob, ascii_lower(relative))
        || glob_hits(glob, ascii_lower(name))) {
        Some(
            Ranked {
                path: shown_path(path),
                relative,
                score: glob_score(relative),
                kind: if candidate.is_dir {
                    "dir"@
                } else {
                    "file"@
                },
                size: candidate.size,
                modified_at: candidate.modified_at,
            },
        )
    } else {
        None
    }
}

/// A match of a glob pattern is a file or directory that is asked for, whose path or
/// name the pattern matches without regard to case, and it is shown as what it is; and
/// each such file or directory is a match.
pub proof fn law_glob_match_asked_for(
    query: FuzzyQuery,
    glob: Seq<char>,
    candidate: Candidate,
    roots: Seq<SearchRoot>,
)
    ensures
        ({
            let relative = relative_to(candidate.path@, roots, 0);
            let name = name_or_none(candidate.path@);
            let found = glob_match_of(query, glob, candidate, roots);
            &&& found is Some == (is_asked_for(query, candidate, relative, query.max_depth)
                && glob_is_valid(glob) && (glob_matches(glob, ascii_lower(relative))
                || glob_matches(glob, ascii_lower(name))))
            &&& found matches Some(m) ==> shows(m, candidate, relative)
        }),
{
    reveal_strlit("file");
    reveal_strlit("dir");
    assert("file"@.len() != "dir"@.len());
    lemma_asked_for(
        query,
        candidate,
        relative_to(candidate.path@, roots, 0),
        query.max_depth,
    );
}

/// Whether the text matches the glob pattern.
pub fn hits(glob: &str, text: &str) -> (r: bool)
    ensures
        r == glob_hits(glob@, text@),
{
    match glob_match(glob, text) {
        Some(hit) => hit,
        None => false,
    }
}

/// The score of a match.
fn score_glob(relative: &str) -> (r: i64)
    ensures
        r == glob_score(relative@),
{
    let parts = str_split(relative, '/');
    assert(views(parts@).len() == parts@.len());
    let depth: usize = parts.len();
    let size: usize = relative.as_bytes().len();
    let length: i128 = if size <= 9000 {
        size as i128
    } else {
        9000
    };
    let score: i128 = 10000 - 10 * (depth as i128) - length;
    if score < -0x8000_0000_0000_0000 {
        i64::MIN
    } else {
        score as i64
    }
}

/// The match that a file or directory is.
pub fn match_glob(
    query: &FuzzyQuery,
    glob: &str,
    candidate: &Candidate,
    roots: &[SearchRoot],
) -> (r: Option<RankedMatch>)
    ensures
        (match r {
            Some(m) => Some(m@),
            None => None,
        }) == glob_match_of(*query, glob@, *candidate, roots@),
        r matches Some(m) ==> is_asked_for(*query, *candidate, m.relative_path@, query.max_depth)
            && shows(m@, *candidate, relative_to(candidate.path@, roots@, 0)),
{
    proof {
        law_glob_match_asked_for(*query, glob@, *candidate, roots@);
    }
    let path = candidate.path.as_str();
    if !kind_fits(query, candidate.is_dir, path) {
        return None;
    }
    let relative = compute_relative_path(path, roots);
    if !within_max_depth(relative.as_str(), query.max_depth) {
        return None;
    }
    let name: String = match file_name(path) {
        Some(name) => name,
        None => String::new(),
    };
    let relative_lower = str_ascii_lower(relative.as_str());
    let name_lower = str_ascii_lower(name.as_str());
    if !hits(glob, relative_lower.as_str()) && !hits(glob, name_lower.as_str()) {
        return None;
    }
    let score: i64 = score_glob(relative.as_str());
    Some(
        RankedMatch {
            path: normalize_display_path(path),
            relative_path: relative,
            score,
            entry_type: if candidate.is_dir {
                "dir"
            } else {
                "file"
            },
            size: candidate.size,
            modified_at: candidate.modified_at,
        },
    )
}

/// What is found after one more entry; one whose kind is not known is only
/// counted.
pub open spec fn glob_considered(
    f: Found,
    query: FuzzyQuery,
    glob: Seq<char>,
    entry: Option<Candidate>,
    roots: Seq<SearchRoot>,
) -> Found {
    let counted = Found { scanned: capped_sum(f.scanned, 1), ..f };
    match entry {
        None => counted,
        Some(candidate) => with_new(
            counted,
            glob_match_of(query, glob, candidate, roots),
            query.max_results,
        ),
    }
}

/// Counts an entry, and takes it up where it matches and was not seen.
pub fn consider_glob_record(
    search: &mut FuzzySearch,
    query: &FuzzyQuery,
    glob: &str,
    entry: &Option<Candidate>,
    roots: &[SearchRoot],
)
    requires
        old(search).wf(query.max_results),
    ensures
        final(search).wf(query.max_results),
        final(search)@ == glob_considered(old(search)@, *query, glob@, *entry, roots@),
{
    search.stats.entries_scanned = search.stats.entries_scanned.saturating_add(1);
    if let Some(candidate) = entry {
        let found = match_glob(query, glob, candidate, roots);
        take_up(search, found, query.max_results);
    }
}

/// What is found after the first `n` of the entries.
pub open spec fn glob_considered_all(
    f: Found,
    query: FuzzyQuery,
    glob: Seq<char>,
    entries: Seq<Option<Candidate>>,
    roots: Seq<SearchRoot>,
    n: int,
) -> Found
    decreases n,
{
    if n <= 0 {
        f
    } else {
        glob_considered(
            glob_considered_all(f, query, glob, entries, roots, n - 1),
            query,
            glob,
            entries[n - 1],
            roots,
        )
    }
}

/// Considers all the entries.
fn consider_glob_records(
    search: &mut FuzzySearch,
    query: &FuzzyQuery,
    glob: &str,
    entries: &[Option<Candidate>],
    roots: &[SearchRoot],
)
    requires
        old(search).wf(query.max_results),
    ensures
        final(search).wf(query.max_results),
        final(search)@ == glob_considered_all(
            old(search)@,
            *query,
            glob@,
            entries@,
            roots@,
            entries@.len() as int,
        ),
{
    for i in 0..entries.len()
        invariant
            search.wf(query.max_results),
            search@ == glob_considered_all(
                old(search)@,
                *query,
                glob@,
                entries@,
                roots@,
                i as int,
            ),
    {
        consider_glob_record(search, query, glob, &entries[i], roots);
    }
}

/// What the index says of a root: whether all of it is indexed, the paths that
/// the index offers for the pattern, and all paths that it holds below the root,
/// where it has them.
pub struct GlobIndex {
    pub ready: bool,
    pub candidates: Option<Vec<Option<Candidate>>>,
    pub entries: Option<Vec<Option<Candidate>>>,
}

/// One more root was searched by the index.
pub open spec fn by_index(f: Found, ready: bool) -> Found {
    Found {
        indexed: capped_sum(f.indexed, 1),
        partial: if ready {
            f.partial
        } else {
            capped_sum(f.partial, 1)
        },
        ..f
    }
}

/// What is found by all paths that the index holds below a root, and whether the
/// root is to be walked through.
pub open spec fn glob_by_entries(
    f: Found,
    query: FuzzyQuery,
    glob: Seq<char>,
    index: GlobIndex,
    roots: Seq<SearchRoot>,
) -> (Found, bool) {
    match index.entries {
        Some(list) => (
            glob_considered_all(
                by_index(f, index.ready),
                query,
                glob,
                list@,
                roots,
                list@.len() as int,
            ),
            false,
        ),
        None => (f, true),
    }
}

/// What is found at a root by the index, and whether the root is to be walked
/// through. An index that holds the whole root is believed where the pattern has
/// a word to look for.
pub open spec fn glob_searched(
    f: Found,
    query: FuzzyQuery,
    glob: Seq<char>,
    index: GlobIndex,
    roots: Seq<SearchRoot>,
) -> (Found, bool) {
    let believed = index.ready && terms(glob, 3).len() > 0;
    match index.candidates {
        Some(list) => {
            let all = glob_considered_all(
                by_index(f, index.ready),
                query,
                glob,
                list@,
                roots,
                list@.len() as int,
            );
            if all.ranked.len() > f.ranked.len() || believed {
                (all, false)
            } else {
                glob_by_entries(all, query, glob, index, roots)
            }
        },
        None => if believed {
            (by_index(f, true), false)
        } else {
            glob_by_entries(f, query, glob, index, roots)
        },
    }
}

/// Counts a root that is searched by the index.
fn count_index(search: &mut FuzzySearch, ready: bool)
    ensures
        final(search)@ == by_index(old(search)@, ready),
        forall|n: usize| old(search).wf(n) ==> final(search).wf(n),
{
    search.stats.indexed_roots_used = search.stats.indexed_roots_used.saturating_add(1);
    if !ready {
        search.stats.partial_index_roots_used = search.stats.partial_index_roots_used.saturating_add(
            1,
        );
    }
}

/// Searches a root that exists by the index; says whether it is to be walked
/// through as well.
pub fn process_glob_root(
    search: &mut FuzzySearch,
    query: &FuzzyQuery,
    glob: &str,
    index: &GlobIndex,
    roots: &[SearchRoot],
) -> (r: bool)
    requires
        old(search).wf(query.max_results),
    ensures
        final(search).wf(query.max_results),
        (final(search)@, r) == glob_searched(old(search)@, *query, glob@, *index, roots@),
{
    let anchors = find_terms(glob, 3);
    assert(views(anchors@).len() == anchors@.len());
    let believed = index.ready && anchors.len() > 0;
    assert(ranked_views(search.ranked@).len() == search.ranked@.len());
    match &index.candidates {
        Some(list) => {
            let before: usize = search.ranked.len();
            count_index(search, index.ready);
            consider_glob_records(search, query, glob, list.as_slice(), roots);
            assert(ranked_views(search.ranked@).len() == search.ranked@.len());
            if search.ranked.len() > before || believed {
                return false;
            }
        },
        None => {
            if believed {
                count_index(search, true);
                return false;
            }
        },
    }
    match &index.entries {
        Some(list) => {
            count_index(search, index.ready);
            consider_glob_records(search, query, glob, list.as_slice(), roots);
            false
        },
        None => true,
    }
}

/// What is found after a walk through a root.
pub open spec fn glob_walked(
    f: Found,
    query: FuzzyQuery,
    glob: Seq<char>,
    entries: Seq<Option<Candidate>>,
    roots: Seq<SearchRoot>,
) -> Found {
    glob_considered_all(
        Found { walked: capped_sum(f.walked, 1), ..f },
        query,
        glob,
        entries,
        roots,
        entries.len() as int,
    )
}

/// Takes up what a walk through a root came to; an entry whose kind is not known
/// is `None`.
pub fn process_glob_walk(
    search: &mut FuzzySearch,
    query: &FuzzyQuery,
    glob: &str,
    entries: &[Option<Candidate>],
    roots: &[SearchRoot],
)
    requires
        old(search).wf(query.max_results),
    ensures
        final(search).wf(query.max_results),
        final(search)@ == glob_walked(old(search)@, *query, glob@, entries@, roots@),
{
    search.stats.filesystem_roots_walked = search.stats.filesystem_roots_walked.saturating_add(1);
    consider_glob_records(search, query, glob, entries, roots);
}

/// How a search went as a whole.
pub struct FuzzyReport {
    pub total_returned: usize,
    pub limit_reached: bool,
    pub search_strategy: &'static str,
    pub index_complete: bool,
}

/// What served the search: the index, a walk, both, or nothing.
pub open spec fn strategy(f: Found) -> Seq<char> {
    if f.indexed > 0 && f.walked > 0 {
        "mixed"@
    } else if f.indexed > 0 {
        "index"@
    } else if f.walked > 0 {
        "filesystem_walk"@
    } else {
        "none"@
    }
}

/// Says how a search went as a whole. Its matches are those returned.
pub fn report_search(search: &FuzzySearch, max_results: usize) -> (r: FuzzyReport)
    requires
        search.wf(max_results),
    ensures
        r.total_returned == search@.ranked.len(),
        r.limit_reached == (max_results > 0 && search@.ranked.len() == max_results),
        r.search_strategy@ == strategy(search@),
        r.index_complete == (search@.partial == 0),
{
    assert(ranked_views(search.ranked@).len() == search.ranked@.len());
    let indexed = search.stats.indexed_roots_used > 0;
    let walked = search.stats.filesystem_roots_walked > 0;
    FuzzyReport {
        total_returned: search.ranked.len(),
        limit_reached: max_results > 0 && search.ranked.len() >= max_results,
        search_strategy: if indexed && walked {
            "mixed"
        } else if indexed {
            "index"
        } else if walked {
            "filesystem_walk"
        } else {
            "none"
        },
        index_complete: search.stats.partial_index_roots_used == 0,
    }
}

/// The remark on a search by a glob pattern.
pub fn glob_note(pattern: &str) -> (r: String)
    ensures
        r@ == "Pattern '"@ + pattern@
            + "' was treated as a glob; match is applied to relative path and file name."@,
{
    let mut out = "Pattern '".to_owned();
    out.append(pattern);
    out.append("' was treated as a glob; match is applied to relative path and file name.");
    out
}

/// Of two paths that a pattern matches, one that lies no deeper and is no longer ranks no lower.
pub proof fn law_glob_score(a: Seq<char>, b: Seq<char>)
    requires
        split(a, '/').len() <= split(b, '/').len(),
        byte_len(a) <= byte_len(b),
    ensures
        glob_score(a) >= glob_score(b),
        split(a, '/').len() < split(b, '/').len() && glob_score(b) > i64::MIN ==> glob_score(a)
            > glob_score(b),
        byte_len(a) < byte_len(b) <= 9000 && glob_score(b) > i64::MIN ==> glob_score(a)
            > glob_score(b),
{
}

} // verus!
