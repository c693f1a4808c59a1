//! Searching the contents of files: the files and lines that come up.

use vstd::prelude::*;

use crate::line_search::{
    build_matcher, found_lines, hit_views, is_search_pattern, search_lines, search_pattern_of, Hit,
};
use crate::order::{lemma_precedes_total, lemma_precedes_transitive, precedes, str_precedes};
use crate::paths::{
    below, file_name, file_name_of, parent_of, parent_path, parts_of, same_path, strip_prefix,
};
use crate::sorted::{ascending, insert_new, text_set};
use crate::text::{chars_of, str_eq, str_take, str_trim, trim, views};
use crate::tools::glob_find::glob_hits;
use crate::tools::path_filters::{
    any_value_matches, held_name, is_hit, law_hit, matches_any_pattern,
};
use crate::tools::text_search::{slashed, to_slashes, InputPath, TextPlan};

verus! {

/// The size from which on a file is not searched, in bytes.
pub const MAX_SEARCH_FILE_BYTES: u64 = 5_242_880;

/// A line that matches, with the file it stands in. `snippet` is the line
/// without the blanks around it.
pub struct SearchMatch {
    pub file: String,
    pub line: u64,
    pub snippet: String,
    pub line_text: String,
    pub line_truncated: bool,
}

/// A line that matches, with the file it stands in.
pub struct LineMatch {
    pub file: Seq<char>,
    pub line: u64,
    pub snippet: Seq<char>,
    pub text: Seq<char>,
    pub truncated: bool,
}

impl View for SearchMatch {
    type V = LineMatch;

    open spec fn view(&self) -> LineMatch {
        LineMatch {
            file: self.file@,
            line: self.line,
            snippet: self.snippet@,
            text: self.line_text@,
            truncated: self.line_truncated,
        }
    }
}

/// The lines that match.
pub open spec fn match_views(items: Seq<SearchMatch>) -> Seq<LineMatch> {
    Seq::new(items.len(), |i: int| items[i]@)
}

/// The line without the line feeds and carriage returns at its end.
pub open spec fn without_ending(s: Seq<char>) -> Seq<char>
    decreases s.len(),
{
    if s.len() > 0 && (s.last() == '\r' || s.last() == '\n') {
        without_ending(s.drop_last())
    } else {
        s
    }
}

/// `t` is `s` without the carriage returns and line feeds at its end.
pub open spec fn is_stripped(s: Seq<char>, t: Seq<char>) -> bool {
    &&& t.is_prefix_of(s)
    &&& forall|k: int| t.len() <= k < s.len() ==> #[trigger] s[k] == '\r' || s[k] == '\n'
    &&& t.len() > 0 ==> t.last() != '\r' && t.last() != '\n'
}

/// A line without its ending is the line up to that ending.
pub proof fn law_without_ending(s: Seq<char>)
    ensures
        is_stripped(s, without_ending(s)),
    decreases s.len(),
{
    if s.len() > 0 && (s.last() == '\r' || s.last() == '\n') {
        law_without_ending(s.drop_last());
        let t = without_ending(s.drop_last());
        assert(t =~= s.take(t.len() as int)) by {
            assert(t =~= s.drop_last().take(t.len() as int));
        }
        assert forall|k: int| t.len() <= k < s.len() implies #[trigger] s[k] == '\r' || s[k]
            == '\n' by {
            if k < s.len() - 1 {
                assert(s.drop_last()[k] == s[k]);
            }
        }
    }
}

/// The line without the line feeds and carriage returns at its end.
fn strip_ending(s: &str) -> (r: String)
    ensures
        r@ == without_ending(s@),
        is_stripped(s@, r@),
{
    proof {
        law_without_ending(s@);
    }
    let chars = chars_of(s);
    let mut n: usize = chars.len();
    assert(s@.take(n as int) =~= s@);
    while n > 0 && (chars[n - 1] == '\r' || chars[n - 1] == '\n')
        invariant
            chars@ == s@,
            n <= s@.len(),
            without_ending(s@) == without_ending(s@.take(n as int)),
        ensures
            n <= s@.len(),
            without_ending(s@) == s@.take(n as int),
        decreases n,
    {
        assert(s@.take(n as int).last() == chars@[n - 1]);
        assert(s@.take(n as int).drop_last() =~= s@.take(n - 1));
        n -= 1;
    }
    str_take(s, n)
}

/// The text, or its first characters with dots behind them, and whether it was
/// cut.
pub open spec fn cut_text(raw: Seq<char>, max_chars: usize) -> (Seq<char>, bool) {
    if raw.len() <= max_chars {
        (raw, false)
    } else {
        (raw.take(max_chars as int) + "..."@, true)
    }
}

/// The text, or its first characters with dots behind them.
pub fn truncate_text(raw: &str, max_chars: usize) -> (r: (String, bool))
    ensures
        (r.0@, r.1) == cut_text(raw@, max_chars),
        r.1 == (raw@.len() > max_chars),
        !r.1 ==> r.0@ == raw@,
        r.1 ==> r.0@.take(max_chars as int) == raw@.take(max_chars as int) && r.0@.skip(
            max_chars as int,
        ) == seq!['.', '.', '.'],
{
    proof {
        reveal_strlit("...");
        if raw@.len() > max_chars {
            let cut = raw@.take(max_chars as int) + "..."@;
            assert(cut.take(max_chars as int) =~= raw@.take(max_chars as int));
            assert(cut.skip(max_chars as int) =~= seq!['.', '.', '.']);
        }
    }
    let chars = chars_of(raw);
    if chars.len() <= max_chars {
        return (raw.to_owned(), false);
    }
    let mut out = str_take(raw, max_chars);
    out.append("...");
    (out, true)
}

/// What is returned of a line that matches.
pub open spec fn match_of(file: Seq<char>, hit: Hit, max_line_length: usize) -> LineMatch {
    let cut = cut_text(without_ending(hit.text@), max_line_length);
    LineMatch { file, line: hit.line, snippet: trim(cut.0), text: cut.0, truncated: cut.1 }
}

/// The match shows where the hit is and its line, whole or cut off behind so many
/// characters.
pub open spec fn shows_hit(m: SearchMatch, file: Seq<char>, hit: Hit, most: usize) -> bool {
    &&& m.file@ == file
    &&& m.line == hit.line
    &&& m.snippet@ == trim(m.line_text@)
    &&& !m.line_truncated ==> is_stripped(hit.text@, m.line_text@) && m.line_text@.len() <= most
    &&& m.line_truncated ==> m.line_text@.len() == most + 3 && m.line_text@.take(
        most as int,
    ).is_prefix_of(hit.text@)
}

/// What is returned of a line that matches.
pub fn describe_hit(file: &str, hit: &Hit, max_line_length: usize) -> (r: SearchMatch)
    ensures
        r@ == match_of(file@, *hit, max_line_length),
        shows_hit(r, file@, *hit, max_line_length),
{
    let raw = strip_ending(hit.text.as_str());
    let (line_text, line_truncated) = truncate_text(raw.as_str(), max_line_length);
    proof {
        if line_truncated {
            let most = max_line_length as int;
            assert(line_text@.skip(most).len() == 3);
            assert(raw@ =~= hit.text@.take(raw@.len() as int));
            assert(raw@.take(most) =~= hit.text@.take(most));
        }
    }
    SearchMatch {
        file: file.to_owned(),
        line: hit.line,
        snippet: str_trim(line_text.as_str()),
        line_text,
        line_truncated,
    }
}

/// How a search stands: what matched, which files were seen, and counts that
/// begin anew behind the largest number of the machine.
pub struct SearchState {
    pub matches: Vec<SearchMatch>,
    pub seen: Vec<String>,
    pub files_considered: usize,
    pub files_searched: usize,
    pub search_errors: usize,
    pub files_skipped_large: usize,
    pub stop: bool,
}

/// How a search stands.
pub struct Progress {
    pub matches: Seq<LineMatch>,
    pub seen: Set<Seq<char>>,
    pub considered: usize,
    pub searched: usize,
    pub errors: usize,
    pub large: usize,
    pub stop: bool,
}

impl View for SearchState {
    type V = Progress;

    open spec fn view(&self) -> Progress {
        Progress {
            matches: match_views(self.matches@),
            seen: text_set(self.seen@),
            considered: self.files_considered,
            searched: self.files_searched,
            errors: self.search_errors,
            large: self.files_skipped_large,
            stop: self.stop,
        }
    }
}

/// The number after this one.
pub open spec fn next(n: usize) -> usize {
    if n == usize::MAX {
        0
    } else {
        (n + 1) as usize
    }
}

impl SearchState {
    /// There are no more matches than are returned, and the files that were
    /// seen are sorted.
    pub open spec fn wf(&self, max_results: usize) -> bool {
        &&& self.matches@.len() <= max_results
        &&& ascending(views(self.seen@))
    }

    /// A search that has not begun.
    pub fn new() -> (r: Self)
        ensures
            forall|n: usize| r.wf(n),
            r@ == (Progress {
                matches: Seq::empty(),
                seen: Set::empty(),
                considered: 0,
                searched: 0,
                errors: 0,
                large: 0,
                stop: false,
            }),
    {
        let out = SearchState {
            matches: Vec::new(),
            seen: Vec::new(),
            files_considered: 0,
            files_searched: 0,
            search_errors: 0,
            files_skipped_large: 0,
            stop: false,
        };
        assert(match_views(out.matches@) =~= Seq::<LineMatch>::empty());
        assert(text_set(out.seen@) =~= Set::<Seq<char>>::empty());
        out
    }

    /// Counts a file or entry that could not be read.
    pub fn note_error(&mut self)
        ensures
            final(self)@ == (Progress { errors: next(old(self)@.errors), ..old(self)@ }),
            forall|n: usize| old(self).wf(n) ==> final(self).wf(n),
    {
        self.search_errors = self.search_errors.wrapping_add(1);
    }
}

/// The texts of a file that patterns are held against: its path below what is
/// searched, its whole path, and its name.
pub open spec fn match_texts(path: Seq<char>, relative: Seq<char>) -> Seq<Seq<char>> {
    let name = match file_name_of(path) {
        Some(name) => name,
        None => Seq::empty(),
    };
    if name.len() > 0 {
        seq![relative, slashed(path), name]
    } else {
        seq![relative, slashed(path)]
    }
}

/// The texts of a file that patterns are held against.
pub fn candidate_match_strings(path: &str, relative: &str) -> (r: Vec<String>)
    ensures
        views(r@) == match_texts(path@, relative@),
{
    let name: String = match file_name(path) {
        Some(name) => name,
        None => String::new(),
    };
    let mut out: Vec<String> = vec![relative.to_owned(), to_slashes(path)];
    if !name.as_str().is_empty() {
        out.push(name);
    }
    assert(views(out@) =~= match_texts(path@, relative@));
    out
}

/// The file is among those that are taken in, where there are such patterns,
/// and not among those that are left out.
pub open spec fn passes(
    path: Seq<char>,
    relative: Seq<char>,
    includes: Seq<Seq<char>>,
    excludes: Seq<Seq<char>>,
) -> bool {
    let texts = match_texts(path, relative);
    (includes.len() == 0 || any_value_matches(texts, includes)) && !any_value_matches(
        texts,
        excludes,
    )
}

/// Whether a file is taken in and not left out.
pub fn passes_patterns(
    path: &str,
    relative: &str,
    includes: &[String],
    excludes: &[String],
) -> (r: bool)
    ensures
        r == passes(path@, relative@, views(includes@), views(excludes@)),
        r == ((includes@.len() == 0 || is_hit(
            relative@,
            slashed(path@),
            held_name(path@, relative@),
            views(includes@),
        )) && !is_hit(
            relative@,
            slashed(path@),
            held_name(path@, relative@),
            views(excludes@),
        )),
{
    proof {
        lemma_texts_hit(path@, relative@, views(includes@));
        lemma_texts_hit(path@, relative@, views(excludes@));
    }
    let texts = candidate_match_strings(path, relative);
    assert(views(includes@).len() == includes@.len());
    if includes.len() > 0 && !matches_any_pattern(texts.as_slice(), includes) {
        return false;
    }
    !matches_any_pattern(texts.as_slice(), excludes)
}

/// A file of which patterns hit a text is hit by them, whether or not it has a name.
proof fn lemma_texts_hit(path: Seq<char>, relative: Seq<char>, patterns: Seq<Seq<char>>)
    ensures
        any_value_matches(match_texts(path, relative), patterns) == is_hit(
            relative,
            slashed(path),
            held_name(path, relative),
            patterns,
        ),
{
    let texts = match_texts(path, relative);
    let three = seq![relative, slashed(path), held_name(path, relative)];
    law_hit(relative, slashed(path), held_name(path, relative), patterns);
    if any_value_matches(texts, patterns) {
        let (i, j) = choose|i: int, j: int|
            0 <= i < patterns.len() && 0 <= j < texts.len() && glob_hits(
                #[trigger] patterns[i],
                #[trigger] texts[j],
            );
        assert(texts[j] == three[j]);
        assert(glob_hits(patterns[i], three[j]));
    }
    if any_value_matches(three, patterns) {
        let (i, j) = choose|i: int, j: int|
            0 <= i < patterns.len() && 0 <= j < three.len() && glob_hits(
                #[trigger] patterns[i],
                #[trigger] three[j],
            );
        let k = if j < texts.len() {
            j
        } else {
            0
        };
        assert(texts[k] == three[j]);
        assert(glob_hits(patterns[i], texts[k]));
    }
}

/// Where patterns say which files are taken in, only a file that one of them matches
/// is searched, and none that a pattern matches by which files are left out. A file
/// that came up for the first time, while the search has not all it returns, is
/// searched where the one holds and the other does not.
pub proof fn law_patterns_respected(
    p: Progress,
    plan: TextPlan,
    path: Seq<char>,
    relative: Seq<char>,
)
    ensures
        ({
            let wanted = file_considered(p, plan, path, relative).1;
            let name = held_name(path, relative);
            let taken = views(plan.includes@);
            let left_out = views(plan.excludes@);
            &&& wanted && taken.len() > 0 ==> is_hit(relative, slashed(path), name, taken)
            &&& wanted ==> !is_hit(relative, slashed(path), name, left_out)
            &&& plan.max_results > 0 && !p.stop && !p.seen.contains(slashed(path)) && (taken.len()
                == 0 || is_hit(relative, slashed(path), name, taken)) && !is_hit(
                relative,
                slashed(path),
                name,
                left_out,
            ) ==> wanted
        }),
{
    lemma_texts_hit(path, relative, views(plan.includes@));
    lemma_texts_hit(path, relative, views(plan.excludes@));
}

/// How the search stands after a file came up, and whether its size is to be
/// asked for: not where the search has all it returns, where the file was seen,
/// or where the patterns leave it out.
pub open spec fn file_considered(
    p: Progress,
    plan: TextPlan,
    path: Seq<char>,
    relative: Seq<char>,
) -> (Progress, bool) {
    if plan.max_results == 0 || p.stop || p.seen.contains(slashed(path)) {
        (p, false)
    } else {
        (
            Progress { seen: p.seen.insert(slashed(path)), considered: next(p.considered), ..p },
            passes(path, relative, views(plan.includes@), views(plan.excludes@)),
        )
    }
}

/// Considers a file that came up; says whether its size is to be asked for.
pub fn consider_file(
    state: &mut SearchState,
    plan: &TextPlan,
    path: &str,
    relative: &str,
) -> (r: bool)
    requires
        old(state).wf(plan.max_results),
    ensures
        final(state).wf(plan.max_results),
        (final(state)@, r) == file_considered(old(state)@, *plan, path@, relative@),
        r == (plan.max_results > 0 && !old(state).stop && !views(old(state).seen@).contains(
            slashed(path@),
        ) && (plan.includes@.len() == 0 || is_hit(
            relative@,
            slashed(path@),
            held_name(path@, relative@),
            views(plan.includes@),
        )) && !is_hit(
            relative@,
            slashed(path@),
            held_name(path@, relative@),
            views(plan.excludes@),
        )),
{
    if plan.max_results == 0 || state.stop {
        return false;
    }
    let key = to_slashes(path);
    let ghost before = state@;
    if !insert_new(&mut state.seen, key.as_str()) {
        assert(before.seen.insert(key@) =~= before.seen);
        return false;
    }
    state.files_considered = state.files_considered.wrapping_add(1);
    passes_patterns(path, relative, plan.includes.as_slice(), plan.excludes.as_slice())
}

/// How the search stands after the size of a file was asked for, and whether the
/// file is searched.
pub open spec fn file_sized(p: Progress, size: Option<u64>) -> (Progress, bool) {
    match size {
        None => (Progress { errors: next(p.errors), ..p }, false),
        Some(n) => if n > MAX_SEARCH_FILE_BYTES {
            (Progress { large: next(p.large), ..p }, false)
        } else {
            (Progress { searched: next(p.searched), ..p }, true)
        },
    }
}

/// Says whether a file of this size is searched; the size is missing where it
/// cannot be told.
pub fn accept_size(state: &mut SearchState, size: Option<u64>) -> (r: bool)
    ensures
        (final(state)@, r) == file_sized(old(state)@, size),
        forall|n: usize| old(state).wf(n) ==> final(state).wf(n),
        r == (size matches Some(n) && n <= 5 * 1024 * 1024),
        final(state)@.matches == old(state)@.matches && final(state).stop == old(state).stop,
        r && old(state).files_searched < usize::MAX ==> final(state).files_searched == old(state).files_searched + 1,
        !r ==> final(state).files_searched == old(state).files_searched,
        size is None && old(state).search_errors < usize::MAX ==> final(state).search_errors
            == old(state).search_errors + 1,
        size is Some && !r && old(state).files_skipped_large < usize::MAX ==> final(state).files_skipped_large == old(state).files_skipped_large + 1,
{
    match size {
        None => {
            state.note_error();
            false
        },
        Some(n) => {
            if n > MAX_SEARCH_FILE_BYTES {
                state.files_skipped_large = state.files_skipped_large.wrapping_add(1);
                false
            } else {
                state.files_searched = state.files_searched.wrapping_add(1);
                true
            }
        },
    }
}

/// The matches of a file, as many as are still returned.
pub open spec fn new_matches(
    p: Progress,
    plan: TextPlan,
    file: Seq<char>,
    hits: Seq<Hit>,
) -> Seq<LineMatch> {
    let room = plan.max_results - p.matches.len();
    Seq::new(
        if hits.len() <= room {
            hits.len()
        } else {
            room as nat
        },
        |i: int| match_of(file, hits[i], plan.max_line_length),
    )
}

/// How the search stands after a file was searched; there are no hits where that
/// failed.
pub open spec fn file_searched(
    p: Progress,
    plan: TextPlan,
    file: Seq<char>,
    hits: Option<Seq<Hit>>,
) -> Progress {
    match hits {
        None => Progress { errors: next(p.errors), ..p },
        Some(list) => if list.len() == 0 || plan.max_results == 0 {
            p
        } else {
            let all = p.matches + new_matches(p, plan, file, list);
            Progress { matches: all, stop: p.stop || all.len() == plan.max_results, ..p }
        },
    }
}

/// What lines are searched for by a plan; none where its pattern is not accepted.
pub fn plan_matcher(plan: &TextPlan) -> (r: Option<grep_regex::RegexMatcher>)
    ensures
        r is Some == is_search_pattern(plan.pattern@, plan.case_sensitive),
        r matches Some(matcher) ==> search_pattern_of(matcher) == (
            plan.pattern@,
            plan.case_sensitive,
        ),
{
    build_matcher(plan.pattern.as_str(), plan.case_sensitive)
}

/// What a search through the bytes of a file comes up with, as far as it is returned;
/// nothing where the file could not be read or searched to its end.
pub fn search_file(
    plan: &TextPlan,
    matcher: &grep_regex::RegexMatcher,
    bytes: &Option<Vec<u8>>,
) -> (r: Option<Vec<Hit>>)
    ensures
        match bytes {
            Some(read) => {
                let (pattern, case_sensitive) = search_pattern_of(*matcher);
                let found = found_lines(
                    pattern,
                    case_sensitive,
                    plan.context_lines as nat,
                    plan.max_results as nat,
                    read@,
                );
                match r {
                    Some(hits) => found.1 && hit_views(hits@) == found.0,
                    None => !found.1,
                }
            },
            None => r is None,
        },
{
    match bytes {
        Some(read) => {
            let (hits, ended) = search_lines(
                matcher,
                plan.context_lines,
                plan.max_results,
                read.as_slice(),
            );
            if ended {
                Some(hits)
            } else {
                None
            }
        },
        None => None,
    }
}

/// Takes up what a search through a file came up with.
pub fn take_hits(state: &mut SearchState, plan: &TextPlan, file: &str, hits: &Option<Vec<Hit>>)
    requires
        old(state).wf(plan.max_results),
    ensures
        final(state).wf(plan.max_results),
        final(state)@ == file_searched(
            old(state)@,
            *plan,
            file@,
            match hits {
                Some(list) => Some(list@),
                None => None,
            },
        ),
        match_views(old(state).matches@).is_prefix_of(match_views(final(state).matches@)),
        *hits is None ==> final(state).matches@.len() == old(state).matches@.len(),
        *hits matches Some(list) ==> {
            let had = old(state).matches@.len() as int;
            let has = final(state).matches@.len() as int;
            &&& has == if had + list@.len() <= plan.max_results {
                had + list@.len()
            } else {
                plan.max_results as int
            }
            &&& has > had && has == plan.max_results ==> final(state).stop
            &&& forall|i: int|
                had <= i < has ==> (#[trigger] final(state).matches@[i]).file@ == file@ && final(state).matches@[i].line == list@[i - had].line && final(state).matches@[i].snippet@ == trim(
                    final(state).matches@[i].line_text@,
                )
        },
{
    match hits {
        None => state.note_error(),
        Some(list) => {
            if list.len() == 0 || plan.max_results == 0 {
                return ;
            }
            let ghost before = state@;
            let ghost more = new_matches(before, *plan, file@, list@);
            let ghost seen = state.seen@;
            assert(match_views(state.matches@).len() == state.matches@.len());
            let mut i: usize = 0;
            assert(match_views(state.matches@) =~= before.matches + more.take(0));
            while i < list.len() && state.matches.len() < plan.max_results
                invariant
                    i <= list@.len(),
                    more == new_matches(before, *plan, file@, list@),
                    i <= more.len(),
                    state.matches@.len() <= plan.max_results,
                    before.matches.len() <= plan.max_results,
                    match_views(state.matches@) == before.matches + more.take(i as int),
                    state.matches@.len() == before.matches.len() + i,
                    state.seen@ == seen,
                    state@ == (Progress { matches: match_views(state.matches@), ..before }),
                decreases list@.len() - i,
            {
                let ghost list_before = match_views(state.matches@);
                let item = describe_hit(file, &list[i], plan.max_line_length);
                let ghost shown = item@;
                state.matches.push(item);
                assert(match_views(state.matches@) =~= list_before.push(shown));
                assert(match_views(state.matches@) =~= before.matches + more.take(i + 1));
                i += 1;
            }
            assert(more.take(i as int) =~= more);
            proof {
                let shown = match_views(state.matches@);
                assert(before.matches =~= shown.take(before.matches.len() as int));
                assert forall|k: int| before.matches.len() <= k < state.matches@.len() implies (
                #[trigger] state.matches@[k]).file@ == file@ && state.matches@[k].line == list@[k
                    - before.matches.len()].line && state.matches@[k].snippet@ == trim(
                    state.matches@[k].line_text@,
                ) by {
                    assert(shown[k] == state.matches@[k]@);
                    assert(shown[k] == more[k - before.matches.len()]);
                }
            }
            if state.matches.len() >= plan.max_results {
                state.stop = true;
            }
        },
    }
}

/// A search returns no more than it is asked for, forgets no match and no file
/// that it has seen, and stops once it has all it returns.
pub proof fn law_search_bounded(
    p: Progress,
    plan: TextPlan,
    file: Seq<char>,
    hits: Option<Seq<Hit>>,
)
    requires
        p.matches.len() <= plan.max_results,
    ensures
        ({
            let q = file_searched(p, plan, file, hits);
            &&& q.matches.len() <= plan.max_results
            &&& p.matches.is_prefix_of(q.matches)
            &&& q.seen == p.seen
            &&& (q.matches.len() > p.matches.len() && q.matches.len() == plan.max_results
                ==> q.stop)
            &&& (p.stop ==> q.stop)
        }),
{
}

/// A file that came up is not considered again.
pub proof fn law_file_once(p: Progress, plan: TextPlan, path: Seq<char>, relative: Seq<char>)
    ensures
        ({
            let q = file_considered(p, plan, path, relative).0;
            file_considered(q, plan, path, relative) == (q, false)
        }),
{
}

/// What is known of the paths that are searched.
pub struct PathTally {
    pub valid_paths: usize,
    pub invalid_paths: Vec<String>,
}

/// What is known of the paths that are searched.
pub struct Paths {
    pub valid: nat,
    pub invalid: Seq<Seq<char>>,
}

impl View for PathTally {
    type V = Paths;

    open spec fn view(&self) -> Paths {
        Paths { valid: self.valid_paths as nat, invalid: views(self.invalid_paths@) }
    }
}

impl PathTally {
    /// No path was looked at.
    pub fn new() -> (r: Self)
        ensures
            r@ == (Paths { valid: 0, invalid: Seq::empty() }),
    {
        let out = PathTally { valid_paths: 0, invalid_paths: Vec::new() };
        assert(views(out.invalid_paths@) =~= Seq::<Seq<char>>::empty());
        out
    }

    /// Notes a path that cannot be searched.
    fn note_invalid(&mut self, path: &str)
        ensures
            final(self)@ == (Paths { invalid: old(self)@.invalid.push(path@), ..old(self)@ }),
    {
        let ghost before = views(self.invalid_paths@);
        self.invalid_paths.push(path.to_owned());
        assert(views(self.invalid_paths@) =~= before.push(path@));
    }
}

/// What is known of the first `n` paths: which exist.
pub open spec fn validity(inputs: Seq<InputPath>, n: int) -> Paths
    decreases n,
{
    if n <= 0 {
        Paths { valid: 0, invalid: Seq::empty() }
    } else {
        let before = validity(inputs, n - 1);
        if inputs[n - 1].exists {
            Paths { valid: before.valid + 1, ..before }
        } else {
            Paths { invalid: before.invalid.push(inputs[n - 1].path@), ..before }
        }
    }
}

/// Tells which of the paths exist.
pub fn record_input_path_validity(inputs: &[InputPath]) -> (r: PathTally)
    ensures
        r@ == validity(inputs@, inputs@.len() as int),
{
    let mut out = PathTally::new();
    for i in 0..inputs.len()
        invariant
            out@ == validity(inputs@, i as int),
            out.valid_paths <= i,
    {
        if inputs[i].exists {
            out.valid_paths = out.valid_paths + 1;
        } else {
            out.note_invalid(inputs[i].path.as_str());
        }
    }
    out
}

/// What is done with a path: nothing more with it or any other, nothing with it,
/// a look at the file, or a walk through the directory.
#[derive(Clone, Copy, Debug, PartialEq, Eq, Structural)]
pub enum InputStep {
    Stop,
    Skip,
    File,
    Walk,
}

/// What is done with a path.
pub open spec fn step_of(p: Progress, plan: TextPlan, input: InputPath) -> InputStep {
    if plan.max_results > 0 && p.matches.len() >= plan.max_results {
        InputStep::Stop
    } else if !input.exists {
        InputStep::Skip
    } else if input.is_file {
        InputStep::File
    } else if input.is_dir {
        InputStep::Walk
    } else {
        InputStep::Skip
    }
}

/// What is known of the paths after one more.
pub open spec fn paths_after(paths: Paths, step: InputStep, input: InputPath) -> Paths {
    match step {
        InputStep::Stop => paths,
        InputStep::Skip => Paths {
            invalid: paths.invalid.push(
                if input.exists {
                    input.canonical@
                } else {
                    input.path@
                },
            ),
            ..paths
        },
        _ => Paths { valid: paths.valid + 1, ..paths },
    }
}

/// Decides what is done with a path, and notes whether it can be searched.
pub fn process_input_path(
    state: &mut SearchState,
    tally: &mut PathTally,
    plan: &TextPlan,
    input: &InputPath,
) -> (r: InputStep)
    requires
        old(state).wf(plan.max_results),
        old(tally)@.valid < usize::MAX,
    ensures
        final(state).wf(plan.max_results),
        r == step_of(old(state)@, *plan, *input),
        final(tally)@ == paths_after(old(tally)@, r, *input),
        final(state)@ == (Progress {
            stop: old(state)@.stop || r == InputStep::Stop,
            ..old(state)@
        }),
{
    assert(match_views(state.matches@).len() == state.matches@.len());
    if plan.max_results > 0 && state.matches.len() >= plan.max_results {
        state.stop = true;
        return InputStep::Stop;
    }
    if !input.exists {
        tally.note_invalid(input.path.as_str());
        return InputStep::Skip;
    }
    if input.is_file {
        tally.valid_paths = tally.valid_paths + 1;
        return InputStep::File;
    }
    if !input.is_dir {
        tally.note_invalid(input.canonical.as_str());
        return InputStep::Skip;
    }
    tally.valid_paths = tally.valid_paths + 1;
    InputStep::Walk
}

/// The name of a path, or the path where it has none.
pub open spec fn name_or_path(path: Seq<char>) -> Seq<char> {
    match file_name_of(path) {
        Some(name) => name,
        None => path,
    }
}

/// The name of a path, or the path where it has none.
pub fn name_of_file(path: &str) -> (r: String)
    ensures
        r@ == name_or_path(path@),
{
    match file_name(path) {
        Some(name) => name,
        None => path.to_owned(),
    }
}

/// The path of a file below the directory that a walk goes through.
pub open spec fn walk_relative_of(root: Seq<char>, path: Seq<char>) -> Seq<char> {
    if below(path, root) is Some && slashed(below(path, root)->0).len() > 0 {
        slashed(below(path, root)->0)
    } else {
        name_or_path(path)
    }
}

/// The path of a file below the directory that a walk goes through.
pub fn walk_relative(root: &str, path: &str) -> (r: String)
    ensures
        r@ == walk_relative_of(root@, path@),
{
    if let Some(rest) = strip_prefix(path, root) {
        let normal = to_slashes(rest.as_str());
        if !normal.as_str().is_empty() {
            return normal;
        }
    }
    name_of_file(path)
}

/// A walk goes into the directory: it is the root, or none of the patterns
/// leaves it out. A walk comes to every file.
pub open spec fn walk_enters(
    plan: TextPlan,
    root: Seq<char>,
    path: Seq<char>,
    is_dir: bool,
) -> bool {
    let relative = if below(path, root) is Some && slashed(below(path, root)->0).len() > 0 {
        slashed(below(path, root)->0)
    } else {
        slashed(path)
    };
    parts_of(path) == parts_of(root) || !is_dir || !any_value_matches(
        match_texts(path, relative),
        views(plan.excludes@),
    )
}

/// Whether a walk goes on with an entry.
pub fn enters(plan: &TextPlan, root: &str, path: &str, is_dir: bool) -> (r: bool)
    ensures
        r == walk_enters(*plan, root@, path@, is_dir),
        !is_dir || parts_of(path@) == parts_of(root@) ==> r,
        is_dir && parts_of(path@) != parts_of(root@) ==> r == !is_hit(
            if below(path@, root@) is Some && slashed(below(path@, root@)->0).len() > 0 {
                slashed(below(path@, root@)->0)
            } else {
                slashed(path@)
            },
            slashed(path@),
            held_name(
                path@,
                if below(path@, root@) is Some && slashed(below(path@, root@)->0).len() > 0 {
                    slashed(below(path@, root@)->0)
                } else {
                    slashed(path@)
                },
            ),
            views(plan.excludes@),
        ),
{
    if same_path(path, root) || !is_dir {
        return true;
    }
    let mut relative = String::new();
    if let Some(rest) = strip_prefix(path, root) {
        relative = to_slashes(rest.as_str());
    }
    if relative.as_str().is_empty() {
        relative = to_slashes(path);
    }
    proof {
        lemma_texts_hit(path@, relative@, views(plan.excludes@));
    }
    let texts = candidate_match_strings(path, relative.as_str());
    !matches_any_pattern(texts.as_slice(), plan.excludes.as_slice())
}

/// The path of a file below the first of the inputs that it lies below: for an
/// input that is a file, below the directory it lies in.
pub open spec fn indexed_relative(path: Seq<char>, inputs: Seq<InputPath>, from: int) -> Seq<char>
    decreases inputs.len() - from,
{
    if from < 0 || from >= inputs.len() {
        name_or_path(path)
    } else {
        let own = inputs[from].canonical@;
        let root = if inputs[from].is_file && parent_of(own) is Some {
            parent_of(own)->0
        } else {
            own
        };
        if below(path, root) is Some && slashed(below(path, root)->0).len() > 0 {
            slashed(below(path, root)->0)
        } else {
            indexed_relative(path, inputs, from + 1)
        }
    }
}

/// The path of a file below the first of the inputs that it lies below.
pub fn relative_path_for_roots(path: &str, inputs: &[InputPath]) -> (r: String)
    ensures
        r@ == indexed_relative(path@, inputs@, 0),
{
    let mut i: usize = 0;
    while i < inputs.len()
        invariant
            i <= inputs@.len(),
            indexed_relative(path@, inputs@, 0) == indexed_relative(path@, inputs@, i as int),
        decreases inputs@.len() - i,
    {
        let own = inputs[i].canonical.as_str();
        let mut root: String = own.to_owned();
        if inputs[i].is_file {
            if let Some(parent) = parent_path(own) {
                root = parent;
            }
        }
        if let Some(rest) = strip_prefix(path, root.as_str()) {
            let normal = to_slashes(rest.as_str());
            if !normal.as_str().is_empty() {
                return normal;
            }
        }
        i += 1;
    }
    name_of_file(path)
}

/// Why nothing was found.
pub open spec fn reason_of(valid: nat, searched: usize) -> Seq<char> {
    if valid == 0 {
        "no_valid_paths"@
    } else if searched == 0 {
        "no_candidate_files"@
    } else {
        "no_match_found"@
    }
}

/// Why nothing was found.
pub fn no_results_reason(valid_paths: usize, files_searched: usize) -> (r: &'static str)
    ensures
        r@ == reason_of(valid_paths as nat, files_searched),
{
    if valid_paths == 0 {
        "no_valid_paths"
    } else if files_searched == 0 {
        "no_candidate_files"
    } else {
        "no_match_found"
    }
}

/// `a` is listed before `b`: by its file, else by its line.
pub open spec fn listed_before(a: LineMatch, b: LineMatch) -> bool {
    precedes(a.file, b.file) || (a.file == b.file && a.line < b.line)
}

/// Behind how many of the matches `m` is listed; they are in order.
pub open spec fn listed_at(items: Seq<LineMatch>, m: LineMatch) -> int
    decreases items.len(),
{
    if items.len() > 0 && listed_before(m, items.last()) {
        listed_at(items.drop_last(), m)
    } else {
        items.len() as int
    }
}

/// The matches by file and line; those of one line in the order they came in.
pub open spec fn listed(items: Seq<LineMatch>) -> Seq<LineMatch>
    decreases items.len(),
{
    if items.len() == 0 {
        Seq::empty()
    } else {
        let before = listed(items.drop_last());
        before.insert(listed_at(before, items.last()), items.last())
    }
}

/// No match stands behind one that is listed after it.
pub open spec fn in_listing_order(items: Seq<LineMatch>) -> bool {
    forall|i: int, j: int|
        0 <= i < j < items.len() ==> !listed_before(#[trigger] items[j], #[trigger] items[i])
}

proof fn lemma_listed_transitive(a: LineMatch, b: LineMatch, c: LineMatch)
    requires
        !listed_before(b, a),
        !listed_before(c, b),
    ensures
        !listed_before(c, a),
{
    lemma_precedes_total(a.file, b.file);
    lemma_precedes_total(b.file, c.file);
    lemma_precedes_total(a.file, c.file);
    if precedes(c.file, a.file) && a.file != b.file {
        lemma_precedes_transitive(c.file, a.file, b.file);
    }
}

proof fn lemma_listed_at(items: Seq<LineMatch>, m: LineMatch)
    requires
        in_listing_order(items),
    ensures
        0 <= listed_at(items, m) <= items.len(),
        forall|i: int| 0 <= i < listed_at(items, m) ==> !listed_before(m, #[trigger] items[i]),
        forall|i: int|
            listed_at(items, m) <= i < items.len() ==> listed_before(m, #[trigger] items[i]),
    decreases items.len(),
{
    if items.len() > 0 {
        let last = items[items.len() - 1];
        let init = items.drop_last();
        if listed_before(m, last) {
            assert forall|i: int, j: int| 0 <= i < j < init.len() implies !listed_before(
                #[trigger] init[j],
                #[trigger] init[i],
            ) by {
                assert(!listed_before(items[j], items[i]));
            }
            lemma_listed_at(init, m);
            assert forall|i: int| 0 <= i < listed_at(items, m) implies !listed_before(
                m,
                #[trigger] items[i],
            ) by {
                assert(items[i] == init[i]);
            }
            assert forall|i: int|
                listed_at(items, m) <= i < items.len() implies listed_before(
                m,
                #[trigger] items[i],
            ) by {
                if i < init.len() {
                    assert(items[i] == init[i]);
                }
            }
        } else {
            assert forall|i: int| 0 <= i < items.len() implies !listed_before(
                m,
                #[trigger] items[i],
            ) by {
                if i < items.len() - 1 {
                    assert(!listed_before(last, items[i]));
                    lemma_listed_transitive(items[i], last, m);
                }
            }
        }
    }
}

/// The listing holds the same matches, in order.
pub proof fn law_listed(items: Seq<LineMatch>)
    ensures
        in_listing_order(listed(items)),
        listed(items).to_multiset() == items.to_multiset(),
        listed(items).len() == items.len(),
    decreases items.len(),
{
    broadcast use vstd::seq_lib::group_to_multiset_ensures;

    if items.len() == 0 {
        assert(items =~= listed(items));
    } else {
        let init = items.drop_last();
        let m = items.last();
        law_listed(init);
        let before = listed(init);
        lemma_listed_at(before, m);
        let at = listed_at(before, m);
        let all = before.insert(at, m);
        assert forall|i: int, j: int| 0 <= i < j < all.len() implies !listed_before(
            #[trigger] all[j],
            #[trigger] all[i],
        ) by {
            assert(i < at ==> all[i] == before[i]);
            assert(i > at ==> all[i] == before[i - 1]);
            assert(j < at ==> all[j] == before[j]);
            assert(j > at ==> all[j] == before[j - 1]);
            if i == at {
                assert(listed_before(m, before[j - 1]));
                lemma_precedes_total(m.file, before[j - 1].file);
            }
        }
        assert(items =~= init.push(m));
    }
}

/// Whether `a` is listed before `b`.
fn comes_before(a: &SearchMatch, b: &SearchMatch) -> (r: bool)
    ensures
        r == listed_before(a@, b@),
{
    proof {
        lemma_precedes_total(a.file@, b.file@);
    }
    if str_eq(a.file.as_str(), b.file.as_str()) {
        a.line < b.line
    } else {
        str_precedes(a.file.as_str(), b.file.as_str())
    }
}

/// A copy of a match.
fn copy_line(m: &SearchMatch) -> (r: SearchMatch)
    ensures
        r@ == m@,
{
    SearchMatch {
        file: m.file.clone(),
        line: m.line,
        snippet: m.snippet.clone(),
        line_text: m.line_text.clone(),
        line_truncated: m.line_truncated,
    }
}

/// Whether a search returned as many matches as it may, where it may return any.
pub fn is_limit_reached(total_returned: usize, max_results: usize) -> (r: bool)
    ensures
        r == (max_results > 0 && total_returned >= max_results),
{
    max_results > 0 && total_returned >= max_results
}

/// The matches of a search by file and line.
pub fn list_matches(matches: &[SearchMatch]) -> (r: Vec<SearchMatch>)
    ensures
        match_views(r@) == listed(match_views(matches@)),
        match_views(r@).to_multiset() == match_views(matches@).to_multiset(),
        forall|i: int, j: int|
            0 <= i < j < r@.len() ==> !precedes((#[trigger] r@[j]).file@, (#[trigger] r@[i]).file@)
                && (r@[i].file@ == r@[j].file@ ==> r@[i].line <= r@[j].line),
{
    let ghost all = match_views(matches@);
    let mut out: Vec<SearchMatch> = Vec::new();
    assert(match_views(out@) =~= Seq::<LineMatch>::empty());
    assert(all.take(0) =~= Seq::<LineMatch>::empty());
    for i in 0..matches.len()
        invariant
            all == match_views(matches@),
            match_views(out@) == listed(all.take(i as int)),
    {
        let ghost before = match_views(out@);
        assert(all.take(i + 1).drop_last() =~= all.take(i as int));
        assert(all.take(i + 1).last() == matches@[i as int]@);
        let m = &matches[i];
        let mut at: usize = out.len();
        assert(before.len() == out@.len());
        assert(before.take(at as int) =~= before);
        while at > 0 && comes_before(m, &out[at - 1])
            invariant
                before == match_views(out@),
                at <= out@.len(),
                listed_at(before.take(at as int), m@) == listed_at(before, m@),
            ensures
                at <= out@.len(),
                at == listed_at(before, m@),
            decreases at,
        {
            assert(before.take(at as int).last() == out@[at - 1]@);
            assert(before.take(at as int).drop_last() =~= before.take(at - 1));
            at -= 1;
        }
        out.insert(at, copy_line(m));
        assert(match_views(out@) =~= before.insert(at as int, m@));
    }
    assert(all.take(all.len() as int) =~= all);
    proof {
        law_listed(all);
        let shown = match_views(out@);
        assert forall|i: int, j: int| 0 <= i < j < out@.len() implies !precedes(
            (#[trigger] out@[j]).file@,
            (#[trigger] out@[i]).file@,
        ) && (out@[i].file@ == out@[j].file@ ==> out@[i].line <= out@[j].line) by {
            assert(!listed_before(shown[j], shown[i]));
        }
    }
    out
}

} // verus!
