//! Lines in which a symbol is likely declared or used.

use vstd::prelude::*;

use crate::line_search::{
    build_matcher, found_lines, hit_views, is_search_pattern, search_lines, search_pattern_of,
};
use crate::text::{str_trim, trim};
use crate::tools::compare_directories::capped_sum;
use crate::tools::text_search::{escape_regex, escaped};

verus! {

/// The largest file in which declarations are searched, in bytes.
pub const MAX_DEFINITION_FILE_BYTES: u64 = 2 * 1024 * 1024;

/// The declarations that are listed, at most.
pub const MAX_DEFINITIONS: usize = 20;

/// The largest file in which uses are searched, in bytes.
pub const MAX_REFERENCE_FILE_BYTES: u64 = 5 * 1024 * 1024;

/// The uses that are listed, at most.
pub const MAX_REFERENCES: usize = 200;

/// The expression that finds the lines that declare a symbol.
pub open spec fn definition_search(symbol: Seq<char>) -> Seq<char> {
    "(?i)(?:\\b(?:fn|pub\\s+fn|def|class|struct|enum|trait|interface|protocol|actor|extension|type|function|func|const|let|var|void|int|bool|auto|static)\\s+"@
        + escaped(symbol) + "\\b|@(?:interface|implementation|protocol)\\s+"@ + escaped(symbol)
        + "\\b)"@
}

/// The expression that finds the lines that declare a symbol.
pub fn definition_search_pattern(symbol: &str) -> (r: String)
    ensures
        r@ == definition_search(symbol@),
{
    let own = escape_regex(symbol);
    let mut out =
        "(?i)(?:\\b(?:fn|pub\\s+fn|def|class|struct|enum|trait|interface|protocol|actor|extension|type|function|func|const|let|var|void|int|bool|auto|static)\\s+".to_owned();
    out.append(own.as_str());
    out.append("\\b|@(?:interface|implementation|protocol)\\s+");
    out.append(own.as_str());
    out.append("\\b)");
    out
}

/// The expression that finds the lines that use a symbol.
pub open spec fn reference_search(symbol: Seq<char>) -> Seq<char> {
    "\\b"@ + escaped(symbol) + "\\b"@
}

/// The expression that finds the lines that use a symbol.
pub fn reference_search_pattern(symbol: &str) -> (r: String)
    ensures
        r@ == reference_search(symbol@),
{
    let mut out = "\\b".to_owned();
    out.append(escape_regex(symbol).as_str());
    out.append("\\b");
    out
}

/// What lines are searched for that declare a symbol; none where the expression is not
/// accepted.
pub fn definition_matcher(symbol: &str) -> (r: Option<grep_regex::RegexMatcher>)
    ensures
        r is Some == is_search_pattern(definition_search(symbol@), true),
        r matches Some(matcher) ==> search_pattern_of(matcher) == (definition_search(symbol@), true),
{
    build_matcher(definition_search_pattern(symbol).as_str(), true)
}

/// What lines are searched for that use a symbol; none where the expression is not
/// accepted.
pub fn reference_matcher(symbol: &str) -> (r: Option<grep_regex::RegexMatcher>)
    ensures
        r is Some == is_search_pattern(reference_search(symbol@), true),
        r matches Some(matcher) ==> search_pattern_of(matcher) == (reference_search(symbol@), true),
{
    build_matcher(reference_search_pattern(symbol).as_str(), true)
}

/// A line that was found.
pub struct SymbolLine {
    pub file: String,
    pub line: u64,
    pub snippet: String,
}

/// A line that was found.
pub struct LineView {
    pub file: Seq<char>,
    pub line: u64,
    pub snippet: Seq<char>,
}

impl View for SymbolLine {
    type V = LineView;

    open spec fn view(&self) -> LineView {
        LineView { file: self.file@, line: self.line, snippet: self.snippet@ }
    }
}

/// A search: the lines that were found, how many files were looked into and passed over,
/// and whether there are enough.
pub struct SymbolSearch {
    pub max_bytes: u64,
    pub max_results: usize,
    pub found: Vec<SymbolLine>,
    pub files_scanned: usize,
    pub files_skipped: usize,
    pub limit_reached: bool,
}

/// A search.
pub struct SearchView {
    pub max_bytes: u64,
    pub max_results: usize,
    pub found: Seq<LineView>,
    pub scanned: nat,
    pub skipped: nat,
    pub full: bool,
}

impl View for SymbolSearch {
    type V = SearchView;

    open spec fn view(&self) -> SearchView {
        SearchView {
            max_bytes: self.max_bytes,
            max_results: self.max_results,
            found: Seq::new(self.found@.len(), |i: int| self.found@[i]@),
            scanned: self.files_scanned as nat,
            skipped: self.files_skipped as nat,
            full: self.limit_reached,
        }
    }
}

/// What is done with a file.
#[derive(Clone, Copy, Debug, PartialEq, Eq, Structural)]
pub enum FileStep {
    Search,
    Skip,
    Stop,
}

/// What is done with a file of this size; none where it could not be measured.
pub open spec fn file_step(s: SearchView, size: Option<u64>) -> FileStep {
    if s.full {
        FileStep::Stop
    } else {
        match size {
            Some(n) => if n <= s.max_bytes {
                FileStep::Search
            } else {
                FileStep::Skip
            },
            None => FileStep::Skip,
        }
    }
}

/// The search when a file came up.
pub open spec fn with_file(s: SearchView, size: Option<u64>) -> SearchView {
    match file_step(s, size) {
        FileStep::Search => SearchView { scanned: capped_sum(s.scanned, 1), ..s },
        FileStep::Skip => SearchView { skipped: capped_sum(s.skipped, 1), ..s },
        FileStep::Stop => s,
    }
}

/// The search with one more line.
pub open spec fn with_line(
    s: SearchView,
    file: Seq<char>,
    line: u64,
    text: Seq<char>,
) -> SearchView {
    if s.full {
        s
    } else {
        let found = s.found.push(LineView { file, line, snippet: trim(text) });
        SearchView { found, full: found.len() >= s.max_results, ..s }
    }
}

/// The search with the first `n` lines of a file.
pub open spec fn with_lines(
    s: SearchView,
    file: Seq<char>,
    lines: Seq<(u64, Seq<char>)>,
    n: int,
) -> SearchView
    decreases n,
{
    if n <= 0 {
        s
    } else {
        with_line(with_lines(s, file, lines, n - 1), file, lines[n - 1].0, lines[n - 1].1)
    }
}

/// The search after a file was searched: with the lines that were found in it, and
/// counted as passed over where it was not searched to its end.
pub open spec fn with_searched(
    s: SearchView,
    file: Seq<char>,
    found: (Seq<(u64, Seq<char>)>, bool),
) -> SearchView {
    let all = with_lines(s, file, found.0, found.0.len() as int);
    if found.1 {
        all
    } else {
        SearchView { skipped: capped_sum(all.skipped, 1), ..all }
    }
}

impl SymbolSearch {
    /// Lines are still taken exactly as long as there are not enough.
    pub open spec fn wf(&self) -> bool {
        &&& self.max_results > 0
        &&& self.found@.len() <= self.max_results
        &&& self.limit_reached == (self.found@.len() >= self.max_results)
    }

    /// A search for declarations.
    pub fn for_definitions() -> (r: Self)
        ensures
            r.wf(),
            r@ == (SearchView {
                max_bytes: MAX_DEFINITION_FILE_BYTES,
                max_results: MAX_DEFINITIONS,
                found: Seq::empty(),
                scanned: 0,
                skipped: 0,
                full: false,
            }),
    {
        let out = SymbolSearch {
            max_bytes: MAX_DEFINITION_FILE_BYTES,
            max_results: MAX_DEFINITIONS,
            found: Vec::new(),
            files_scanned: 0,
            files_skipped: 0,
            limit_reached: false,
        };
        assert(out@.found =~= Seq::<LineView>::empty());
        out
    }

    /// A search for uses.
    pub fn for_references() -> (r: Self)
        ensures
            r.wf(),
            r@ == (SearchView {
                max_bytes: MAX_REFERENCE_FILE_BYTES,
                max_results: MAX_REFERENCES,
                found: Seq::empty(),
                scanned: 0,
                skipped: 0,
                full: false,
            }),
    {
        let out = SymbolSearch {
            max_bytes: MAX_REFERENCE_FILE_BYTES,
            max_results: MAX_REFERENCES,
            found: Vec::new(),
            files_scanned: 0,
            files_skipped: 0,
            limit_reached: false,
        };
        assert(out@.found =~= Seq::<LineView>::empty());
        out
    }

    /// Takes up a file of this size, and says what is done with it.
    pub fn next_file(&mut self, size: Option<u64>) -> (r: FileStep)
        requires
            old(self).wf(),
        ensures
            final(self).wf(),
            r == file_step(old(self)@, size),
            final(self)@ == with_file(old(self)@, size),
            final(self).found == old(self).found,
            final(self).max_bytes == old(self).max_bytes && final(self).max_results == old(
                self,
            ).max_results,
            r is Stop <==> old(self).limit_reached,
            r is Search <==> !old(self).limit_reached && (size matches Some(n) && n <= old(
                self,
            ).max_bytes),
            r is Search && old(self).files_scanned < usize::MAX ==> final(self).files_scanned
                == old(self).files_scanned + 1 && final(self).files_skipped == old(
                self,
            ).files_skipped,
            r is Skip && old(self).files_skipped < usize::MAX ==> final(self).files_skipped == old(
                self,
            ).files_skipped + 1 && final(self).files_scanned == old(self).files_scanned,
    {
        let ghost before = self@;
        if self.limit_reached {
            return FileStep::Stop;
        }
        let searched = match size {
            Some(n) => n <= self.max_bytes,
            None => false,
        };
        if searched {
            self.files_scanned = self.files_scanned.saturating_add(1);
            assert(self@.found =~= before.found);
            FileStep::Search
        } else {
            self.files_skipped = self.files_skipped.saturating_add(1);
            assert(self@.found =~= before.found);
            FileStep::Skip
        }
    }

    /// Takes up a line in which the symbol was found, and says whether more are taken.
    pub fn push_line(&mut self, file: &str, line: u64, text: &str) -> (r: bool)
        requires
            old(self).wf(),
        ensures
            final(self).wf(),
            final(self)@ == with_line(old(self)@, file@, line, text@),
            r == !final(self).limit_reached,
            old(self).limit_reached ==> *final(self) == *old(self),
            !old(self).limit_reached ==> {
                &&& final(self).found@.len() == old(self).found@.len() + 1
                &&& final(self).found@.drop_last() == old(self).found@
                &&& final(self).found@.last().file@ == file@
                &&& final(self).found@.last().line == line
                &&& final(self).found@.last().snippet@ == trim(text@)
            },
            final(self).max_bytes == old(self).max_bytes && final(self).max_results == old(
                self,
            ).max_results,
            final(self).files_scanned == old(self).files_scanned,
    {
        if self.limit_reached {
            return false;
        }
        let ghost before = self@;
        let own = SymbolLine { file: file.to_owned(), line, snippet: str_trim(text) };
        let ghost shown = own@;
        self.found.push(own);
        if self.found.len() >= self.max_results {
            self.limit_reached = true;
        }
        assert(self@.found =~= before.found.push(shown));
        assert(self.found@.drop_last() =~= old(self).found@);
        !self.limit_reached
    }

    /// Searches the bytes of a file, and says whether more are searched; there are none
    /// where the file could not be read.
    pub fn search_file(
        &mut self,
        file: &str,
        matcher: &grep_regex::RegexMatcher,
        bytes: &Option<Vec<u8>>,
    ) -> (r: bool)
        requires
            old(self).wf(),
        ensures
            final(self).wf(),
            final(self)@ == with_searched(
                old(self)@,
                file@,
                match bytes {
                    Some(read) => found_lines(
                        search_pattern_of(*matcher).0,
                        search_pattern_of(*matcher).1,
                        0,
                        (old(self).max_results - old(self).found@.len()) as nat,
                        read@,
                    ),
                    None => (Seq::empty(), false),
                },
            ),
            r == !final(self).limit_reached,
    {
        let ghost before = self@;
        match bytes {
            Some(read) => {
                let room: usize = self.max_results - self.found.len();
                let (hits, ended) = search_lines(matcher, 0, room, read.as_slice());
                let ghost lines = hit_views(hits@);
                for i in 0..hits.len()
                    invariant
                        self.wf(),
                        lines == hit_views(hits@),
                        self@ == with_lines(before, file@, lines, i as int),
                {
                    assert(lines[i as int] == (hits@[i as int].line, hits@[i as int].text@));
                    self.push_line(file, hits[i].line, hits[i].text.as_str());
                }
                if !ended {
                    self.note_failure();
                }
            },
            None => self.note_failure(),
        }
        !self.limit_reached
    }

    /// Notes that a file could not be read to its end.
    pub fn note_failure(&mut self)
        requires
            old(self).wf(),
        ensures
            final(self).wf(),
            final(self)@ == (SearchView {
                skipped: capped_sum(old(self)@.skipped, 1),
                ..old(self)@
            }),
    {
        let ghost before = self@;
        self.files_skipped = self.files_skipped.saturating_add(1);
        assert(self@.found =~= before.found);
    }
}

/// However many lines come up, no more are listed than the limit, and those that were
/// listed stay.
pub proof fn law_lines_bounded(s: SearchView, file: Seq<char>, line: u64, text: Seq<char>)
    requires
        s.full == (s.found.len() >= s.max_results),
        s.found.len() <= s.max_results,
    ensures
        with_line(s, file, line, text).found.len() <= s.max_results,
        forall|i: int|
            0 <= i < s.found.len() ==> #[trigger] with_line(s, file, line, text).found[i]
                == s.found[i],
{
}

} // verus!
