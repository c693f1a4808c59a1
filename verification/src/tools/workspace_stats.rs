//! How many files, lines and bytes of which languages a directory holds.

use vstd::prelude::*;

use crate::numbers::{decimal, u64_decimal};
use crate::paths::{below, extension, file_name, file_name_of, parts_of, same_path, strip_prefix};
use crate::sorted_map::SortedMap;
use crate::text::{str_eq, views};
use crate::tools::path_filters::{any_value_matches, is_hit, law_hit, matches_any_pattern};
use crate::tools::project_map::name_or_none;
use crate::tools::text_search::{slashed, to_slashes};

verus! {

/// The bytes up to which the lines of a file are counted where the caller does
/// not say.
pub const DEFAULT_MAX_LINE_COUNT_BYTES: u64 = 2_097_152;

/// The bytes up to which the lines of a file are counted at most.
pub const MAX_LINE_COUNT_BYTES_LIMIT: u64 = 20_971_520;

/// How many of the largest files are named.
pub const LARGEST_FILES: usize = 10;

/// The language of files with this extension.
pub open spec fn language_of(ext: Seq<char>) -> Seq<char> {
    if ext == "rs"@ {
        "Rust"@
    } else if ext == "js"@ || ext == "jsx"@ || ext == "mjs"@ || ext == "cjs"@ {
        "JavaScript"@
    } else if ext == "ts"@ || ext == "tsx"@ {
        "TypeScript"@
    } else if ext == "py"@ || ext == "pyi"@ {
        "Python"@
    } else if ext == "go"@ {
        "Go"@
    } else if ext == "java"@ {
        "Java"@
    } else if ext == "kt"@ || ext == "kts"@ {
        "Kotlin"@
    } else if ext == "c"@ || ext == "h"@ {
        "C"@
    } else if ext == "cpp"@ || ext == "cc"@ || ext == "cxx"@ || ext == "hpp"@ || ext == "hh"@ || ext == "hxx"@ || ext == "inl"@ || ext == "inc"@ {
        "C++"@
    } else if ext == "cs"@ {
        "C#"@
    } else if ext == "swift"@ {
        "Swift"@
    } else if ext == "nix"@ {
        "Nix"@
    } else if ext == "dart"@ {
        "Dart"@
    } else if ext == "rb"@ {
        "Ruby"@
    } else if ext == "php"@ {
        "PHP"@
    } else if ext == "html"@ || ext == "htm"@ {
        "HTML"@
    } else if ext == "css"@ || ext == "scss"@ || ext == "sass"@ || ext == "less"@ {
        "CSS"@
    } else if ext == "md"@ || ext == "rst"@ {
        "Markdown"@
    } else if ext == "json"@ {
        "JSON"@
    } else if ext == "yaml"@ || ext == "yml"@ {
        "YAML"@
    } else if ext == "toml"@ {
        "TOML"@
    } else if ext == "xml"@ {
        "XML"@
    } else if ext == "sh"@ || ext == "bash"@ || ext == "zsh"@ {
        "Shell"@
    } else if ext == "ps1"@ || ext == "bat"@ || ext == "cmd"@ {
        "PowerShell/Batch"@
    } else if ext == "sql"@ {
        "SQL"@
    } else if ext == "proto"@ {
        "Protobuf"@
    } else if ext == "gn"@ || ext == "gni"@ {
        "GN"@
    } else if ext == "gyp"@ || ext == "gypi"@ {
        "GYP"@
    } else if ext == "cmake"@ || ext == "mk"@ {
        "CMake/Make"@
    } else if ext == "lua"@ {
        "Lua"@
    } else if ext == "vue"@ || ext == "svelte"@ {
        "Vue/Svelte"@
    } else if ext == "m"@ || ext == "mm"@ {
        "Objective-C"@
    } else {
        "Other"@
    }
}

/// The language of files with this extension.
pub fn get_lang_from_ext(ext: &str) -> (r: &'static str)
    ensures
        r@ == language_of(ext@),
{
    if str_eq(ext, "rs") {
        "Rust"
    } else if str_eq(ext, "js") || str_eq(ext, "jsx") || str_eq(ext, "mjs") || str_eq(ext, "cjs") {
        "JavaScript"
    } else if str_eq(ext, "ts") || str_eq(ext, "tsx") {
        "TypeScript"
    } else if str_eq(ext, "py") || str_eq(ext, "pyi") {
        "Python"
    } else if str_eq(ext, "go") {
        "Go"
    } else if str_eq(ext, "java") {
        "Java"
    } else if str_eq(ext, "kt") || str_eq(ext, "kts") {
        "Kotlin"
    } else if str_eq(ext, "c") || str_eq(ext, "h") {
        "C"
    } else if str_eq(ext, "cpp") || str_eq(ext, "cc") || str_eq(ext, "cxx") || str_eq(ext, "hpp") || str_eq(ext, "hh") || str_eq(ext, "hxx") || str_eq(ext, "inl") || str_eq(ext, "inc") {
        "C++"
    } else if str_eq(ext, "cs") {
        "C#"
    } else if str_eq(ext, "swift") {
        "Swift"
    } else if str_eq(ext, "nix") {
        "Nix"
    } else if str_eq(ext, "dart") {
        "Dart"
    } else if str_eq(ext, "rb") {
        "Ruby"
    } else if str_eq(ext, "php") {
        "PHP"
    } else if str_eq(ext, "html") || str_eq(ext, "htm") {
        "HTML"
    } else if str_eq(ext, "css") || str_eq(ext, "scss") || str_eq(ext, "sass") || str_eq(ext, "less") {
        "CSS"
    } else if str_eq(ext, "md") || str_eq(ext, "rst") {
        "Markdown"
    } else if str_eq(ext, "json") {
        "JSON"
    } else if str_eq(ext, "yaml") || str_eq(ext, "yml") {
        "YAML"
    } else if str_eq(ext, "toml") {
        "TOML"
    } else if str_eq(ext, "xml") {
        "XML"
    } else if str_eq(ext, "sh") || str_eq(ext, "bash") || str_eq(ext, "zsh") {
        "Shell"
    } else if str_eq(ext, "ps1") || str_eq(ext, "bat") || str_eq(ext, "cmd") {
        "PowerShell/Batch"
    } else if str_eq(ext, "sql") {
        "SQL"
    } else if str_eq(ext, "proto") {
        "Protobuf"
    } else if str_eq(ext, "gn") || str_eq(ext, "gni") {
        "GN"
    } else if str_eq(ext, "gyp") || str_eq(ext, "gypi") {
        "GYP"
    } else if str_eq(ext, "cmake") || str_eq(ext, "mk") {
        "CMake/Make"
    } else if str_eq(ext, "lua") {
        "Lua"
    } else if str_eq(ext, "vue") || str_eq(ext, "svelte") {
        "Vue/Svelte"
    } else if str_eq(ext, "m") || str_eq(ext, "mm") {
        "Objective-C"
    } else {
        "Other"
    }
}

/// How many of the bytes are the one looked for.
pub open spec fn byte_count(bytes: Seq<u8>, byte: u8) -> nat
    decreases bytes.len(),
{
    if bytes.len() == 0 {
        0
    } else {
        byte_count(bytes.drop_last(), byte) + if bytes.last() == byte {
            1nat
        } else {
            0nat
        }
    }
}

/// `bytecount::count`: how many of the bytes are the one looked for.
#[verifier::external_body]
fn count_byte(bytes: &[u8], byte: u8) -> (r: usize)
    ensures
        r == byte_count(bytes@, byte),
{
    bytecount::count(bytes, byte)
}

/// What is known of the lines of a file whose bytes come in parts.
pub struct LineCounter {
    pub newlines: u64,
    pub has_bytes: bool,
    pub ends_with_newline: bool,
}

/// The number, or the largest of the machine where it is larger.
pub open spec fn capped(n: int) -> u64 {
    if n > u64::MAX {
        u64::MAX
    } else {
        n as u64
    }
}

/// The counter has counted these bytes.
pub open spec fn has_counted(c: LineCounter, bytes: Seq<u8>) -> bool {
    &&& c.newlines == capped(byte_count(bytes, 10) as int)
    &&& c.has_bytes == (bytes.len() > 0)
    &&& c.ends_with_newline == (bytes.len() > 0 && bytes.last() == 10)
}

/// How many lines the bytes of a file are: the last one need not be ended.
pub open spec fn line_total(bytes: Seq<u8>) -> nat {
    if bytes.len() > 0 && bytes.last() != 10 {
        byte_count(bytes, 10) + 1
    } else {
        byte_count(bytes, 10)
    }
}

/// The bytes of two parts are counted one after the other.
proof fn lemma_byte_count_concat(a: Seq<u8>, b: Seq<u8>, byte: u8)
    ensures
        byte_count(a + b, byte) == byte_count(a, byte) + byte_count(b, byte),
    decreases b.len(),
{
    if b.len() == 0 {
        assert(a + b =~= a);
    } else {
        assert((a + b).drop_last() =~= a + b.drop_last());
        lemma_byte_count_concat(a, b.drop_last(), byte);
    }
}

impl LineCounter {
    /// No byte was counted.
    pub fn new() -> (r: Self)
        ensures
            has_counted(r, Seq::empty()),
    {
        LineCounter { newlines: 0, has_bytes: false, ends_with_newline: false }
    }

    /// Counts the next bytes of a file: whatever was counted before, they follow
    /// it.
    pub fn feed(&mut self, chunk: &[u8])
        ensures
            forall|before: Seq<u8>| #[trigger]
                has_counted(*old(self), before) ==> has_counted(*final(self), before + chunk@),
    {
        let ghost start = *self;
        if chunk.len() == 0 {
            assert forall|before: Seq<u8>| #[trigger] has_counted(start, before) implies has_counted(
                *self,
                before + chunk@,
            ) by {
                assert(before + chunk@ =~= before);
            }
            return ;
        }
        let found: usize = count_byte(chunk, 10);
        self.newlines = self.newlines.saturating_add(found as u64);
        self.has_bytes = true;
        self.ends_with_newline = chunk[chunk.len() - 1] == 10;
        assert forall|before: Seq<u8>| #[trigger] has_counted(start, before) implies has_counted(
            *self,
            before + chunk@,
        ) by {
            lemma_byte_count_concat(before, chunk@, 10);
            assert((before + chunk@).last() == chunk@.last());
        }
    }

    /// How many lines the file has, given all its bytes.
    pub fn total(&self) -> (r: u64)
        ensures
            forall|bytes: Seq<u8>| #[trigger]
                has_counted(*self, bytes) ==> r == capped(line_total(bytes) as int),
    {
        if !self.has_bytes {
            assert forall|bytes: Seq<u8>| #[trigger] has_counted(*self, bytes) implies capped(
                line_total(bytes) as int,
            ) == 0 by {
                assert(bytes =~= Seq::<u8>::empty());
            }
            0
        } else if self.ends_with_newline {
            self.newlines
        } else {
            self.newlines.saturating_add(1)
        }
    }
}

/// The lines of a file are counted: it is not too large, and of a language that
/// is known.
pub open spec fn counts_lines(language: Seq<char>, size: u64, max_bytes: u64) -> bool {
    max_bytes > 0 && size <= max_bytes && language != "Other"@
}

/// Whether the lines of a file are counted.
pub fn should_count_lines(language: &str, size: u64, max_line_count_bytes: u64) -> (r: bool)
    ensures
        r == counts_lines(language@, size, max_line_count_bytes),
{
    max_line_count_bytes > 0 && size <= max_line_count_bytes && !str_eq(language, "Other")
}

/// The number between `min` and `max` that is nearest to the one asked for.
pub open spec fn clamped_u64(asked: Option<u64>, default: u64, min: u64, max: u64) -> u64 {
    let n = match asked {
        Some(n) => n,
        None => default,
    };
    if n < min {
        min
    } else if n > max {
        max
    } else {
        n
    }
}

/// The bytes up to which the lines of a file are counted.
pub fn line_count_limit(asked: Option<u64>) -> (r: u64)
    ensures
        r == clamped_u64(asked, DEFAULT_MAX_LINE_COUNT_BYTES, 0, MAX_LINE_COUNT_BYTES_LIMIT),
{
    let n: u64 = match asked {
        Some(n) => n,
        None => DEFAULT_MAX_LINE_COUNT_BYTES,
    };
    if n > MAX_LINE_COUNT_BYTES_LIMIT {
        MAX_LINE_COUNT_BYTES_LIMIT
    } else {
        n
    }
}

/// The texts of a file that patterns are held against: its path below the
/// directory, its whole path, and its name.
pub open spec fn stats_texts(path: Seq<char>, relative: Seq<char>) -> Seq<Seq<char>> {
    seq![
        relative,
        slashed(path),
        match file_name_of(path) {
            Some(name) => name,
            None => Seq::empty(),
        },
    ]
}

/// Whether one of the patterns matches a file.
pub fn matches_patterns(path: &str, relative: &str, patterns: &[String]) -> (r: bool)
    ensures
        r == any_value_matches(stats_texts(path@, relative@), views(patterns@)),
{
    let name: String = match file_name(path) {
        Some(name) => name,
        None => String::new(),
    };
    assert(file_name_of(path@) is None ==> name@ =~= Seq::<char>::empty());
    let values: Vec<String> = vec![relative.to_owned(), to_slashes(path), name];
    assert(views(values@) =~= stats_texts(path@, relative@));
    matches_any_pattern(values.as_slice(), patterns)
}

/// The path below the directory; the whole path where it does not lie below it.
pub open spec fn stats_relative(path: Seq<char>, root: Seq<char>) -> Seq<char> {
    if below(path, root) is Some && slashed(below(path, root)->0).len() > 0 {
        slashed(below(path, root)->0)
    } else {
        slashed(path)
    }
}

/// The path below the directory.
pub fn relative_path(path: &str, root: &str) -> (r: String)
    ensures
        r@ == stats_relative(path@, root@),
{
    if let Some(rest) = strip_prefix(path, root) {
        let normal = to_slashes(rest.as_str());
        if !normal.as_str().is_empty() {
            return normal;
        }
    }
    to_slashes(path)
}

/// The file is taken in and not left out.
pub open spec fn stats_passes(
    path: Seq<char>,
    root: Seq<char>,
    includes: Seq<Seq<char>>,
    excludes: Seq<Seq<char>>,
) -> bool {
    let texts = stats_texts(path, stats_relative(path, root));
    (includes.len() == 0 || any_value_matches(texts, includes)) && !any_value_matches(
        texts,
        excludes,
    )
}

/// Whether a file below the directory is taken in and not left out.
pub fn passes_patterns(path: &str, root: &str, includes: &[String], excludes: &[String]) -> (r:
    bool)
    ensures
        r == stats_passes(path@, root@, views(includes@), views(excludes@)),
        r == ((includes@.len() == 0 || is_hit(
            stats_relative(path@, root@),
            slashed(path@),
            name_or_none(path@),
            views(includes@),
        )) && !is_hit(
            stats_relative(path@, root@),
            slashed(path@),
            name_or_none(path@),
            views(excludes@),
        )),
{
    proof {
        let below_root = stats_relative(path@, root@);
        law_hit(below_root, slashed(path@), name_or_none(path@), views(includes@));
        law_hit(below_root, slashed(path@), name_or_none(path@), views(excludes@));
    }
    let relative = relative_path(path, root);
    assert(views(includes@).len() == includes@.len());
    if includes.len() > 0 && !matches_patterns(path, relative.as_str(), includes) {
        return false;
    }
    !matches_patterns(path, relative.as_str(), excludes)
}

/// A walk goes into the directory: it is the root, or none of the patterns
/// leaves it out. A walk comes to every file.
pub fn enters_directory(excludes: &[String], root: &str, path: &str, is_dir: bool) -> (r: bool)
    ensures
        r == (parts_of(path@) == parts_of(root@) || !is_dir || !any_value_matches(
            stats_texts(path@, stats_relative(path@, root@)),
            views(excludes@),
        )),
{
    if same_path(path, root) || !is_dir {
        return true;
    }
    let relative = relative_path(path, root);
    !matches_patterns(path, relative.as_str(), excludes)
}

/// What a directory holds of one language.
pub struct LanguageTotals {
    pub files: usize,
    pub size: u64,
    pub lines: u64,
}

/// A file and its size.
pub struct SizedFile {
    pub path: String,
    pub size: u64,
}

/// A file and its size.
pub struct FileSize {
    pub path: Seq<char>,
    pub size: u64,
}

impl View for SizedFile {
    type V = FileSize;

    open spec fn view(&self) -> FileSize {
        FileSize { path: self.path@, size: self.size }
    }
}

/// The files and their sizes.
pub open spec fn sized_views(files: Seq<SizedFile>) -> Seq<FileSize> {
    Seq::new(files.len(), |i: int| files[i]@)
}

/// What was counted of a directory so far. Numbers that the machine does not hold
/// are its largest.
pub struct StatsAccumulator {
    pub total_files: usize,
    pub files_seen: usize,
    pub files_skipped_by_patterns: usize,
    pub line_counted_files: usize,
    pub line_count_skipped_files: usize,
    pub total_size: u64,
    pub total_lines: u64,
    pub languages: SortedMap<LanguageTotals>,
    pub largest_files: Vec<SizedFile>,
}

/// What was counted of a directory so far.
pub struct Stats {
    pub files: usize,
    pub seen: usize,
    pub skipped: usize,
    pub counted: usize,
    pub uncounted: usize,
    pub size: u64,
    pub lines: u64,
    pub languages: Map<Seq<char>, LanguageTotals>,
    pub largest: Seq<FileSize>,
}

impl View for StatsAccumulator {
    type V = Stats;

    open spec fn view(&self) -> Stats {
        Stats {
            files: self.total_files,
            seen: self.files_seen,
            skipped: self.files_skipped_by_patterns,
            counted: self.line_counted_files,
            uncounted: self.line_count_skipped_files,
            size: self.total_size,
            lines: self.total_lines,
            languages: self.languages@,
            largest: sized_views(self.largest_files@),
        }
    }
}

/// The sum, or the largest number of the machine where it is larger.
pub open spec fn plus(a: usize, b: usize) -> usize {
    if a + b > usize::MAX {
        usize::MAX
    } else {
        (a + b) as usize
    }
}

/// The place of a file among files by size: behind those that are not smaller.
pub open spec fn size_slot(list: Seq<FileSize>, f: FileSize) -> int
    decreases list.len(),
{
    if list.len() > 0 && f.size > list.last().size {
        size_slot(list.drop_last(), f)
    } else {
        list.len() as int
    }
}

/// The files by size, the largest first; those of one size in the order in which
/// they came.
pub open spec fn by_size(files: Seq<FileSize>) -> Seq<FileSize>
    decreases files.len(),
{
    if files.len() == 0 {
        Seq::empty()
    } else {
        let before = by_size(files.drop_last());
        before.insert(size_slot(before, files.last()), files.last())
    }
}

/// The first files by size, as many as are named.
pub open spec fn largest_of(files: Seq<FileSize>) -> Seq<FileSize> {
    let all = by_size(files);
    if all.len() > LARGEST_FILES {
        all.take(LARGEST_FILES as int)
    } else {
        all
    }
}

/// No file is larger than one before it.
pub open spec fn sizes_descend(list: Seq<FileSize>) -> bool {
    forall|i: int, j: int|
        0 <= i < j < list.len() ==> (#[trigger] list[j]).size <= (#[trigger] list[i]).size
}

proof fn lemma_size_slot(list: Seq<FileSize>, f: FileSize)
    requires
        sizes_descend(list),
    ensures
        0 <= size_slot(list, f) <= list.len(),
        forall|i: int| 0 <= i < size_slot(list, f) ==> f.size <= (#[trigger] list[i]).size,
        forall|i: int| size_slot(list, f) <= i < list.len() ==> (#[trigger] list[i]).size < f.size,
    decreases list.len(),
{
    if list.len() > 0 && f.size > list.last().size {
        let init = list.drop_last();
        assert forall|i: int, j: int| 0 <= i < j < init.len() implies (#[trigger] init[j]).size <= (
        #[trigger] init[i]).size by {
            assert(list[j].size <= list[i].size);
        }
        lemma_size_slot(init, f);
        assert forall|i: int| 0 <= i < size_slot(list, f) implies f.size <= (
        #[trigger] list[i]).size by {
            assert(list[i] == init[i]);
        }
        assert forall|i: int| size_slot(list, f) <= i < list.len() implies (
        #[trigger] list[i]).size < f.size by {
            if i < init.len() {
                assert(list[i] == init[i]);
            }
        }
    }
}

/// The files by size are the same files, none larger than one before it.
pub proof fn law_by_size(files: Seq<FileSize>)
    ensures
        sizes_descend(by_size(files)),
        by_size(files).len() == files.len(),
        by_size(files).to_multiset() == files.to_multiset(),
    decreases files.len(),
{
    broadcast use vstd::seq_lib::group_to_multiset_ensures;

    if files.len() == 0 {
        assert(by_size(files) =~= files);
    } else {
        let init = files.drop_last();
        let f = files.last();
        law_by_size(init);
        let before = by_size(init);
        lemma_size_slot(before, f);
        let at = size_slot(before, f);
        let all = before.insert(at, f);
        assert forall|i: int, j: int| 0 <= i < j < all.len() implies (#[trigger] all[j]).size <= (
        #[trigger] all[i]).size by {
            assert(i < at ==> all[i] == before[i]);
            assert(i > at ==> all[i] == before[i - 1]);
            assert(j < at ==> all[j] == before[j]);
            assert(j > at ==> all[j] == before[j - 1]);
        }
        assert(files =~= init.push(f));
    }
}

/// A copy of a file and its size.
fn copy_sized(f: &SizedFile) -> (r: SizedFile)
    ensures
        r@ == f@,
{
    SizedFile { path: f.path.clone(), size: f.size }
}

/// The first files by size, as many as are named.
pub fn pick_largest(files: &[SizedFile]) -> (r: Vec<SizedFile>)
    ensures
        sized_views(r@) == largest_of(sized_views(files@)),
        r@.len() == if files@.len() > 10 {
            10
        } else {
            files@.len() as int
        },
        forall|i: int, j: int|
            0 <= i < j < r@.len() ==> (#[trigger] r@[j]).size <= (#[trigger] r@[i]).size,
{
    proof {
        law_by_size(sized_views(files@));
    }
    let ghost all = sized_views(files@);
    let mut out: Vec<SizedFile> = Vec::new();
    assert(sized_views(out@) =~= Seq::<FileSize>::empty());
    assert(all.take(0) =~= Seq::<FileSize>::empty());
    for i in 0..files.len()
        invariant
            all == sized_views(files@),
            sized_views(out@) == by_size(all.take(i as int)),
    {
        let ghost before = sized_views(out@);
        assert(all.take(i + 1).drop_last() =~= all.take(i as int));
        assert(all.take(i + 1).last() == files@[i as int]@);
        let f = &files[i];
        let mut at: usize = out.len();
        assert(before.take(at as int) =~= before);
        while at > 0 && f.size > out[at - 1].size
            invariant
                before == sized_views(out@),
                at <= out@.len(),
                size_slot(before.take(at as int), f@) == size_slot(before, f@),
            ensures
                at <= out@.len(),
                at == size_slot(before, f@),
            decreases at,
        {
            assert(before.take(at as int).last() == out@[at - 1]@);
            assert(before.take(at as int).drop_last() =~= before.take(at - 1));
            at -= 1;
        }
        out.insert(at, copy_sized(f));
        assert(sized_views(out@) =~= before.insert(at as int, f@));
    }
    assert(all.take(all.len() as int) =~= all);
    let ghost ordered = sized_views(out@);
    assert(ordered.len() == out@.len());
    if out.len() > LARGEST_FILES {
        out.truncate(LARGEST_FILES);
        assert(sized_views(out@) =~= ordered.take(LARGEST_FILES as int));
    }
    proof {
        assert forall|i: int, j: int| 0 <= i < j < out@.len() implies (#[trigger] out@[j]).size <= (
        #[trigger] out@[i]).size by {
            assert(sized_views(out@)[i] == ordered[i] && sized_views(out@)[j] == ordered[j]);
            assert(ordered[j].size <= ordered[i].size);
        }
    }
    out
}

/// The largest files after one more: it is kept where there are few, or where it
/// is larger than the one kept last; of more than twice as many as are named,
/// the first by size stay.
pub open spec fn with_file(list: Seq<FileSize>, f: FileSize) -> Seq<FileSize> {
    if list.len() < LARGEST_FILES || f.size > list.last().size {
        let all = list.push(f);
        if all.len() > 20 {
            largest_of(all)
        } else {
            all
        }
    } else {
        list
    }
}

/// What a directory holds of a language after one more file.
pub open spec fn with_language(
    languages: Map<Seq<char>, LanguageTotals>,
    language: Seq<char>,
    files: usize,
    size: u64,
    lines: u64,
) -> Map<Seq<char>, LanguageTotals> {
    let before = if languages.contains_key(language) {
        languages[language]
    } else {
        LanguageTotals { files: 0, size: 0, lines: 0 }
    };
    languages.insert(
        language,
        LanguageTotals {
            files: plus(before.files, files),
            size: capped(before.size + size),
            lines: capped(before.lines + lines),
        },
    )
}

/// What was counted after a file that is left out.
pub open spec fn with_skipped(s: Stats) -> Stats {
    Stats { seen: plus(s.seen, 1), skipped: plus(s.skipped, 1), ..s }
}

/// What was counted after a file.
pub open spec fn with_matched(
    s: Stats,
    path: Seq<char>,
    size: u64,
    language: Seq<char>,
    lines: u64,
    counted: bool,
) -> Stats {
    Stats {
        seen: plus(s.seen, 1),
        files: plus(s.files, 1),
        size: capped(s.size + size),
        lines: capped(s.lines + lines),
        counted: if counted {
            plus(s.counted, 1)
        } else {
            s.counted
        },
        uncounted: if counted {
            s.uncounted
        } else {
            plus(s.uncounted, 1)
        },
        languages: with_language(s.languages, language, 1, size, lines),
        largest: with_file(s.largest, FileSize { path, size }),
        ..s
    }
}

/// What both hold of each language together.
pub open spec fn languages_joined(
    a: Map<Seq<char>, LanguageTotals>,
    keys: Seq<Seq<char>>,
    values: Seq<LanguageTotals>,
    n: int,
) -> Map<Seq<char>, LanguageTotals>
    decreases n,
{
    if n <= 0 {
        a
    } else {
        with_language(
            languages_joined(a, keys, values, n - 1),
            keys[n - 1],
            values[n - 1].files,
            values[n - 1].size,
            values[n - 1].lines,
        )
    }
}

impl StatsAccumulator {
    /// The languages are in order.
    pub open spec fn wf(&self) -> bool {
        self.languages.wf()
    }

    /// Nothing was counted.
    pub fn new() -> (r: Self)
        ensures
            r.wf(),
            r@ == (Stats {
                files: 0,
                seen: 0,
                skipped: 0,
                counted: 0,
                uncounted: 0,
                size: 0,
                lines: 0,
                languages: Map::empty(),
                largest: Seq::empty(),
            }),
    {
        let out = StatsAccumulator {
            total_files: 0,
            files_seen: 0,
            files_skipped_by_patterns: 0,
            line_counted_files: 0,
            line_count_skipped_files: 0,
            total_size: 0,
            total_lines: 0,
            languages: SortedMap::new(),
            largest_files: Vec::new(),
        };
        assert(sized_views(out.largest_files@) =~= Seq::<FileSize>::empty());
        out
    }

    /// Counts a file that is left out.
    pub fn record_skipped_file(&mut self)
        requires
            old(self).wf(),
        ensures
            final(self).wf(),
            final(self)@ == with_skipped(old(self)@),
            old(self).files_skipped_by_patterns < usize::MAX ==> final(
                self).files_skipped_by_patterns == old(self).files_skipped_by_patterns + 1,
            final(self).total_files == old(self).total_files,
    {
        self.files_seen = self.files_seen.saturating_add(1);
        self.files_skipped_by_patterns = self.files_skipped_by_patterns.saturating_add(1);
    }

    /// Adds to what is counted of a language.
    fn add_language(&mut self, language: &str, files: usize, size: u64, lines: u64)
        requires
            old(self).wf(),
        ensures
            final(self).wf(),
            final(self)@ == (Stats {
                languages: with_language(old(self)@.languages, language@, files, size, lines),
                ..old(self)@
            }),
    {
        let mut totals = LanguageTotals { files, size, lines };
        if let Some(before) = self.languages.get(language) {
            totals = LanguageTotals {
                files: before.files.saturating_add(files),
                size: before.size.saturating_add(size),
                lines: before.lines.saturating_add(lines),
            };
        }
        self.languages.insert(language, totals);
    }

    /// Counts a file.
    pub fn record_matched_file(
        &mut self,
        path: &str,
        size: u64,
        language: &str,
        line_count: u64,
        line_counted: bool,
    )
        requires
            old(self).wf(),
        ensures
            final(self).wf(),
            final(self)@ == with_matched(
                old(self)@,
                path@,
                size,
                language@,
                line_count,
                line_counted,
            ),
            old(self).total_files < usize::MAX ==> final(self).total_files == old(self).total_files
                + 1,
            old(self).total_size + size <= u64::MAX ==> final(self).total_size == old(
                self).total_size + size,
            old(self).total_lines + line_count <= u64::MAX ==> final(self).total_lines == old(
                self).total_lines + line_count,
            final(self).files_skipped_by_patterns == old(self).files_skipped_by_patterns,
    {
        self.files_seen = self.files_seen.saturating_add(1);
        self.total_files = self.total_files.saturating_add(1);
        self.total_size = self.total_size.saturating_add(size);
        self.total_lines = self.total_lines.saturating_add(line_count);
        if line_counted {
            self.line_counted_files = self.line_counted_files.saturating_add(1);
        } else {
            self.line_count_skipped_files = self.line_count_skipped_files.saturating_add(1);
        }
        self.add_language(language, 1, size, line_count);
        self.push_largest_file(path, size);
    }

    /// Adds what was counted elsewhere.
    pub fn merge(&mut self, other: &StatsAccumulator)
        requires
            old(self).wf(),
            other.wf(),
        ensures
            final(self).wf(),
            final(self)@ == (Stats {
                files: plus(old(self)@.files, other@.files),
                seen: plus(old(self)@.seen, other@.seen),
                skipped: plus(old(self)@.skipped, other@.skipped),
                counted: plus(old(self)@.counted, other@.counted),
                uncounted: plus(old(self)@.uncounted, other@.uncounted),
                size: capped(old(self)@.size + other@.size),
                lines: capped(old(self)@.lines + other@.lines),
                languages: languages_joined(
                    old(self)@.languages,
                    views(other.languages.keys@),
                    other.languages.values@,
                    other.languages.values@.len() as int,
                ),
                largest: largest_of(old(self)@.largest + other@.largest),
            }),
            old(self).total_files + other.total_files <= usize::MAX ==> final(self).total_files
                == old(self).total_files + other.total_files,
            old(self).total_size + other.total_size <= u64::MAX ==> final(self).total_size == old(
                self).total_size + other.total_size,
            old(self).total_lines + other.total_lines <= u64::MAX ==> final(self).total_lines
                == old(self).total_lines + other.total_lines,
    {
        self.total_files = self.total_files.saturating_add(other.total_files);
        self.files_seen = self.files_seen.saturating_add(other.files_seen);
        self.files_skipped_by_patterns = self.files_skipped_by_patterns.saturating_add(
            other.files_skipped_by_patterns,
        );
        self.line_counted_files = self.line_counted_files.saturating_add(other.line_counted_files);
        self.line_count_skipped_files = self.line_count_skipped_files.saturating_add(
            other.line_count_skipped_files,
        );
        self.total_size = self.total_size.saturating_add(other.total_size);
        self.total_lines = self.total_lines.saturating_add(other.total_lines);
        let ghost start = self@;
        let ghost keys = views(other.languages.keys@);
        for i in 0..other.languages.values.len()
            invariant
                self.wf(),
                other.wf(),
                keys == views(other.languages.keys@),
                self@ == (Stats {
                    languages: languages_joined(
                        start.languages,
                        keys,
                        other.languages.values@,
                        i as int,
                    ),
                    ..start
                }),
        {
            assert(keys[i as int] == other.languages.keys@[i as int]@);
            let totals = &other.languages.values[i];
            let files: usize = totals.files;
            let size: u64 = totals.size;
            let lines: u64 = totals.lines;
            self.add_language(other.languages.keys[i].as_str(), files, size, lines);
        }
        let ghost own = sized_views(self.largest_files@);
        let ghost more = sized_views(other.largest_files@);
        for i in 0..other.largest_files.len()
            invariant
                self.wf(),
                more == sized_views(other.largest_files@),
                sized_views(self.largest_files@) == own + more.take(i as int),
                self@ == (Stats {
                    languages: languages_joined(
                        start.languages,
                        keys,
                        other.languages.values@,
                        other.languages.values@.len() as int,
                    ),
                    largest: sized_views(self.largest_files@),
                    ..start
                }),
        {
            let ghost before = sized_views(self.largest_files@);
            self.largest_files.push(copy_sized(&other.largest_files[i]));
            assert(sized_views(self.largest_files@) =~= before.push(more[i as int]));
            assert(sized_views(self.largest_files@) =~= own + more.take(i + 1));
        }
        assert(more.take(other.largest_files@.len() as int) =~= more);
        self.largest_files = pick_largest(self.largest_files.as_slice());
    }

    /// Keeps a file among the largest.
    pub fn push_largest_file(&mut self, path: &str, size: u64)
        requires
            old(self).wf(),
        ensures
            final(self).wf(),
            final(self)@ == (Stats {
                largest: with_file(old(self)@.largest, FileSize { path: path@, size }),
                ..old(self)@
            }),
    {
        let ghost before = sized_views(self.largest_files@);
        assert(before.len() == self.largest_files@.len());
        let keep = self.largest_files.len() < LARGEST_FILES || size
            > self.largest_files[self.largest_files.len() - 1].size;
        if keep {
            self.largest_files.push(SizedFile { path: path.to_owned(), size });
            assert(sized_views(self.largest_files@) =~= before.push(FileSize { path: path@, size }));
            if self.largest_files.len() > 20 {
                self.largest_files = pick_largest(self.largest_files.as_slice());
            }
        }
    }
}

/// A file below the directory. Its lines are given where they were counted.
pub struct StatsFile {
    pub path: String,
    pub extension: String,
    pub is_dir: bool,
    pub size: u64,
    pub lines: Option<u64>,
}

/// What was counted after the first `n` files.
pub open spec fn stats_of(
    files: Seq<StatsFile>,
    root: Seq<char>,
    includes: Seq<Seq<char>>,
    excludes: Seq<Seq<char>>,
    n: int,
) -> Stats
    decreases n,
{
    if n <= 0 {
        Stats {
            files: 0,
            seen: 0,
            skipped: 0,
            counted: 0,
            uncounted: 0,
            size: 0,
            lines: 0,
            languages: Map::empty(),
            largest: Seq::empty(),
        }
    } else {
        let before = stats_of(files, root, includes, excludes, n - 1);
        let f = files[n - 1];
        if f.is_dir {
            before
        } else if !stats_passes(f.path@, root, includes, excludes) {
            with_skipped(before)
        } else {
            with_matched(
                before,
                f.path@,
                f.size,
                language_of(f.extension@),
                match f.lines {
                    Some(n) => n,
                    None => 0,
                },
                f.lines is Some,
            )
        }
    }
}

/// Counts the files below a directory.
pub fn collect_stats(
    files: &[StatsFile],
    root: &str,
    includes: &[String],
    excludes: &[String],
) -> (r: StatsAccumulator)
    ensures
        r.wf(),
        r@ == stats_of(
            files@,
            root@,
            views(includes@),
            views(excludes@),
            files@.len() as int,
        ),
        ({
            let kept = files@.filter(
                |f: StatsFile| is_tallied(f, root@, views(includes@), views(excludes@)),
            );
            &&& r.total_files == kept.len()
            &&& bytes_of(kept) <= u64::MAX ==> r.total_size == bytes_of(kept)
            &&& lines_of(kept) <= u64::MAX ==> r.total_lines == lines_of(kept)
        }),
{
    proof {
        assert(files@.take(files@.len() as int) =~= files@);
        law_stats_totals(
            files@,
            root@,
            views(includes@),
            views(excludes@),
            files@.len() as int,
            Seq::empty(),
        );
    }
    let mut stats = StatsAccumulator::new();
    for i in 0..files.len()
        invariant
            stats.wf(),
            stats@ == stats_of(files@, root@, views(includes@), views(excludes@), i as int),
    {
        let f = &files[i];
        if !f.is_dir {
            if !passes_patterns(f.path.as_str(), root, includes, excludes) {
                stats.record_skipped_file();
            } else {
                let language = get_lang_from_ext(f.extension.as_str());
                let lines: u64 = match f.lines {
                    Some(n) => n,
                    None => 0,
                };
                let counted = f.lines.is_some();
                stats.record_matched_file(f.path.as_str(), f.size, language, lines, counted);
            }
        }
    }
    stats
}

/// What a directory holds of a language.
pub struct LanguageLine {
    pub language: String,
    pub files: usize,
    pub lines: u64,
    pub size_bytes: u64,
}

/// What a directory holds of a language.
pub struct Line {
    pub language: Seq<char>,
    pub files: usize,
    pub lines: u64,
    pub size: u64,
}

impl View for LanguageLine {
    type V = Line;

    open spec fn view(&self) -> Line {
        Line {
            language: self.language@,
            files: self.files,
            lines: self.lines,
            size: self.size_bytes,
        }
    }
}

/// What a directory holds of the languages.
pub open spec fn line_views(lines: Seq<LanguageLine>) -> Seq<Line> {
    Seq::new(lines.len(), |i: int| lines[i]@)
}

/// The place of a language among languages by their files: behind those with no
/// fewer.
pub open spec fn line_slot(list: Seq<Line>, l: Line) -> int
    decreases list.len(),
{
    if list.len() > 0 && l.files > list.last().files {
        line_slot(list.drop_last(), l)
    } else {
        list.len() as int
    }
}

/// The first `n` languages by their files, the most first; those with as many in
/// the order of their names.
pub open spec fn breakdown(keys: Seq<Seq<char>>, values: Seq<LanguageTotals>, n: int) -> Seq<Line>
    decreases n,
{
    if n <= 0 {
        Seq::empty()
    } else {
        let before = breakdown(keys, values, n - 1);
        let l = Line {
            language: keys[n - 1],
            files: values[n - 1].files,
            lines: values[n - 1].lines,
            size: values[n - 1].size,
        };
        before.insert(line_slot(before, l), l)
    }
}

/// The line tells of a language and its totals.
pub open spec fn is_line_of(line: Line, language: Seq<char>, totals: LanguageTotals) -> bool {
    line.language == language && line.files == totals.files && line.lines == totals.lines
        && line.size == totals.size
}

/// Whether a line tells of one of the first `n` languages.
pub open spec fn is_line(
    line: Line,
    keys: Seq<Seq<char>>,
    values: Seq<LanguageTotals>,
    n: int,
) -> bool {
    exists|k: int| 0 <= k < n && is_line_of(line, keys[k], #[trigger] values[k])
}

/// Where a line goes is behind those with as many files or more, before those with fewer.
proof fn lemma_line_slot(list: Seq<Line>, l: Line)
    requires
        forall|i: int, j: int|
            0 <= i < j < list.len() ==> (#[trigger] list[j]).files <= (#[trigger] list[i]).files,
    ensures
        0 <= line_slot(list, l) <= list.len(),
        forall|i: int| 0 <= i < line_slot(list, l) ==> l.files <= (#[trigger] list[i]).files,
        forall|i: int|
            line_slot(list, l) <= i < list.len() ==> (#[trigger] list[i]).files < l.files,
    decreases list.len(),
{
    if list.len() > 0 {
        if l.files > list.last().files {
            let front = list.drop_last();
            lemma_line_slot(front, l);
            assert forall|i: int| line_slot(list, l) <= i < list.len() implies (
            #[trigger] list[i]).files < l.files by {
                if i < front.len() {
                    assert(front[i] == list[i]);
                }
            }
            assert forall|i: int| 0 <= i < line_slot(list, l) implies l.files <= (
            #[trigger] list[i]).files by {
                assert(front[i] == list[i]);
            }
        } else {
            assert forall|i: int| 0 <= i < list.len() implies l.files <= (
            #[trigger] list[i]).files by {
                if i < list.len() - 1 {
                    assert(list[list.len() - 1].files <= list[i].files);
                }
            }
        }
    }
}

/// The languages are listed each once, those with the most files first.
pub proof fn law_breakdown(keys: Seq<Seq<char>>, values: Seq<LanguageTotals>, n: int)
    requires
        0 <= n <= values.len(),
    ensures
        breakdown(keys, values, n).len() == n,
        forall|i: int, j: int|
            0 <= i < j < n ==> (#[trigger] breakdown(keys, values, n)[j]).files <= (
            #[trigger] breakdown(keys, values, n)[i]).files,
        forall|i: int|
            0 <= i < n ==> is_line(#[trigger] breakdown(keys, values, n)[i], keys, values, n),
    decreases n,
{
    if n > 0 {
        law_breakdown(keys, values, n - 1);
        let before = breakdown(keys, values, n - 1);
        let l = Line {
            language: keys[n - 1],
            files: values[n - 1].files,
            lines: values[n - 1].lines,
            size: values[n - 1].size,
        };
        lemma_line_slot(before, l);
        let at = line_slot(before, l);
        let all = breakdown(keys, values, n);
        assert(all == before.insert(at, l));
        assert forall|i: int, j: int| 0 <= i < j < n implies (#[trigger] all[j]).files <= (
        #[trigger] all[i]).files by {
            let a = if i < at {
                i
            } else {
                i - 1
            };
            let b = if j < at {
                j
            } else {
                j - 1
            };
            if i != at {
                assert(all[i] == before[a]);
            }
            if j != at {
                assert(all[j] == before[b]);
            }
        }
        assert forall|i: int| 0 <= i < n implies is_line(#[trigger] all[i], keys, values, n) by {
            if i == at {
                assert(is_line_of(all[i], keys[n - 1], values[n - 1]));
            } else {
                let a = if i < at {
                    i
                } else {
                    i - 1
                };
                assert(all[i] == before[a]);
                let k = choose|k: int|
                    0 <= k < n - 1 && is_line_of(before[a], keys[k], #[trigger] values[k]);
                assert(is_line_of(all[i], keys[k], values[k]));
            }
        }
    }
}

/// The languages by their files, the most first.
pub fn languages_breakdown(stats: &StatsAccumulator) -> (r: Vec<LanguageLine>)
    requires
        stats.wf(),
    ensures
        line_views(r@) == breakdown(
            views(stats.languages.keys@),
            stats.languages.values@,
            stats.languages.values@.len() as int,
        ),
        r@.len() == stats.languages.values@.len(),
        forall|i: int, j: int|
            0 <= i < j < r@.len() ==> (#[trigger] r@[j]).files <= (#[trigger] r@[i]).files,
        forall|i: int|
            0 <= i < r@.len() ==> exists|k: int|
                0 <= k < stats.languages.values@.len() && is_line_of(
                    (#[trigger] r@[i])@,
                    stats.languages.keys@[k]@,
                    #[trigger] stats.languages.values@[k],
                ),
{
    let ghost keys = views(stats.languages.keys@);
    let mut out: Vec<LanguageLine> = Vec::new();
    assert(line_views(out@) =~= Seq::<Line>::empty());
    for i in 0..stats.languages.values.len()
        invariant
            stats.wf(),
            keys == views(stats.languages.keys@),
            line_views(out@) == breakdown(keys, stats.languages.values@, i as int),
    {
        let ghost before = line_views(out@);
        let totals = &stats.languages.values[i];
        let files: usize = totals.files;
        let line = LanguageLine {
            language: stats.languages.keys[i].clone(),
            files,
            lines: totals.lines,
            size_bytes: totals.size,
        };
        assert(keys[i as int] == line.language@);
        let ghost l = line@;
        let mut at: usize = out.len();
        assert(before.len() == out@.len());
        assert(before.take(at as int) =~= before);
        while at > 0 && files > out[at - 1].files
            invariant
                before == line_views(out@),
                l.files == files,
                at <= out@.len(),
                line_slot(before.take(at as int), l) == line_slot(before, l),
            ensures
                at <= out@.len(),
                at == line_slot(before, l),
            decreases at,
        {
            assert(before.take(at as int).last() == out@[at - 1]@);
            assert(before.take(at as int).drop_last() =~= before.take(at - 1));
            at -= 1;
        }
        out.insert(at, line);
        assert(line_views(out@) =~= before.insert(at as int, l));
    }
    proof {
        let values = stats.languages.values@;
        law_breakdown(keys, values, values.len() as int);
        let shown = line_views(out@);
        assert forall|i: int, j: int| 0 <= i < j < out@.len() implies (#[trigger] out@[j]).files <= (
        #[trigger] out@[i]).files by {
            assert(shown[j].files <= shown[i].files);
        }
        assert forall|i: int| 0 <= i < out@.len() implies exists|k: int|
            0 <= k < values.len() && is_line_of(
                (#[trigger] out@[i])@,
                stats.languages.keys@[k]@,
                #[trigger] values[k],
            ) by {
            assert(is_line(shown[i], keys, values, values.len() as int));
            let k = choose|k: int|
                0 <= k < values.len() && is_line_of(shown[i], keys[k], #[trigger] values[k]);
            assert(keys[k] == stats.languages.keys@[k]@);
        }
    }
    out
}

/// The remark on the lines that were not counted.
pub open spec fn lines_note(uncounted: usize, max_bytes: u64) -> Seq<char> {
    if uncounted > 0 {
        "Line counts skip files over "@ + decimal(max_bytes as nat)
            + " bytes or extensions treated as non-text."@
    } else {
        Seq::empty()
    }
}

/// The remark on the lines that were not counted.
pub fn line_counts_note(line_count_skipped_files: usize, max_line_count_bytes: u64) -> (r: String)
    ensures
        r@ == lines_note(line_count_skipped_files, max_line_count_bytes),
{
    if line_count_skipped_files > 0 {
        let mut text = "Line counts skip files over ".to_owned();
        let limit = u64_decimal(max_line_count_bytes);
        text.append(limit.as_str());
        text.append(" bytes or extensions treated as non-text.");
        text
    } else {
        let none = String::new();
        assert(none@ =~= Seq::<char>::empty());
        none
    }
}

/// Every file that was seen was either left out or counted, and every file that
/// was counted had its lines counted or not, where the machine holds the
/// numbers.
pub proof fn law_stats_complete(
    files: Seq<StatsFile>,
    root: Seq<char>,
    includes: Seq<Seq<char>>,
    excludes: Seq<Seq<char>>,
    n: int,
)
    requires
        0 <= n <= files.len() <= usize::MAX,
    ensures
        ({
            let s = stats_of(files, root, includes, excludes, n);
            &&& s.seen == s.files + s.skipped
            &&& s.files == s.counted + s.uncounted
            &&& s.seen <= n
        }),
    decreases n,
{
    if n > 0 {
        law_stats_complete(files, root, includes, excludes, n - 1);
    }
}

/// Whether a file is one of those that are counted: it is no directory, one of the patterns
/// that are given takes it in, and none leaves it out.
pub open spec fn is_tallied(
    f: StatsFile,
    root: Seq<char>,
    includes: Seq<Seq<char>>,
    excludes: Seq<Seq<char>>,
) -> bool {
    &&& !f.is_dir
    &&& includes.len() == 0 || is_hit(
        stats_relative(f.path@, root),
        slashed(f.path@),
        name_or_none(f.path@),
        includes,
    )
    &&& !is_hit(
        stats_relative(f.path@, root),
        slashed(f.path@),
        name_or_none(f.path@),
        excludes,
    )
}

/// The bytes of all files.
pub open spec fn bytes_of(files: Seq<StatsFile>) -> nat
    decreases files.len(),
{
    if files.len() == 0 {
        0
    } else {
        bytes_of(files.drop_last()) + files.last().size as nat
    }
}

/// The lines of all files whose lines were counted.
pub open spec fn lines_of(files: Seq<StatsFile>) -> nat
    decreases files.len(),
{
    if files.len() == 0 {
        0
    } else {
        lines_of(files.drop_last()) + match files.last().lines {
            Some(n) => n as nat,
            None => 0,
        }
    }
}

/// The files of a language.
pub open spec fn in_language(files: Seq<StatsFile>, language: Seq<char>) -> Seq<StatsFile> {
    files.filter(|f: StatsFile| language_of(f.extension@) == language)
}

/// The totals are those of the files that are tallied, and of each language those of its
/// files.
pub proof fn law_stats_totals(
    files: Seq<StatsFile>,
    root: Seq<char>,
    includes: Seq<Seq<char>>,
    excludes: Seq<Seq<char>>,
    n: int,
    language: Seq<char>,
)
    requires
        0 <= n <= files.len() <= usize::MAX,
    ensures
        ({
            let s = stats_of(files, root, includes, excludes, n);
            let kept = files.take(n).filter(
                |f: StatsFile| is_tallied(f, root, includes, excludes),
            );
            let own = in_language(kept, language);
            &&& s.files == kept.len() <= n
            &&& bytes_of(kept) <= u64::MAX ==> s.size == bytes_of(kept)
            &&& lines_of(kept) <= u64::MAX ==> s.lines == lines_of(kept)
            &&& own.len() <= kept.len()
            &&& s.languages.contains_key(language) <==> own.len() > 0
            &&& own.len() > 0 ==> s.languages[language].files == own.len()
            &&& own.len() > 0 && bytes_of(own) <= u64::MAX ==> s.languages[language].size
                == bytes_of(own)
            &&& own.len() > 0 && lines_of(own) <= u64::MAX ==> s.languages[language].lines
                == lines_of(own)
        }),
    decreases n,
{
    reveal(Seq::filter);
    let tallied = |f: StatsFile| is_tallied(f, root, includes, excludes);
    let spoken = |f: StatsFile| language_of(f.extension@) == language;
    if n > 0 {
        law_stats_totals(files, root, includes, excludes, n - 1, language);
        let f = files[n - 1];
        assert(files.take(n).drop_last() =~= files.take(n - 1));
        assert(files.take(n).last() == f);
        let before = files.take(n - 1).filter(tallied);
        let kept = files.take(n).filter(tallied);
        law_hit(
            stats_relative(f.path@, root),
            slashed(f.path@),
            name_or_none(f.path@),
            includes,
        );
        law_hit(
            stats_relative(f.path@, root),
            slashed(f.path@),
            name_or_none(f.path@),
            excludes,
        );
        assert(stats_passes(f.path@, root, includes, excludes) == is_tallied(
            StatsFile { is_dir: false, ..f },
            root,
            includes,
            excludes,
        ));
        if is_tallied(f, root, includes, excludes) {
            assert(kept == before.push(f));
            assert(kept.drop_last() =~= before);
            if language_of(f.extension@) == language {
                assert(in_language(kept, language) == in_language(before, language).push(f));
                assert(in_language(kept, language).drop_last() =~= in_language(before, language));
                if in_language(before, language).len() == 0 {
                    assert(bytes_of(in_language(before, language)) == 0);
                    assert(lines_of(in_language(before, language)) == 0);
                }
            } else {
                assert(in_language(kept, language) == in_language(before, language));
            }
        } else {
            assert(kept == before);
        }
    } else {
        assert(files.take(0).filter(tallied).len() == 0);
        assert(files.take(0).filter(tallied).filter(spoken).len() == 0);
    }
}

} // verus!
