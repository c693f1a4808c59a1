//! Comparing two directories: which files were added, deleted, renamed and
//! modified, and how.

use vstd::prelude::*;

use crate::diffs::{
    changed_lines, count_tag, diff_lines, leads, line_changes, returns_end_lines, unified_diff, unified_text, CONTEXT_LINES, LineTag,
};
use crate::tools::read_file::text_lines;
use crate::encoding::{decode_fuzzy, decoded, is_probably_binary, looks_binary};
use crate::fractions::{
    at_least, decimal_fraction, is_at_least, is_more_than, more_than, parse_fraction, product, Fraction,
};
use crate::numbers::{decimal, usize_decimal};
use crate::order::precedes;
use crate::sorted::{
    ascending, insert_unique, lemma_after_bound, lemma_insert_ascending, lemma_rank, lower_bound,
    position, rank,
};
use crate::text::{byte_len, fitting, opt_view, str_eq, truncate_utf8, views};
use crate::tools::compare_summary::{
    affected_symbols, are_groups, are_symbols, are_top_counts, changed_by_directory, count_views,
    extension_key, extension_keys, extension_label, extension_labels, risk_category, risk_hints,
    risk_keys, risk_of, risky, top_counts, top_directories, top_keys, NamedCount, PathGroup,
};
use crate::tools::edit_file::same_bytes;

verus! {

/// The largest file that is read, unless another is asked for.
pub const DEFAULT_MAX_FILE_SIZE: usize = 2 * 1024 * 1024;

/// How many bytes of differences are returned, unless another number is asked
/// for.
pub const DEFAULT_MAX_DIFF_BYTES: usize = 256 * 1024;

/// How many files of a side are compared, unless another number is asked for.
pub const DEFAULT_MAX_FILES: usize = 20_000;

/// The largest that the size of a file may be set to.
pub const MAX_FILE_SIZE_LIMIT: usize = 64 * 1024 * 1024;

/// The most that the bytes of differences may be set to.
pub const MAX_DIFF_BYTES_LIMIT: usize = 4 * 1024 * 1024;

/// The most that the number of files may be set to.
pub const MAX_FILES_LIMIT: usize = 100_000;

/// How many entries of a list are returned.
pub const TOP_LEVEL_LIST_LIMIT: usize = 100;

/// What to compare, and how much to return.
pub struct Options {
    pub max_file_size: u64,
    pub max_diff_bytes: usize,
    pub max_files: usize,
    pub include_content_diff: bool,
    pub summary_only: bool,
    pub detect_renames: bool,
    pub rename_similarity_threshold: Fraction,
}

/// The number between `min` and `max` that is nearest to the one asked for; the
/// default stands for one that is missing or that the machine does not hold.
pub open spec fn clamped(asked: Option<u64>, default: usize, min: usize, max: usize) -> usize {
    let n = match asked {
        Some(n) => if n <= usize::MAX {
            n as usize
        } else {
            default
        },
        None => default,
    };
    if n < min {
        min
    } else if n > max {
        max
    } else {
        n
    }
}

/// The number between `min` and `max` that is nearest to the one asked for.
pub fn arg_usize(asked: Option<u64>, default_value: usize, min: usize, max: usize) -> (r: usize)
    requires
        min <= max,
    ensures
        r == clamped(asked, default_value, min, max),
{
    let n: usize = match asked {
        Some(n) => if n <= usize::MAX as u64 {
            n as usize
        } else {
            default_value
        },
        None => default_value,
    };
    if n < min {
        min
    } else if n > max {
        max
    } else {
        n
    }
}

/// The patterns of what is never compared.
pub fn default_excludes() -> (r: Vec<String>)
    ensures
        views(r@) == seq![
            ".git/**"@,
            ".hg/**"@,
            ".svn/**"@,
            "node_modules/**"@,
            "vendor/**"@,
            "dist/**"@,
            "build/**"@,
            "target/**"@,
            ".next/**"@,
            ".cache/**"@,
            "__pycache__/**"@,
            ".venv/**"@,
            "coverage/**"@,
        ],
{
    let mut out: Vec<String> = Vec::new();
    out.push(".git/**".to_owned());
    out.push(".hg/**".to_owned());
    out.push(".svn/**".to_owned());
    out.push("node_modules/**".to_owned());
    out.push("vendor/**".to_owned());
    out.push("dist/**".to_owned());
    out.push("build/**".to_owned());
    out.push("target/**".to_owned());
    out.push(".next/**".to_owned());
    out.push(".cache/**".to_owned());
    out.push("__pycache__/**".to_owned());
    out.push(".venv/**".to_owned());
    out.push("coverage/**".to_owned());
    assert(views(out@) =~= seq![
        ".git/**"@,
        ".hg/**"@,
        ".svn/**"@,
        "node_modules/**"@,
        "vendor/**"@,
        "dist/**"@,
        "build/**"@,
        "target/**"@,
        ".next/**"@,
        ".cache/**"@,
        "__pycache__/**"@,
        ".venv/**"@,
        "coverage/**"@,
    ]);
    out
}

/// A file that was left out, and why.
pub struct SkippedFile {
    pub path: String,
    pub side: Option<&'static str>,
    pub reason: &'static str,
    pub message: Option<String>,
    pub left_size: Option<u64>,
    pub right_size: Option<u64>,
    pub max_files: Option<usize>,
}

/// A file that was left out, and why.
pub struct Skipped {
    pub path: Seq<char>,
    pub side: Option<Seq<char>>,
    pub reason: Seq<char>,
    pub message: Option<Seq<char>>,
    pub left_size: Option<u64>,
    pub right_size: Option<u64>,
    pub max_files: Option<usize>,
}

impl View for SkippedFile {
    type V = Skipped;

    open spec fn view(&self) -> Skipped {
        Skipped {
            path: self.path@,
            side: match self.side {
                Some(s) => Some(s@),
                None => None,
            },
            reason: self.reason@,
            message: opt_view(self.message),
            left_size: self.left_size,
            right_size: self.right_size,
            max_files: self.max_files,
        }
    }
}

/// The files that were left out.
pub open spec fn skip_views(items: Seq<SkippedFile>) -> Seq<Skipped> {
    Seq::new(items.len(), |i: int| items[i]@)
}

/// A file that was left out for a reason that needs no more words.
pub open spec fn plain_skip(path: Seq<char>, reason: Seq<char>, message: Option<Seq<char>>) -> Skipped {
    Skipped {
        path,
        side: None,
        reason,
        message,
        left_size: None,
        right_size: None,
        max_files: None,
    }
}

/// A file that was left out for a reason that needs no more words.
fn skip_file(path: &str, reason: &'static str, message: Option<String>) -> (r: SkippedFile)
    ensures
        r@ == plain_skip(path@, reason@, opt_view(message)),
{
    SkippedFile {
        path: path.to_owned(),
        side: None,
        reason,
        message,
        left_size: None,
        right_size: None,
        max_files: None,
    }
}

/// The size of a file and when it was changed.
#[derive(Clone, Copy, Debug, PartialEq, Eq, Structural)]
pub struct FileInfo {
    pub size: u64,
    pub modified_at: u64,
}

/// What a walk through a directory came to: its path below the directory, what
/// it is, and its size and time; or, where those cannot be had, its full path.
pub struct WalkEntry {
    pub relative: String,
    pub is_symlink: bool,
    pub is_file: bool,
    pub info: Result<FileInfo, String>,
}

/// The files of one directory in ascending order, whether there are more, and
/// what was left out.
pub struct CollectedFiles {
    pub paths: Vec<String>,
    pub infos: Vec<FileInfo>,
    pub truncated: bool,
    pub skipped: Vec<SkippedFile>,
}

/// What a walk has collected.
pub struct Collected {
    pub paths: Seq<Seq<char>>,
    pub infos: Seq<FileInfo>,
    pub truncated: bool,
    pub skipped: Seq<Skipped>,
}

impl CollectedFiles {
    /// The files are in ascending order.
    pub open spec fn wf(&self) -> bool {
        ascending(views(self.paths@)) && self.paths@.len() == self.infos@.len()
    }

    /// What was collected.
    pub open spec fn summary(&self) -> Collected {
        Collected {
            paths: views(self.paths@),
            infos: self.infos@,
            truncated: self.truncated,
            skipped: skip_views(self.skipped@),
        }
    }
}

/// What the walk has collected after its first `n` entries; the error of a file
/// whose size is not known ends it. It stops at the first file that is more
/// than are compared.
pub open spec fn collected(
    entries: Seq<WalkEntry>,
    n: int,
    max_files: usize,
    side: Seq<char>,
) -> Result<Collected, Seq<char>>
    decreases n,
{
    if n <= 0 {
        Ok(
            Collected {
                paths: Seq::empty(),
                infos: Seq::empty(),
                truncated: false,
                skipped: Seq::empty(),
            },
        )
    } else {
        match collected(entries, n - 1, max_files, side) {
            Err(e) => Err(e),
            Ok(before) => if before.truncated {
                Ok(before)
            } else {
                collected_one(before, entries[n - 1], max_files, side)
            },
        }
    }
}

/// What the walk has collected after one more entry.
pub open spec fn collected_one(
    before: Collected,
    entry: WalkEntry,
    max_files: usize,
    side: Seq<char>,
) -> Result<Collected, Seq<char>> {
    let path = entry.relative@;
    let at = rank(before.paths, path);
    if entry.is_symlink {
        Ok(
            Collected {
                skipped: before.skipped.push(
                    Skipped {
                        path,
                        side: Some(side),
                        reason: "symlink_skipped"@,
                        message: None,
                        left_size: None,
                        right_size: None,
                        max_files: None,
                    },
                ),
                ..before
            },
        )
    } else if !entry.is_file {
        Ok(before)
    } else if before.paths.len() >= max_files {
        Ok(
            Collected {
                truncated: true,
                skipped: before.skipped.push(
                    Skipped {
                        path,
                        side: Some(side),
                        reason: "max_files_reached"@,
                        message: None,
                        left_size: None,
                        right_size: None,
                        max_files: Some(max_files),
                    },
                ),
                ..before
            },
        )
    } else {
        match entry.info {
            Err(words) => Err("Failed to read metadata for "@ + words@),
            Ok(info) => if at < before.paths.len() && before.paths[at] == path {
                Ok(Collected { infos: before.infos.update(at, info), ..before })
            } else {
                Ok(
                    Collected {
                        paths: before.paths.insert(at, path),
                        infos: before.infos.insert(at, info),
                        ..before
                    },
                )
            },
        }
    }
}

/// The files that a walk through a directory came to.
pub fn collect_files(entries: &[WalkEntry], max_files: usize, side: &'static str) -> (r: Result<
    CollectedFiles,
    String,
>)
    ensures
        collected(entries@, entries@.len() as int, max_files, side@) == (match r {
            Ok(c) => Ok(c.summary()),
            Err(e) => Err(e@),
        }),
        r matches Ok(c) ==> c.wf(),
{
    let mut out = CollectedFiles {
        paths: Vec::new(),
        infos: Vec::new(),
        truncated: false,
        skipped: Vec::new(),
    };
    assert(views(out.paths@) =~= Seq::<Seq<char>>::empty());
    assert(skip_views(out.skipped@) =~= Seq::<Skipped>::empty());
    let mut i: usize = 0;
    while i < entries.len()
        invariant
            i <= entries@.len(),
            out.wf(),
            collected(entries@, i as int, max_files, side@) == Ok::<Collected, Seq<char>>(
                out.summary(),
            ),
        decreases entries@.len() - i,
    {
        let entry = &entries[i];
        i += 1;
        if out.truncated {
            continue;
        }
        let ghost before = out.summary();
        let ghost skips = out.skipped@;
        assert(views(out.paths@).len() == out.paths@.len());
        if entry.is_symlink {
            let skip = SkippedFile {
                path: entry.relative.clone(),
                side: Some(side),
                reason: "symlink_skipped",
                message: None,
                left_size: None,
                right_size: None,
                max_files: None,
            };
            out.skipped.push(skip);
            assert(skip_views(out.skipped@) =~= skip_views(skips).push(skip@));
            continue;
        }
        if !entry.is_file {
            continue;
        }
        if out.paths.len() >= max_files {
            out.truncated = true;
            let skip = SkippedFile {
                path: entry.relative.clone(),
                side: Some(side),
                reason: "max_files_reached",
                message: None,
                left_size: None,
                right_size: None,
                max_files: Some(max_files),
            };
            out.skipped.push(skip);
            assert(skip_views(out.skipped@) =~= skip_views(skips).push(skip@));
            continue;
        }
        let info: FileInfo = match &entry.info {
            Ok(info) => *info,
            Err(words) => {
                let mut text = "Failed to read metadata for ".to_owned();
                text.append(words.as_str());
                proof {
                    lemma_collected_error(entries@, i as int, entries@.len() as int, max_files, side@);
                }
                return Err(text);
            },
        };
        let at: usize = lower_bound(out.paths.as_slice(), entry.relative.as_str());
        proof {
            lemma_rank(before.paths, entry.relative@, at as int);
        }
        if at < out.paths.len() && str_eq(out.paths[at].as_str(), entry.relative.as_str()) {
            out.infos.set(at, info);
        } else {
            proof {
                lemma_after_bound(before.paths, entry.relative@, at as int);
                lemma_insert_ascending(before.paths, entry.relative@, at as int);
            }
            let ghost old_paths = out.paths@;
            out.paths.insert(at, entry.relative.clone());
            out.infos.insert(at, info);
            assert(views(out.paths@) =~= before.paths.insert(at as int, entry.relative@));
        }
    }
    Ok(out)
}

/// An error that ended the walk stays.
proof fn lemma_collected_error(
    entries: Seq<WalkEntry>,
    i: int,
    n: int,
    max_files: usize,
    side: Seq<char>,
)
    requires
        0 <= i <= n,
        collected(entries, i, max_files, side) is Err,
    ensures
        collected(entries, n, max_files, side) == collected(entries, i, max_files, side),
    decreases n - i,
{
    if i < n {
        lemma_collected_error(entries, i, n - 1, max_files, side);
    }
}

/// The files of one side in ascending order, with what was read of each or the
/// words of the error.
pub struct Side {
    pub paths: Vec<String>,
    pub infos: Vec<FileInfo>,
    pub reads: Vec<Result<Vec<u8>, String>>,
}

/// One file of a side.
pub struct Entry {
    pub path: Seq<char>,
    pub info: FileInfo,
    pub read: Result<Seq<u8>, Seq<char>>,
}

impl Side {
    /// The files are in ascending order, and each has its size and its bytes.
    pub open spec fn wf(&self) -> bool {
        &&& ascending(views(self.paths@))
        &&& self.paths@.len() == self.infos@.len()
        &&& self.paths@.len() == self.reads@.len()
    }

    /// The file at position `i`.
    pub open spec fn entry(&self, i: int) -> Entry {
        Entry {
            path: self.paths@[i]@,
            info: self.infos@[i],
            read: match self.reads@[i] {
                Ok(bytes) => Ok(bytes@),
                Err(words) => Err(words@),
            },
        }
    }

    /// The files.
    pub open spec fn entries(&self) -> Seq<Entry> {
        Seq::new(self.paths@.len(), |i: int| self.entry(i))
    }

    /// The side with the files that were collected and what was read of them.
    pub fn new(files: CollectedFiles, reads: Vec<Result<Vec<u8>, String>>) -> (r: Self)
        requires
            files.wf(),
            reads@.len() == files.paths@.len(),
        ensures
            r.wf(),
            r.paths == files.paths,
            r.infos == files.infos,
            r.reads == reads,
    {
        Side { paths: files.paths, infos: files.infos, reads }
    }
}

/// The positions of the files of `own` whose paths `other` does not have, where
/// `present` is false; else of those whose paths it has.
pub open spec fn positions(
    own: Seq<Seq<char>>,
    other: Seq<Seq<char>>,
    present: bool,
    n: int,
) -> Seq<int>
    decreases n,
{
    if n <= 0 {
        Seq::empty()
    } else {
        let before = positions(own, other, present, n - 1);
        if other.contains(own[n - 1]) == present {
            before.push(n - 1)
        } else {
            before
        }
    }
}

/// Positions as whole numbers.
pub open spec fn as_ints(v: Seq<usize>) -> Seq<int> {
    Seq::new(v.len(), |i: int| v[i] as int)
}

/// The positions are those of files.
pub open spec fn within(v: Seq<usize>, n: nat) -> bool {
    forall|i: int| 0 <= i < v.len() ==> (#[trigger] v[i]) < n
}

/// The positions of the files of `own` whose paths `other` has, or has not.
pub fn select_positions(own: &Side, other: &Side, present: bool) -> (r: Vec<usize>)
    requires
        own.wf(),
        other.wf(),
    ensures
        as_ints(r@) == positions(
            views(own.paths@),
            views(other.paths@),
            present,
            own.paths@.len() as int,
        ),
        within(r@, own.paths@.len()),
{
    let mut out: Vec<usize> = Vec::new();
    assert(as_ints(out@) =~= Seq::<int>::empty());
    for i in 0..own.paths.len()
        invariant
            own.wf(),
            other.wf(),
            as_ints(out@) == positions(
                views(own.paths@),
                views(other.paths@),
                present,
                i as int,
            ),
            within(out@, own.paths@.len()),
    {
        let ghost before = out@;
        assert(views(own.paths@)[i as int] == own.paths@[i as int]@);
        let found = position(other.paths.as_slice(), own.paths[i].as_str()).is_some();
        if found == present {
            out.push(i);
            assert(as_ints(out@) =~= as_ints(before).push(i as int));
        }
    }
    out
}

/// The lines that two texts share, of all the lines that they have.
pub open spec fn line_share(left: Seq<char>, right: Seq<char>) -> (nat, nat) {
    let tags = line_changes(left, right);
    if tags.len() == 0 {
        (1, 1)
    } else {
        (count_tag(tags, LineTag::Equal), tags.len())
    }
}

/// The lines that two texts share, of all the lines that they have.
pub fn line_similarity(left: &str, right: &str) -> (r: (u64, u64))
    ensures
        (r.0 as nat, r.1 as nat) == line_share(left@, right@),
        r.0 <= r.1,
        r.1 > 0,
        (r.0 == r.1) == (left@ == right@),
{
    let counts = changed_lines(left, right);
    let tags = diff_lines(left, right);
    if tags.len() == 0 {
        return (1, 1);
    }
    (counts.equal as u64, tags.len() as u64)
}

/// How much of two files is the same: all where their bytes are, nothing where
/// one is binary, else the lines that they share.
pub open spec fn share(left: Seq<u8>, right: Seq<u8>) -> (nat, nat) {
    if left == right {
        (1, 1)
    } else if looks_binary(left) || looks_binary(right) {
        (0, 1)
    } else {
        line_share(decoded(left).0, decoded(right).0)
    }
}

/// How much of two files is the same.
pub fn similarity(left: &[u8], right: &[u8]) -> (r: (u64, u64))
    ensures
        (r.0 as nat, r.1 as nat) == share(left@, right@),
        r.0 <= r.1,
        r.1 > 0,
        left@ == right@ ==> r.0 == r.1,
        r.0 == r.1 && left@ != right@ ==> !looks_binary(left@) && !looks_binary(right@) && decoded(
            left@,
        ).0 == decoded(right@).0,
{
    if same_bytes(left, right) {
        return (1, 1);
    }
    if is_probably_binary(left) || is_probably_binary(right) {
        return (0, 1);
    }
    let (left_text, _left_label) = decode_fuzzy(left);
    let (right_text, _right_label) = decode_fuzzy(right);
    line_similarity(left_text.as_str(), right_text.as_str())
}

/// Files of these sizes can be similar enough: the smaller is not less than
/// half the share that is asked for, which counts as no more than 95 of a
/// hundred.
pub open spec fn sizes_allow(left: u64, right: u64, threshold: Fraction) -> bool {
    let larger = if left > right {
        left
    } else {
        right
    };
    let smaller = if left > right {
        right
    } else {
        left
    };
    if left == right || threshold.num == 0 || smaller == 0 {
        true
    } else if threshold.num * 100 <= 95 * threshold.den {
        smaller * (2 * threshold.den) >= larger * threshold.num
    } else {
        smaller * 200 >= larger * 95
    }
}

/// Whether files of these sizes can be similar enough.
pub fn sizes_can_be_similar(left_size: u64, right_size: u64, threshold: Fraction) -> (r: bool)
    requires
        threshold.wf(),
    ensures
        r == sizes_allow(left_size, right_size, threshold),
{
    if left_size == right_size || threshold.num == 0 {
        return true;
    }
    let (smaller, larger): (u64, u64) = if left_size > right_size {
        (right_size, left_size)
    } else {
        (left_size, right_size)
    };
    if smaller == 0 {
        return true;
    }
    if product(threshold.num, 100) <= product(95, threshold.den) {
        product(smaller, 2 * threshold.den) >= product(larger, threshold.num)
    } else {
        product(smaller, 200) >= product(larger, 95)
    }
}

/// How much of a file must be the same for it to have a new name: what the decimal
/// says that is asked for, else 85 of a hundred.
pub open spec fn threshold_of(asked: Option<Seq<char>>) -> (nat, nat) {
    match asked {
        Some(s) => match decimal_fraction(s) {
            Some(f) => f,
            None => (85, 100),
        },
        None => (85, 100),
    }
}

/// How much of a file must be the same for it to have a new name.
pub fn rename_threshold(asked: &Option<String>) -> (r: Fraction)
    ensures
        r.wf(),
        (r.num as nat, r.den as nat) == threshold_of(opt_view(*asked)),
{
    if let Some(s) = asked {
        if let Some(f) = parse_fraction(s.as_str()) {
            return f;
        }
    }
    Fraction { num: 85, den: 100 }
}

/// The best file to take for the new name of a deleted one among the first `n`
/// that were added, with how much is the same; and the files that could not be
/// read.
pub struct Best {
    pub at: Option<(int, nat, nat)>,
    pub skipped: Seq<Skipped>,
}

/// The file may be the new name of `gone`: it is not taken, has the same
/// extension, is not too large, and is of a size that can be similar.
pub open spec fn may_be_renamed(
    gone: Entry,
    new: Entry,
    taken: bool,
    max_file_size: u64,
    threshold: Fraction,
) -> bool {
    &&& !taken
    &&& extension_label(new.path) == extension_label(gone.path)
    &&& new.info.size <= max_file_size
    &&& sizes_allow(gone.info.size, new.info.size, threshold)
}

/// The best file to take for the new name of `gone`, whose bytes are `bytes`,
/// among the first `n` of `added`.
pub open spec fn best_of(
    gone: Entry,
    bytes: Seq<u8>,
    added: Seq<Entry>,
    taken: Seq<bool>,
    max_file_size: u64,
    threshold: Fraction,
    n: int,
) -> Best
    decreases n,
{
    if n <= 0 {
        Best { at: None, skipped: Seq::empty() }
    } else {
        let before = best_of(gone, bytes, added, taken, max_file_size, threshold, n - 1);
        let new = added[n - 1];
        if !may_be_renamed(gone, new, taken[n - 1], max_file_size, threshold) {
            before
        } else {
            match new.read {
                Err(words) => Best {
                    skipped: before.skipped.push(
                        plain_skip(new.path, "rename_right_read_failed"@, Some(words)),
                    ),
                    ..before
                },
                Ok(content) => {
                    let (equal, total) = share(bytes, content);
                    if at_least(equal, total, threshold) && (match before.at {
                        None => true,
                        Some((_at, e, t)) => more_than(equal, total, e, t),
                    }) {
                        Best { at: Some((n - 1, equal, total)), ..before }
                    } else {
                        before
                    }
                },
            }
        }
    }
}

/// A file that has a new name, and how much of it is the same.
pub struct Rename {
    pub old_path: Seq<char>,
    pub new_path: Seq<char>,
    pub equal: nat,
    pub total: nat,
}

/// Which files were renamed, which of the added and the deleted ones that takes
/// away, and which files could not be read.
pub struct Renames {
    pub renamed: Seq<Rename>,
    pub taken_deleted: Seq<bool>,
    pub taken_added: Seq<bool>,
    pub skipped: Seq<Skipped>,
}

/// Nothing is taken.
pub open spec fn none_taken(n: nat) -> Seq<bool> {
    Seq::new(n, |i: int| false)
}

/// The renames among the first `n` deleted files: each takes the best of the
/// added ones that are left.
pub open spec fn renames(
    deleted: Seq<Entry>,
    added: Seq<Entry>,
    max_file_size: u64,
    threshold: Fraction,
    n: int,
) -> Renames
    decreases n,
{
    if n <= 0 {
        Renames {
            renamed: Seq::empty(),
            taken_deleted: none_taken(deleted.len()),
            taken_added: none_taken(added.len()),
            skipped: Seq::empty(),
        }
    } else {
        let before = renames(deleted, added, max_file_size, threshold, n - 1);
        let gone = deleted[n - 1];
        if gone.info.size > max_file_size {
            before
        } else {
            match gone.read {
                Err(words) => Renames {
                    skipped: before.skipped.push(
                        plain_skip(gone.path, "rename_left_read_failed"@, Some(words)),
                    ),
                    ..before
                },
                Ok(bytes) => {
                    let best = best_of(
                        gone,
                        bytes,
                        added,
                        before.taken_added,
                        max_file_size,
                        threshold,
                        added.len() as int,
                    );
                    match best.at {
                        None => Renames { skipped: before.skipped + best.skipped, ..before },
                        Some((at, equal, total)) => Renames {
                            renamed: before.renamed.push(
                                Rename {
                                    old_path: gone.path,
                                    new_path: added[at].path,
                                    equal,
                                    total,
                                },
                            ),
                            taken_deleted: before.taken_deleted.update(n - 1, true),
                            taken_added: before.taken_added.update(at, true),
                            skipped: before.skipped + best.skipped,
                        },
                    }
                },
            }
        }
    }
}

/// A file that has a new name, and how much of it is the same.
pub struct RenamedFile {
    pub old_path: String,
    pub new_path: String,
    pub equal: u64,
    pub total: u64,
}

impl RenamedFile {
    /// Whether the file was changed beside having a new name.
    pub fn is_modified(&self) -> (r: bool)
        ensures
            r == (self@.equal < self@.total),
    {
        self.equal < self.total
    }
}

impl View for RenamedFile {
    type V = Rename;

    open spec fn view(&self) -> Rename {
        Rename {
            old_path: self.old_path@,
            new_path: self.new_path@,
            equal: self.equal as nat,
            total: self.total as nat,
        }
    }
}

/// The files that have new names.
pub open spec fn rename_views(items: Seq<RenamedFile>) -> Seq<Rename> {
    Seq::new(items.len(), |i: int| items[i]@)
}

/// The files at the positions.
pub open spec fn entries_at(side: Side, at: Seq<usize>) -> Seq<Entry> {
    Seq::new(at.len(), |i: int| side.entry(at[i] as int))
}

/// Which files were renamed, which of the deleted and the added ones that takes
/// away, and which files could not be read.
pub struct FoundRenames {
    pub renamed: Vec<RenamedFile>,
    pub taken_deleted: Vec<bool>,
    pub taken_added: Vec<bool>,
    pub skipped: Vec<SkippedFile>,
}

impl View for FoundRenames {
    type V = Renames;

    open spec fn view(&self) -> Renames {
        Renames {
            renamed: rename_views(self.renamed@),
            taken_deleted: self.taken_deleted@,
            taken_added: self.taken_added@,
            skipped: skip_views(self.skipped@),
        }
    }
}

/// As many times false.
fn untaken(n: usize) -> (r: Vec<bool>)
    ensures
        r@ == none_taken(n as nat),
{
    let mut out: Vec<bool> = Vec::new();
    for i in 0..n
        invariant
            out@ == none_taken(i as nat),
    {
        out.push(false);
        assert(out@ =~= none_taken((i + 1) as nat));
    }
    out
}

/// The extensions of the files at the positions.
fn extensions_at(side: &Side, at: &[usize]) -> (r: Vec<String>)
    requires
        side.wf(),
        within(at@, side.paths@.len()),
    ensures
        r@.len() == at@.len(),
        forall|i: int|
            0 <= i < at@.len() ==> (#[trigger] r@[i])@ == extension_label(
                side.entry(at@[i] as int).path,
            ),
{
    let mut out: Vec<String> = Vec::new();
    for i in 0..at.len()
        invariant
            side.wf(),
            within(at@, side.paths@.len()),
            out@.len() == i,
            forall|k: int|
                0 <= k < i ==> (#[trigger] out@[k])@ == extension_label(
                    side.entry(at@[k] as int).path,
                ),
    {
        assert(at@[i as int] < side.paths@.len());
        out.push(extension_key(side.paths[at[i]].as_str()));
    }
    out
}

/// The best file to take for the new name of the deleted one at `gone`; the files
/// that could not be read are added to `skipped`.
fn find_best(
    left: &Side,
    gone: usize,
    bytes: &[u8],
    right: &Side,
    added: &[usize],
    extensions: &[String],
    taken: &[bool],
    max_file_size: u64,
    threshold: Fraction,
    skipped: &mut Vec<SkippedFile>,
) -> (r: Option<(usize, u64, u64)>)
    requires
        left.wf(),
        right.wf(),
        threshold.wf(),
        gone < left.paths@.len(),
        within(added@, right.paths@.len()),
        taken@.len() == added@.len(),
        extensions@.len() == added@.len(),
        forall|i: int|
            0 <= i < added@.len() ==> (#[trigger] extensions@[i])@ == extension_label(
                right.entry(added@[i] as int).path,
            ),
    ensures
        ({
            let best = best_of(
                left.entry(gone as int),
                bytes@,
                entries_at(*right, added@),
                taken@,
                max_file_size,
                threshold,
                added@.len() as int,
            );
            &&& best.at == (match r {
                Some((at, e, t)) => Some((at as int, e as nat, t as nat)),
                None => None,
            })
            &&& skip_views(final(skipped)@) == skip_views(old(skipped)@) + best.skipped
        }),
        r matches Some((at, _e, _t)) ==> at < added@.len(),
{
    let ghost from = left.entry(gone as int);
    let ghost all = entries_at(*right, added@);
    let ghost start = skip_views(skipped@);
    let mut best: Option<(usize, u64, u64)> = None;
    let own_extension = extension_key(left.paths[gone].as_str());
    assert(skip_views(skipped@) =~= start + Seq::<Skipped>::empty());
    for i in 0..added.len()
        invariant
            left.wf(),
            right.wf(),
            threshold.wf(),
            gone < left.paths@.len(),
            from == left.entry(gone as int),
            all == entries_at(*right, added@),
            within(added@, right.paths@.len()),
            taken@.len() == added@.len(),
            extensions@.len() == added@.len(),
            own_extension@ == extension_label(from.path),
            forall|i: int|
                0 <= i < added@.len() ==> (#[trigger] extensions@[i])@ == extension_label(
                    right.entry(added@[i] as int).path,
                ),
            best_of(from, bytes@, all, taken@, max_file_size, threshold, i as int).at == (
            match best {
                Some((at, e, t)) => Some((at as int, e as nat, t as nat)),
                None => None,
            }),
            skip_views(skipped@) == start + best_of(
                from,
                bytes@,
                all,
                taken@,
                max_file_size,
                threshold,
                i as int,
            ).skipped,
            best matches Some((at, _e, _t)) ==> at < i,
    {
        let ghost before = best_of(
            from,
            bytes@,
            all,
            taken@,
            max_file_size,
            threshold,
            i as int,
        );
        let at: usize = added[i];
        assert(added@[i as int] < right.paths@.len());
        assert(all[i as int] == right.entry(at as int));
        assert(extensions@[i as int]@ == extension_label(all[i as int].path));
        let usable = !taken[i] && str_eq(extensions[i].as_str(), own_extension.as_str())
            && right.infos[at].size <= max_file_size && sizes_can_be_similar(
            left.infos[gone].size,
            right.infos[at].size,
            threshold,
        );
        if usable {
            match &right.reads[at] {
                Err(words) => {
                    let ghost skips = skipped@;
                    let skip = skip_file(
                        right.paths[at].as_str(),
                        "rename_right_read_failed",
                        Some(words.clone()),
                    );
                    skipped.push(skip);
                    assert(skip_views(skipped@) =~= skip_views(skips).push(skip@));
                    assert((start + before.skipped).push(skip@) =~= start + before.skipped.push(skip@));
                },
                Ok(content) => {
                    let (equal, total) = similarity(bytes, content.as_slice());
                    let better = match best {
                        None => true,
                        Some((_at, e, t)) => is_more_than(equal, total, e, t),
                    };
                    if is_at_least(equal, total, threshold) && better {
                        best = Some((i, equal, total));
                    }
                },
            }
        }
    }
    best
}

/// Which of the deleted files have a new name among the added ones.
pub fn detect_renames(
    left: &Side,
    right: &Side,
    deleted: &[usize],
    added: &[usize],
    max_file_size: u64,
    threshold: Fraction,
) -> (r: FoundRenames)
    requires
        left.wf(),
        right.wf(),
        threshold.wf(),
        within(deleted@, left.paths@.len()),
        within(added@, right.paths@.len()),
    ensures
        r@ == renames(
            entries_at(*left, deleted@),
            entries_at(*right, added@),
            max_file_size,
            threshold,
            deleted@.len() as int,
        ),
        r.taken_deleted@.len() == deleted@.len(),
        r.taken_added@.len() == added@.len(),
{
    let ghost olds = entries_at(*left, deleted@);
    let ghost news = entries_at(*right, added@);
    let extensions = extensions_at(right, added);
    let mut out = FoundRenames {
        renamed: Vec::new(),
        taken_deleted: untaken(deleted.len()),
        taken_added: untaken(added.len()),
        skipped: Vec::new(),
    };
    assert(rename_views(out.renamed@) =~= Seq::<Rename>::empty());
    assert(skip_views(out.skipped@) =~= Seq::<Skipped>::empty());
    for i in 0..deleted.len()
        invariant
            left.wf(),
            right.wf(),
            threshold.wf(),
            within(deleted@, left.paths@.len()),
            within(added@, right.paths@.len()),
            olds == entries_at(*left, deleted@),
            news == entries_at(*right, added@),
            extensions@.len() == added@.len(),
            forall|i: int|
                0 <= i < added@.len() ==> (#[trigger] extensions@[i])@ == extension_label(
                    right.entry(added@[i] as int).path,
                ),
            out@ == renames(olds, news, max_file_size, threshold, i as int),
            out.taken_deleted@.len() == deleted@.len(),
            out.taken_added@.len() == added@.len(),
    {
        let ghost before = out@;
        let at: usize = deleted[i];
        assert(deleted@[i as int] < left.paths@.len());
        assert(olds[i as int] == left.entry(at as int));
        if left.infos[at].size <= max_file_size {
            match &left.reads[at] {
                Err(words) => {
                    let ghost skips = out.skipped@;
                    let skip = skip_file(
                        left.paths[at].as_str(),
                        "rename_left_read_failed",
                        Some(words.clone()),
                    );
                    out.skipped.push(skip);
                    assert(skip_views(out.skipped@) =~= skip_views(skips).push(skip@));
                },
                Ok(bytes) => {
                    let found = find_best(
                        left,
                        at,
                        bytes.as_slice(),
                        right,
                        added,
                        extensions.as_slice(),
                        out.taken_added.as_slice(),
                        max_file_size,
                        threshold,
                        &mut out.skipped,
                    );
                    if let Some((k, equal, total)) = found {
                        let to: usize = added[k];
                        assert(added@[k as int] < right.paths@.len());
                        assert(news[k as int] == right.entry(to as int));
                        let ghost list = out.renamed@;
                        let item = RenamedFile {
                            old_path: left.paths[at].clone(),
                            new_path: right.paths[to].clone(),
                            equal,
                            total,
                        };
                        out.renamed.push(item);
                        assert(rename_views(out.renamed@) =~= rename_views(list).push(item@));
                        out.taken_deleted.set(i, true);
                        out.taken_added.set(k, true);
                    }
                },
            }
        }
    }
    out
}

/// A text file that both sides have, with different bytes.
pub struct TextChange {
    pub path: String,
    pub left: FileInfo,
    pub right: FileInfo,
    pub left_encoding: &'static str,
    pub right_encoding: &'static str,
    pub inserted_lines: usize,
    pub deleted_lines: usize,
    pub risk_category: &'static str,
    pub affected_symbols: Vec<String>,
    pub unified_diff: Option<(String, bool)>,
}

/// The differences of a file that are returned, and whether they were cut; none
/// where none are asked for or no more bytes are left.
pub open spec fn returned_diff(
    path: Seq<char>,
    left: Seq<char>,
    right: Seq<char>,
    options: Options,
    used: nat,
) -> Option<(Seq<char>, bool)> {
    if options.include_content_diff && !options.summary_only && used < options.max_diff_bytes {
        let all = unified_text(left, right, CONTEXT_LINES, "left/"@ + path, "right/"@ + path);
        let room = (options.max_diff_bytes - used) as nat;
        Some((fitting(all, room), byte_len(all) > room))
    } else {
        None
    }
}

/// How many bytes the differences have that are returned.
pub open spec fn diff_size(diff: Option<(Seq<char>, bool)>) -> nat {
    match diff {
        Some((text, _cut)) => byte_len(text),
        None => 0,
    }
}

impl TextChange {
    /// The change leads from the text that the one file holds to that of the other:
    /// as many lines are inserted more than deleted as the second has more than the
    /// first, some are exactly where the texts differ, and what is returned of the
    /// differences is the start of a diff from the first text to the second, or all
    /// of it where it is not cut.
    pub open spec fn leads_from(&self, left: Seq<u8>, right: Seq<u8>) -> bool {
        let before = decoded(left).0;
        let after = decoded(right).0;
        &&& (before == after) == (self.inserted_lines == 0 && self.deleted_lines == 0)
        &&& returns_end_lines(before) && returns_end_lines(after) ==> self.inserted_lines
            - self.deleted_lines == text_lines(after).len() - text_lines(before).len()
        &&& self.unified_diff matches Some((text, cut)) ==> exists|all: Seq<char>| #[trigger]
            leads(all, before, after, "left/"@ + self.path@, "right/"@ + self.path@)
                && text@.is_prefix_of(all) && (!cut ==> text@ == all)
    }

    /// The change is that of a file from `left` to `right`, of whose
    /// differences `used` bytes were returned before.
    pub open spec fn describes(
        &self,
        left: Entry,
        right: Entry,
        options: Options,
        used: nat,
    ) -> bool {
        let (old_text, old_label) = decoded(left.read->Ok_0);
        let (new_text, new_label) = decoded(right.read->Ok_0);
        let tags = line_changes(old_text, new_text);
        &&& self.path@ == left.path
        &&& self.left == left.info
        &&& self.right == right.info
        &&& self.left_encoding@ == old_label
        &&& self.right_encoding@ == new_label
        &&& self.inserted_lines == count_tag(tags, LineTag::Insert)
        &&& self.deleted_lines == count_tag(tags, LineTag::Delete)
        &&& self.risk_category@ == risk_of(left.path)
        &&& are_symbols(old_text, new_text, views(self.affected_symbols@))
        &&& (match self.unified_diff {
            Some((text, cut)) => Some((text@, cut)),
            None => None,
        }) == returned_diff(left.path, old_text, new_text, options, used)
    }
}

/// The change of a text file; the bytes of differences that are returned are
/// added to `diff_bytes_used`.
pub fn build_text_change(
    relative_path: &str,
    left: FileInfo,
    right: FileInfo,
    left_bytes: &[u8],
    right_bytes: &[u8],
    options: &Options,
    diff_bytes_used: &mut usize,
) -> (r: TextChange)
    requires
        *old(diff_bytes_used) <= options.max_diff_bytes,
    ensures
        r.describes(
            Entry { path: relative_path@, info: left, read: Ok(left_bytes@) },
            Entry { path: relative_path@, info: right, read: Ok(right_bytes@) },
            *options,
            *old(diff_bytes_used) as nat,
        ),
        *final(diff_bytes_used) == *old(diff_bytes_used) + diff_size(
            returned_diff(
                relative_path@,
                decoded(left_bytes@).0,
                decoded(right_bytes@).0,
                *options,
                *old(diff_bytes_used) as nat,
            ),
        ),
        *final(diff_bytes_used) <= options.max_diff_bytes,
        r.leads_from(left_bytes@, right_bytes@),
        r.unified_diff is Some == (options.include_content_diff && !options.summary_only && *old(
            diff_bytes_used,
        ) < options.max_diff_bytes),
{
    let (left_text, left_encoding) = decode_fuzzy(left_bytes);
    let (right_text, right_encoding) = decode_fuzzy(right_bytes);
    let counts = changed_lines(left_text.as_str(), right_text.as_str());
    let ghost mut whole = Seq::<char>::empty();
    let unified: Option<(String, bool)> = if options.include_content_diff && !options.summary_only
        && *diff_bytes_used < options.max_diff_bytes {
        let mut left_label = "left/".to_owned();
        left_label.append(relative_path);
        let mut right_label = "right/".to_owned();
        right_label.append(relative_path);
        let rendered = unified_diff(
            left_text.as_str(),
            right_text.as_str(),
            CONTEXT_LINES,
            left_label.as_str(),
            right_label.as_str(),
        );
        let remaining: usize = options.max_diff_bytes - *diff_bytes_used;
        let (bounded, cut) = truncate_utf8(rendered.as_str(), remaining);
        proof {
            crate::text::law_fitting(rendered@, remaining as nat);
            assert(bounded@.is_prefix_of(rendered@));
            whole = rendered@;
            assert(leads(
                rendered@,
                left_text@,
                right_text@,
                "left/"@ + relative_path@,
                "right/"@ + relative_path@,
            ));
        }
        let size: usize = bounded.as_str().as_bytes().len();
        *diff_bytes_used = *diff_bytes_used + size;
        Some((bounded, cut))
    } else {
        None
    };
    let out = TextChange {
        path: relative_path.to_owned(),
        left,
        right,
        left_encoding,
        right_encoding,
        inserted_lines: counts.inserted,
        deleted_lines: counts.deleted,
        risk_category: risk_category(relative_path),
        affected_symbols: affected_symbols(left_text.as_str(), right_text.as_str()),
        unified_diff: unified,
    };
    proof {
        if out.unified_diff is Some {
            let (text, cut) = out.unified_diff->0;
            assert(leads(
                whole,
                decoded(left_bytes@).0,
                decoded(right_bytes@).0,
                "left/"@ + out.path@,
                "right/"@ + out.path@,
            ));
            assert(text@.is_prefix_of(whole) && (!cut ==> text@ == whole));
        }
        assert(out.leads_from(left_bytes@, right_bytes@));
    }
    out
}

/// What a file that both sides have turns out to be.
pub enum Verdict {
    TooLarge,
    LeftUnread,
    RightUnread,
    Unchanged,
    Binary,
    Modified,
}

/// What a file that both sides have turns out to be: files that are too large
/// or cannot be read are left out, equal bytes are unchanged, and of the rest
/// those are binary of which one side looks so.
pub open spec fn verdict(left: Entry, right: Entry, max_file_size: u64) -> Verdict {
    if left.info.size > max_file_size || right.info.size > max_file_size {
        Verdict::TooLarge
    } else if left.read is Err {
        Verdict::LeftUnread
    } else if right.read is Err {
        Verdict::RightUnread
    } else if left.read->Ok_0 == right.read->Ok_0 {
        Verdict::Unchanged
    } else if looks_binary(left.read->Ok_0) || looks_binary(right.read->Ok_0) {
        Verdict::Binary
    } else {
        Verdict::Modified
    }
}

/// A file that is binary on one side, with different bytes.
pub struct BinaryChange {
    pub path: String,
    pub left: FileInfo,
    pub right: FileInfo,
}

/// What came of the files that both sides have.
pub struct CommonFiles {
    pub modified: Vec<TextChange>,
    pub binary: Vec<BinaryChange>,
    pub skipped: Vec<SkippedFile>,
    pub unchanged: usize,
    pub diff_bytes_used: usize,
    pub inserted_lines: usize,
    pub deleted_lines: usize,
}

/// What came of the files that both sides have, by number: how many of them were
/// modified, are binary, were left out and are unchanged, and how many bytes of
/// differences and how many lines that makes.
pub struct Tally {
    pub modified: Seq<(Entry, Entry, nat)>,
    pub binary: Seq<(Seq<char>, FileInfo, FileInfo)>,
    pub skipped: Seq<Skipped>,
    pub unchanged: nat,
    pub used: nat,
    pub inserted: nat,
    pub deleted: nat,
}

/// The sum, or the largest number of the machine where it is larger.
pub open spec fn capped_sum(a: nat, b: nat) -> nat {
    if a + b <= usize::MAX {
        a + b
    } else {
        usize::MAX as nat
    }
}

/// What came of the first `n` files that both sides have: `pairs` are these
/// files, as each side has them.
pub open spec fn tally(pairs: Seq<(Entry, Entry)>, options: Options, n: int) -> Tally
    decreases n,
{
    if n <= 0 {
        Tally {
            modified: Seq::empty(),
            binary: Seq::empty(),
            skipped: Seq::empty(),
            unchanged: 0,
            used: 0,
            inserted: 0,
            deleted: 0,
        }
    } else {
        tally_one(
            tally(pairs, options, n - 1),
            pairs[n - 1].0,
            pairs[n - 1].1,
            options,
        )
    }
}

/// What came of the files after one more.
pub open spec fn tally_one(before: Tally, left: Entry, right: Entry, options: Options) -> Tally {
    match verdict(left, right, options.max_file_size) {
        Verdict::TooLarge => Tally {
            skipped: before.skipped.push(
                Skipped {
                    path: left.path,
                    side: None,
                    reason: "file_too_large"@,
                    message: None,
                    left_size: Some(left.info.size),
                    right_size: Some(right.info.size),
                    max_files: None,
                },
            ),
            ..before
        },
        Verdict::LeftUnread => Tally {
            skipped: before.skipped.push(
                plain_skip(left.path, "left_read_failed"@, Some(left.read->Err_0)),
            ),
            ..before
        },
        Verdict::RightUnread => Tally {
            skipped: before.skipped.push(
                plain_skip(left.path, "right_read_failed"@, Some(right.read->Err_0)),
            ),
            ..before
        },
        Verdict::Unchanged => Tally { unchanged: before.unchanged + 1, ..before },
        Verdict::Binary => Tally {
            binary: before.binary.push((left.path, left.info, right.info)),
            ..before
        },
        Verdict::Modified => {
            let old_text = decoded(left.read->Ok_0).0;
            let new_text = decoded(right.read->Ok_0).0;
            let tags = line_changes(old_text, new_text);
            Tally {
                modified: before.modified.push((left, right, before.used)),
                used: before.used + diff_size(
                    returned_diff(left.path, old_text, new_text, options, before.used),
                ),
                inserted: capped_sum(before.inserted, count_tag(tags, LineTag::Insert)),
                deleted: capped_sum(before.deleted, count_tag(tags, LineTag::Delete)),
                ..before
            }
        },
    }
}

/// Both sides have a file at the path, at these positions, and it does not hold the
/// same on both.
pub open spec fn files_differ(left: Side, right: Side, a: int, b: int, path: Seq<char>) -> bool {
    &&& 0 <= a < left.paths@.len() && 0 <= b < right.paths@.len()
    &&& left.paths@[a]@ == path && right.paths@[b]@ == path
    &&& left.reads@[a] is Ok && right.reads@[b] is Ok
    &&& left.reads@[a]->Ok_0@ != right.reads@[b]->Ok_0@
}

impl TextChange {
    /// The change is that of a file that both sides have and that does not hold the
    /// same on both, from what it holds on the left to what it holds on the right.
    pub open spec fn is_of(&self, left: Side, right: Side) -> bool {
        exists|a: int, b: int| #[trigger]
            files_differ(left, right, a, b, self.path@) && self.leads_from(
                left.reads@[a]->Ok_0@,
                right.reads@[b]->Ok_0@,
            )
    }
}

impl BinaryChange {
    /// The change is that of a file that both sides have and that does not hold the
    /// same on both.
    pub open spec fn is_of(&self, left: Side, right: Side) -> bool {
        exists|a: int, b: int| #[trigger] files_differ(left, right, a, b, self.path@)
    }
}

impl CommonFiles {
    /// Every file that is told as changed is one that both sides have and that does
    /// not hold the same on both.
    pub open spec fn lead(&self, left: Side, right: Side) -> bool {
        &&& forall|m: int|
            0 <= m < self.modified@.len() ==> (#[trigger] self.modified@[m]).is_of(left, right)
        &&& forall|m: int|
            0 <= m < self.binary@.len() ==> (#[trigger] self.binary@[m]).is_of(left, right)
    }

    /// What came of the files is what `t` says.
    pub open spec fn agrees(&self, t: Tally, options: Options) -> bool {
        &&& self.modified@.len() == t.modified.len()
        &&& forall|i: int|
            0 <= i < self.modified@.len() ==> (#[trigger] self.modified@[i]).describes(
                t.modified[i].0,
                t.modified[i].1,
                options,
                t.modified[i].2,
            )
        &&& self.binary@.len() == t.binary.len()
        &&& forall|i: int|
            0 <= i < self.binary@.len() ==> ((#[trigger] self.binary@[i]).path@, self.binary@[i].left,
                self.binary@[i].right) == t.binary[i]
        &&& skip_views(self.skipped@) == t.skipped
        &&& self.unchanged == t.unchanged
        &&& self.diff_bytes_used == t.used
        &&& self.inserted_lines == t.inserted
        &&& self.deleted_lines == t.deleted
    }
}

/// The file at position `i` of the left side and the one with the same path on
/// the right.
pub open spec fn pair_at(left: Side, right: Side, i: int) -> (Entry, Entry) {
    (left.entry(i), right.entry(views(right.paths@).index_of(left.paths@[i]@)))
}

/// The files that both sides have.
pub open spec fn pairs(left: Side, right: Side, common: Seq<usize>) -> Seq<(Entry, Entry)> {
    Seq::new(common.len(), |i: int| pair_at(left, right, common[i] as int))
}

/// Where a text stands in ascending order, it stands only there.
proof fn lemma_index_of(paths: Seq<Seq<char>>, x: Seq<char>, i: int)
    requires
        ascending(paths),
        0 <= i < paths.len(),
        paths[i] == x,
    ensures
        paths.index_of(x) == i,
{
    let k = paths.index_of(x);
    assert(paths.contains(x));
    assert(0 <= k < paths.len() && paths[k] == x);
    crate::order::lemma_precedes_total(x, x);
    if k < i {
        assert(precedes(paths[k], paths[i]));
    }
    if i < k {
        assert(precedes(paths[i], paths[k]));
    }
}

/// What came of the files that both sides have, which stand at the positions
/// `common` of the left one.
#[verifier::rlimit(30)]
pub fn compare_common(left: &Side, right: &Side, common: &[usize], options: &Options) -> (r:
    CommonFiles)
    requires
        left.wf(),
        right.wf(),
        within(common@, left.paths@.len()),
        forall|i: int|
            0 <= i < common@.len() ==> views(right.paths@).contains(
                left.paths@[#[trigger] common@[i] as int]@,
            ),
    ensures
        r.agrees(tally(pairs(*left, *right, common@), *options, common@.len() as int), *options),
        r.diff_bytes_used <= options.max_diff_bytes,
        r.lead(*left, *right),
{
    let ghost all = pairs(*left, *right, common@);
    let mut out = CommonFiles {
        modified: Vec::new(),
        binary: Vec::new(),
        skipped: Vec::new(),
        unchanged: 0,
        diff_bytes_used: 0,
        inserted_lines: 0,
        deleted_lines: 0,
    };
    assert(skip_views(out.skipped@) =~= Seq::<Skipped>::empty());
    for i in 0..common.len()
        invariant
            left.wf(),
            right.wf(),
            within(common@, left.paths@.len()),
            forall|i: int|
                0 <= i < common@.len() ==> views(right.paths@).contains(
                    left.paths@[#[trigger] common@[i] as int]@,
                ),
            all == pairs(*left, *right, common@),
            out.agrees(tally(all, *options, i as int), *options),
            out.unchanged <= i,
            out.diff_bytes_used <= options.max_diff_bytes,
            out.lead(*left, *right),
    {
        let ghost before = tally(all, *options, i as int);
        let at: usize = common[i];
        assert(common@[i as int] < left.paths@.len());
        let found = position(right.paths.as_slice(), left.paths[at].as_str());
        assert(found is Some);
        if let Some(to) = found {
            proof {
                lemma_index_of(views(right.paths@), left.paths@[at as int]@, to as int);
            }
            assert(all[i as int] == (left.entry(at as int), right.entry(to as int)));
            let path = left.paths[at].as_str();
            let left_info = left.infos[at];
            let right_info = right.infos[to];
            let ghost from = left.entry(at as int);
            let ghost with = right.entry(to as int);
            let ghost skips = out.skipped@;
            let ghost earlier = out;
            if left_info.size > options.max_file_size || right_info.size > options.max_file_size {
                let skip = SkippedFile {
                    path: path.to_owned(),
                    side: None,
                    reason: "file_too_large",
                    message: None,
                    left_size: Some(left_info.size),
                    right_size: Some(right_info.size),
                    max_files: None,
                };
                out.skipped.push(skip);
                assert(skip_views(out.skipped@) =~= skip_views(skips).push(skip@));
            } else {
                match (&left.reads[at], &right.reads[to]) {
                    (Err(words), _) => {
                        let skip = skip_file(path, "left_read_failed", Some(words.clone()));
                        out.skipped.push(skip);
                        assert(skip_views(out.skipped@) =~= skip_views(skips).push(skip@));
                    },
                    (Ok(_), Err(words)) => {
                        let skip = skip_file(path, "right_read_failed", Some(words.clone()));
                        out.skipped.push(skip);
                        assert(skip_views(out.skipped@) =~= skip_views(skips).push(skip@));
                    },
                    (Ok(left_bytes), Ok(right_bytes)) => {
                        if same_bytes(left_bytes.as_slice(), right_bytes.as_slice()) {
                            out.unchanged += 1;
                        } else if is_probably_binary(left_bytes.as_slice()) || is_probably_binary(
                            right_bytes.as_slice(),
                        ) {
                            out.binary.push(
                                BinaryChange {
                                    path: path.to_owned(),
                                    left: left_info,
                                    right: right_info,
                                },
                            );
                            proof {
                                let added = out.binary@.last();
                                assert(files_differ(
                                    *left,
                                    *right,
                                    at as int,
                                    to as int,
                                    added.path@,
                                ));
                                assert(added.is_of(*left, *right));
                                assert(out.binary@ =~= earlier.binary@.push(added));
                            }
                        } else {
                            let mut used: usize = out.diff_bytes_used;
                            let change = build_text_change(
                                path,
                                left_info,
                                right_info,
                                left_bytes.as_slice(),
                                right_bytes.as_slice(),
                                options,
                                &mut used,
                            );
                            assert(change.describes(from, with, *options, before.used));
                            out.diff_bytes_used = used;
                            out.inserted_lines = out.inserted_lines.saturating_add(
                                change.inserted_lines,
                            );
                            out.deleted_lines = out.deleted_lines.saturating_add(
                                change.deleted_lines,
                            );
                            let ghost added = change;
                            out.modified.push(change);
                            proof {
                                assert(files_differ(
                                    *left,
                                    *right,
                                    at as int,
                                    to as int,
                                    added.path@,
                                ));
                                assert(added.is_of(*left, *right));
                                assert(out.modified@ =~= earlier.modified@.push(added));
                            }
                        }
                    },
                }
            }
            proof {
                assert forall|m: int| 0 <= m < out.modified@.len() implies (
                #[trigger] out.modified@[m]).is_of(*left, *right) by {
                    if m < earlier.modified@.len() {
                        assert(out.modified@[m] == earlier.modified@[m]);
                    }
                }
                assert forall|m: int| 0 <= m < out.binary@.len() implies (
                #[trigger] out.binary@[m]).is_of(*left, *right) by {
                    if m < earlier.binary@.len() {
                        assert(out.binary@[m] == earlier.binary@[m]);
                    }
                }
            }
        }
    }
    out
}

/// The paths of the files at the positions that are not taken.
pub open spec fn left_over(
    paths: Seq<Seq<char>>,
    at: Seq<usize>,
    taken: Seq<bool>,
    n: int,
) -> Seq<Seq<char>>
    decreases n,
{
    if n <= 0 {
        Seq::empty()
    } else {
        let before = left_over(paths, at, taken, n - 1);
        if taken[n - 1] {
            before
        } else {
            before.push(paths[at[n - 1] as int])
        }
    }
}

/// The paths of the files at the positions that are not taken.
fn untaken_paths(side: &Side, at: &[usize], taken: &[bool]) -> (r: Vec<String>)
    requires
        side.wf(),
        within(at@, side.paths@.len()),
        taken@.len() == at@.len(),
    ensures
        views(r@) == left_over(views(side.paths@), at@, taken@, at@.len() as int),
{
    let mut out: Vec<String> = Vec::new();
    assert(views(out@) =~= Seq::<Seq<char>>::empty());
    for i in 0..at.len()
        invariant
            side.wf(),
            within(at@, side.paths@.len()),
            taken@.len() == at@.len(),
            views(out@) == left_over(views(side.paths@), at@, taken@, i as int),
    {
        let ghost before = out@;
        assert(at@[i as int] < side.paths@.len());
        if !taken[i] {
            out.push(side.paths[at[i]].clone());
            assert(views(out@) =~= views(before).push(side.paths@[at@[i as int] as int]@));
        }
    }
    out
}

/// The path is that of a file that was added, deleted, renamed to it, or
/// modified.
pub open spec fn is_changed(
    added: Seq<Seq<char>>,
    deleted: Seq<Seq<char>>,
    renamed: Seq<Rename>,
    t: Tally,
    path: Seq<char>,
) -> bool {
    ||| added.contains(path)
    ||| deleted.contains(path)
    ||| exists|i: int| 0 <= i < renamed.len() && (#[trigger] renamed[i]).new_path == path
    ||| exists|i: int| 0 <= i < t.modified.len() && (#[trigger] t.modified[i]).0.path == path
    ||| exists|i: int| 0 <= i < t.binary.len() && (#[trigger] t.binary[i]).0 == path
}

/// Adds each of the paths to the sorted ones.
fn add_paths(sorted: &mut Vec<String>, paths: &[String])
    requires
        ascending(views(old(sorted)@)),
    ensures
        ascending(views(final(sorted)@)),
        forall|p: Seq<char>| #[trigger]
            views(final(sorted)@).contains(p) <==> (views(old(sorted)@).contains(p) || views(
                paths@,
            ).contains(p)),
{
    let ghost all = views(paths@);
    for i in 0..paths.len()
        invariant
            all == views(paths@),
            ascending(views(sorted@)),
            forall|p: Seq<char>| #[trigger]
                views(sorted@).contains(p) <==> (views(old(sorted)@).contains(p) || all.take(
                    i as int,
                ).contains(p)),
    {
        let ghost before = views(sorted@);
        insert_unique(sorted, paths[i].clone());
        proof {
            let head = all.take(i as int);
            let more = all.take(i + 1);
            let x = paths@[i as int]@;
            assert(more =~= head.push(x));
            assert forall|p: Seq<char>| #[trigger]
                views(sorted@).contains(p) <==> (views(old(sorted)@).contains(p)
                    || more.contains(p)) by {
                assert(before.contains(p) <==> (views(old(sorted)@).contains(p) || head.contains(
                    p,
                )));
                if head.contains(p) {
                    let k = choose|k: int| 0 <= k < head.len() && head[k] == p;
                    assert(more[k] == p);
                }
                if p == x {
                    assert(more[i as int] == p);
                }
                if more.contains(p) {
                    let k = choose|k: int| 0 <= k < more.len() && more[k] == p;
                    if k < i {
                        assert(head[k] == p);
                    }
                }
            }
        }
    }
    assert(all.take(all.len() as int) =~= all);
}

/// The paths of all files that changed, in ascending order.
pub fn collect_changed_paths(
    added: &[String],
    deleted: &[String],
    renamed: &[RenamedFile],
    modified: &[TextChange],
    binary_files: &[BinaryChange],
) -> (r: Vec<String>)
    ensures
        ascending(views(r@)),
        forall|p: Seq<char>| #[trigger]
            views(r@).contains(p) <==> {
                ||| views(added@).contains(p)
                ||| views(deleted@).contains(p)
                ||| exists|i: int|
                    0 <= i < renamed@.len() && (#[trigger] renamed@[i]).new_path@ == p
                ||| exists|i: int| 0 <= i < modified@.len() && (#[trigger] modified@[i]).path@ == p
                ||| exists|i: int|
                    0 <= i < binary_files@.len() && (#[trigger] binary_files@[i]).path@ == p
            },
{
    let mut more: Vec<String> = Vec::new();
    for i in 0..renamed.len()
        invariant
            more@.len() == i,
            forall|k: int| 0 <= k < i ==> (#[trigger] more@[k])@ == renamed@[k].new_path@,
    {
        more.push(renamed[i].new_path.clone());
    }
    for i in 0..modified.len()
        invariant
            more@.len() == renamed@.len() + i,
            forall|k: int|
                0 <= k < renamed@.len() ==> (#[trigger] more@[k])@ == renamed@[k].new_path@,
            forall|k: int|
                renamed@.len() <= k < renamed@.len() + i ==> (#[trigger] more@[k])@ == modified@[k
                    - renamed@.len()].path@,
    {
        more.push(modified[i].path.clone());
    }
    for i in 0..binary_files.len()
        invariant
            more@.len() == renamed@.len() + modified@.len() + i,
            forall|k: int|
                0 <= k < renamed@.len() ==> (#[trigger] more@[k])@ == renamed@[k].new_path@,
            forall|k: int|
                renamed@.len() <= k < renamed@.len() + modified@.len() ==> (#[trigger] more@[k])@
                    == modified@[k - renamed@.len()].path@,
            forall|k: int|
                renamed@.len() + modified@.len() <= k < renamed@.len() + modified@.len() + i ==> (
                #[trigger] more@[k])@ == binary_files@[k - renamed@.len() - modified@.len()].path@,
    {
        more.push(binary_files[i].path.clone());
    }
    let mut out: Vec<String> = Vec::new();
    add_paths(&mut out, added);
    add_paths(&mut out, deleted);
    add_paths(&mut out, more.as_slice());
    proof {
        let n = renamed@.len() as int;
        let m = modified@.len() as int;
        assert forall|p: Seq<char>| #[trigger] views(more@).contains(p) <==> ({
            ||| exists|i: int| 0 <= i < renamed@.len() && (#[trigger] renamed@[i]).new_path@ == p
            ||| exists|i: int| 0 <= i < modified@.len() && (#[trigger] modified@[i]).path@ == p
            ||| exists|i: int|
                0 <= i < binary_files@.len() && (#[trigger] binary_files@[i]).path@ == p
        }) by {
            if views(more@).contains(p) {
                let k = choose|k: int| 0 <= k < views(more@).len() && views(more@)[k] == p;
                assert(more@[k]@ == p);
                if k < n {
                    assert(renamed@[k].new_path@ == p);
                } else if k < n + m {
                    assert(modified@[k - n].path@ == p);
                } else {
                    assert(binary_files@[k - n - m].path@ == p);
                }
            }
            if exists|i: int| 0 <= i < renamed@.len() && (#[trigger] renamed@[i]).new_path@ == p {
                let i = choose|i: int|
                    0 <= i < renamed@.len() && (#[trigger] renamed@[i]).new_path@ == p;
                assert(more@[i]@ == p);
                assert(views(more@)[i] == p);
            }
            if exists|i: int| 0 <= i < modified@.len() && (#[trigger] modified@[i]).path@ == p {
                let i = choose|i: int|
                    0 <= i < modified@.len() && (#[trigger] modified@[i]).path@ == p;
                assert(more@[n + i]@ == p);
                assert(views(more@)[n + i] == p);
            }
            if exists|i: int|
                0 <= i < binary_files@.len() && (#[trigger] binary_files@[i]).path@ == p {
                let i = choose|i: int|
                    0 <= i < binary_files@.len() && (#[trigger] binary_files@[i]).path@ == p;
                assert(more@[n + m + i]@ == p);
                assert(views(more@)[n + m + i] == p);
            }
        }
    }
    out
}

/// The warning that the differences were cut short.
pub open spec fn limit_words(max_diff_bytes: nat) -> Seq<char> {
    "Unified diff output reached max_diff_bytes="@ + decimal(max_diff_bytes)
        + "; call again with a narrower scope or higher limit for more detail."@
}

/// A warning where the differences took all the bytes that they may.
pub fn build_warnings(max_diff_bytes: usize, diff_bytes_used: usize) -> (r: Vec<String>)
    ensures
        views(r@) == if diff_bytes_used >= max_diff_bytes {
            seq![limit_words(max_diff_bytes as nat)]
        } else {
            Seq::<Seq<char>>::empty()
        },
{
    let mut out: Vec<String> = Vec::new();
    if diff_bytes_used >= max_diff_bytes {
        let mut words = "Unified diff output reached max_diff_bytes=".to_owned();
        words.append(usize_decimal(max_diff_bytes).as_str());
        words.append("; call again with a narrower scope or higher limit for more detail.");
        out.push(words);
        assert(views(out@) =~= seq![limit_words(max_diff_bytes as nat)]);
    } else {
        assert(views(out@) =~= Seq::<Seq<char>>::empty());
    }
    out
}

/// The first entries of a list, as many as are returned.
pub fn capped_strings(items: &[String]) -> (r: Vec<String>)
    ensures
        views(r@) == crate::tools::compare_summary::first_of(
            views(items@),
            TOP_LEVEL_LIST_LIMIT as nat,
        ),
{
    let n: usize = if items.len() <= TOP_LEVEL_LIST_LIMIT {
        items.len()
    } else {
        TOP_LEVEL_LIST_LIMIT
    };
    let mut out: Vec<String> = Vec::new();
    for i in 0..n
        invariant
            n <= items@.len(),
            out@.len() == i,
            forall|k: int| 0 <= k < i ==> (#[trigger] out@[k])@ == items@[k]@,
    {
        out.push(items[i].clone());
    }
    assert(views(out@) =~= crate::tools::compare_summary::first_of(
        views(items@),
        TOP_LEVEL_LIST_LIMIT as nat,
    ));
    out
}

/// What the comparison of two directories came to.
pub struct Comparison {
    pub added: Vec<String>,
    pub deleted: Vec<String>,
    pub renamed: Vec<RenamedFile>,
    pub common: CommonFiles,
    pub skipped: Vec<SkippedFile>,
    pub changed_paths: Vec<String>,
    pub top_changed_directories: Vec<NamedCount>,
    pub extensions_summary: Vec<NamedCount>,
    pub changed_files_by_directory: Vec<PathGroup>,
    pub risk_hints: Vec<PathGroup>,
    pub warnings: Vec<String>,
}

/// The renames that are looked for, where they are.
pub open spec fn asked_renames(
    left: Side,
    right: Side,
    deleted: Seq<usize>,
    added: Seq<usize>,
    options: Options,
) -> Renames {
    if options.detect_renames {
        renames(
            entries_at(left, deleted),
            entries_at(right, added),
            options.max_file_size,
            options.rename_similarity_threshold,
            deleted.len() as int,
        )
    } else {
        Renames {
            renamed: Seq::empty(),
            taken_deleted: none_taken(deleted.len()),
            taken_added: none_taken(added.len()),
            skipped: Seq::empty(),
        }
    }
}

impl Comparison {
    /// The comparison is that of `left` with `right`. `gone`, `fresh` and `both`
    /// are the positions of the files that only the left one has, only the
    /// right one has, and both have.
    pub open spec fn compares(
        &self,
        left: Side,
        right: Side,
        skipped_before: Seq<Skipped>,
        options: Options,
        gone: Seq<usize>,
        fresh: Seq<usize>,
        both: Seq<usize>,
    ) -> bool {
        let left_paths = views(left.paths@);
        let right_paths = views(right.paths@);
        let moved = asked_renames(left, right, gone, fresh, options);
        let t = tally(pairs(left, right, both), options, both.len() as int);
        let changed = views(self.changed_paths@);
        &&& as_ints(gone) == positions(left_paths, right_paths, false, left_paths.len() as int)
        &&& as_ints(fresh) == positions(right_paths, left_paths, false, right_paths.len() as int)
        &&& as_ints(both) == positions(left_paths, right_paths, true, left_paths.len() as int)
        &&& views(self.deleted@) == left_over(
            left_paths,
            gone,
            moved.taken_deleted,
            gone.len() as int,
        )
        &&& views(self.added@) == left_over(
            right_paths,
            fresh,
            moved.taken_added,
            fresh.len() as int,
        )
        &&& rename_views(self.renamed@) == moved.renamed
        &&& self.common.agrees(t, options)
        &&& skip_views(self.skipped@) == skipped_before + moved.skipped + t.skipped
        &&& ascending(changed)
        &&& forall|p: Seq<char>| #[trigger]
            changed.contains(p) <==> is_changed(
                views(self.added@),
                views(self.deleted@),
                moved.renamed,
                t,
                p,
            )
        &&& are_top_counts(top_keys(changed), count_views(self.top_changed_directories@))
        &&& are_top_counts(extension_keys(changed), count_views(self.extensions_summary@))
        &&& are_groups(changed, top_keys(changed), self.changed_files_by_directory@)
        &&& are_groups(risky(changed), risk_keys(risky(changed)), self.risk_hints@)
        &&& views(self.warnings@) == if t.used >= options.max_diff_bytes {
            seq![limit_words(options.max_diff_bytes as nat)]
        } else {
            Seq::<Seq<char>>::empty()
        }
    }
}

impl Comparison {
    /// What is told as added, deleted or renamed is so: what is added only the right
    /// side has, what is deleted only the left one, and a rename leads from a path that
    /// only the left side has to one that only the right side has.
    pub open spec fn tells(&self, left: Side, right: Side) -> bool {
        let old_paths = views(left.paths@);
        let new_paths = views(right.paths@);
        &&& forall|p: Seq<char>| #[trigger]
            views(self.added@).contains(p) ==> new_paths.contains(p) && !old_paths.contains(p)
        &&& forall|p: Seq<char>| #[trigger]
            views(self.deleted@).contains(p) ==> old_paths.contains(p) && !new_paths.contains(p)
        &&& forall|i: int|
            0 <= i < self.renamed@.len() ==> {
                let moved = #[trigger] self.renamed@[i];
                &&& old_paths.contains(moved.old_path@) && !new_paths.contains(moved.old_path@)
                &&& new_paths.contains(moved.new_path@) && !old_paths.contains(moved.new_path@)
            }
    }

    /// Every file that differs is told: one that only the right side has is added, or
    /// the new path of a rename; one that only the left side has is deleted, or the old
    /// path of a rename; and one that both have, that is not too large, and that does
    /// not hold the same on both, is modified, as text or as a binary file.
    pub open spec fn tells_all(&self, left: Side, right: Side, options: Options) -> bool {
        let old_paths = views(left.paths@);
        let new_paths = views(right.paths@);
        &&& forall|p: Seq<char>|
            #![trigger new_paths.contains(p)]
            new_paths.contains(p) && !old_paths.contains(p) ==> views(self.added@).contains(p) || (
            exists|i: int| 0 <= i < self.renamed@.len() && (#[trigger] self.renamed@[i]).new_path@ == p)
        &&& forall|p: Seq<char>|
            #![trigger old_paths.contains(p)]
            old_paths.contains(p) && !new_paths.contains(p) ==> views(self.deleted@).contains(p) || (
            exists|i: int| 0 <= i < self.renamed@.len() && (#[trigger] self.renamed@[i]).old_path@ == p)
        &&& forall|a: int, b: int, p: Seq<char>| #[trigger]
            files_differ(left, right, a, b, p) && left.infos@[a].size <= options.max_file_size
                && right.infos@[b].size <= options.max_file_size ==> (exists|i: int|
                0 <= i < self.common.modified@.len() && (#[trigger] self.common.modified@[i]).path@
                    == p) || (exists|i: int|
                0 <= i < self.common.binary@.len() && (#[trigger] self.common.binary@[i]).path@ == p)
    }
}

/// What is left over are paths at positions that are not taken, and each such path
/// is left over.
proof fn lemma_left_over(paths: Seq<Seq<char>>, at: Seq<usize>, taken: Seq<bool>, n: int)
    requires
        0 <= n <= at.len(),
        n <= taken.len(),
    ensures
        forall|p: Seq<char>| #[trigger]
            left_over(paths, at, taken, n).contains(p) ==> exists|k: int|
                0 <= k < n && !taken[k] && paths[(#[trigger] at[k]) as int] == p,
        forall|k: int|
            0 <= k < n && !taken[k] ==> left_over(paths, at, taken, n).contains(
                paths[(#[trigger] at[k]) as int],
            ),
    decreases n,
{
    if n > 0 {
        lemma_left_over(paths, at, taken, n - 1);
        let before = left_over(paths, at, taken, n - 1);
        let all = left_over(paths, at, taken, n);
        assert forall|p: Seq<char>| #[trigger] all.contains(p) implies exists|k: int|
            0 <= k < n && !taken[k] && paths[(#[trigger] at[k]) as int] == p by {
            let i = choose|i: int| 0 <= i < all.len() && all[i] == p;
            if i < before.len() {
                assert(before[i] == p);
                assert(before.contains(p));
                let k = choose|k: int|
                    0 <= k < n - 1 && !taken[k] && paths[(#[trigger] at[k]) as int] == p;
                assert(paths[at[k] as int] == p);
            } else {
                assert(paths[at[n - 1] as int] == p);
            }
        }
        assert forall|k: int| 0 <= k < n && !taken[k] implies all.contains(
            paths[(#[trigger] at[k]) as int],
        ) by {
            if k < n - 1 {
                assert(before.contains(paths[at[k] as int]));
                let i = choose|i: int| 0 <= i < before.len() && before[i] == paths[at[k] as int];
                assert(all[i] == paths[at[k] as int]);
            } else {
                assert(all[before.len() as int] == paths[at[k] as int]);
            }
        }
    }
}

/// Every position is among those chosen for it.
proof fn lemma_positions_all(own: Seq<Seq<char>>, other: Seq<Seq<char>>, present: bool, n: int, k: int)
    requires
        0 <= k < n <= own.len(),
        other.contains(own[k]) == present,
    ensures
        positions(own, other, present, n).contains(k),
    decreases n,
{
    let all = positions(own, other, present, n);
    if k == n - 1 {
        assert(all[all.len() - 1] == k);
    } else {
        lemma_positions_all(own, other, present, n - 1, k);
        let before = positions(own, other, present, n - 1);
        let i = choose|i: int| 0 <= i < before.len() && before[i] == k;
        assert(all[i] == k);
    }
}

/// A file that is modified or binary is among those that are told to be.
proof fn lemma_tally_members(pairs: Seq<(Entry, Entry)>, options: Options, n: int, k: int)
    requires
        0 <= k < n <= pairs.len(),
    ensures
        ({
            let t = tally(pairs, options, n);
            let v = verdict(pairs[k].0, pairs[k].1, options.max_file_size);
            &&& v is Modified ==> exists|i: int|
                0 <= i < t.modified.len() && (#[trigger] t.modified[i]).0.path == pairs[k].0.path
            &&& v is Binary ==> exists|i: int|
                0 <= i < t.binary.len() && (#[trigger] t.binary[i]).0 == pairs[k].0.path
        }),
    decreases n,
{
    let t = tally(pairs, options, n);
    let before = tally(pairs, options, n - 1);
    let v = verdict(pairs[k].0, pairs[k].1, options.max_file_size);
    if k == n - 1 {
        if v is Modified {
            assert(t.modified[before.modified.len() as int].0.path == pairs[k].0.path);
        }
        if v is Binary {
            assert(t.binary[before.binary.len() as int].0 == pairs[k].0.path);
        }
    } else {
        lemma_tally_members(pairs, options, n - 1, k);
        if v is Modified {
            let i = choose|i: int|
                0 <= i < before.modified.len() && (#[trigger] before.modified[i]).0.path
                    == pairs[k].0.path;
            assert(t.modified[i] == before.modified[i]);
        }
        if v is Binary {
            let i = choose|i: int|
                0 <= i < before.binary.len() && (#[trigger] before.binary[i]).0 == pairs[k].0.path;
            assert(t.binary[i] == before.binary[i]);
        }
    }
}

/// What a comparison tells is so.
#[verifier::rlimit(30)]
proof fn lemma_tells(
    c: Comparison,
    left: Side,
    right: Side,
    skipped_before: Seq<Skipped>,
    options: Options,
    gone: Seq<usize>,
    fresh: Seq<usize>,
    both: Seq<usize>,
)
    requires
        left.wf(),
        right.wf(),
        c.compares(left, right, skipped_before, options, gone, fresh, both),
    ensures
        c.tells(left, right),
{
    let old_paths = views(left.paths@);
    let new_paths = views(right.paths@);
    let moved = asked_renames(left, right, gone, fresh, options);
    let deleted = entries_at(left, gone);
    let added = entries_at(right, fresh);
    lemma_positions(old_paths, new_paths, false, old_paths.len() as int);
    lemma_positions(new_paths, old_paths, false, new_paths.len() as int);
    lemma_positions(old_paths, new_paths, true, old_paths.len() as int);
    assert forall|k: int| 0 <= k < gone.len() implies 0 <= (#[trigger] gone[k]) < old_paths.len()
        && !new_paths.contains(old_paths[gone[k] as int]) && deleted[k].path
        == old_paths[gone[k] as int] by {
        assert(as_ints(gone)[k] == gone[k]);
    }
    assert forall|k: int| 0 <= k < fresh.len() implies 0 <= (#[trigger] fresh[k]) < new_paths.len()
        && !old_paths.contains(new_paths[fresh[k] as int]) && added[k].path
        == new_paths[fresh[k] as int] by {
        assert(as_ints(fresh)[k] == fresh[k]);
    }
    if options.detect_renames {
        lemma_rename_sources(
            deleted,
            added,
            options.max_file_size,
            options.rename_similarity_threshold,
            gone.len() as int,
        );
        lemma_taken_renamed(
            deleted,
            added,
            options.max_file_size,
            options.rename_similarity_threshold,
            gone.len() as int,
        );
    }
    lemma_left_over(old_paths, gone, moved.taken_deleted, gone.len() as int);
    lemma_left_over(new_paths, fresh, moved.taken_added, fresh.len() as int);
    assert forall|i: int| 0 <= i < c.renamed@.len() implies {
        let m = #[trigger] c.renamed@[i];
        &&& old_paths.contains(m.old_path@) && !new_paths.contains(m.old_path@)
        &&& new_paths.contains(m.new_path@) && !old_paths.contains(m.new_path@)
    } by {
        assert(rename_views(c.renamed@)[i] == c.renamed@[i]@);
        assert(moved.renamed.len() > 0);
        assert(options.detect_renames);
        let r = moved.renamed[i];
        let k = choose|k: int| 0 <= k < gone.len() && (#[trigger] deleted[k]).path == r.old_path;
        assert(gone[k] < old_paths.len());
        let j = choose|j: int|
            0 <= j < added.len() && #[trigger] moved.taken_added[j] && added[j].path == r.new_path;
        assert(fresh[j] < new_paths.len());
    }
}

/// A comparison tells the files that only one side has.
#[verifier::rlimit(30)]
proof fn lemma_tells_one_sided(
    c: Comparison,
    left: Side,
    right: Side,
    skipped_before: Seq<Skipped>,
    options: Options,
    gone: Seq<usize>,
    fresh: Seq<usize>,
    both: Seq<usize>,
)
    requires
        left.wf(),
        right.wf(),
        c.compares(left, right, skipped_before, options, gone, fresh, both),
    ensures
        ({
            let old_paths = views(left.paths@);
            let new_paths = views(right.paths@);
            &&& forall|p: Seq<char>|
                #![trigger new_paths.contains(p)]
                new_paths.contains(p) && !old_paths.contains(p) ==> views(c.added@).contains(p) || (
                exists|i: int|
                    0 <= i < c.renamed@.len() && (#[trigger] c.renamed@[i]).new_path@ == p)
            &&& forall|p: Seq<char>|
                #![trigger old_paths.contains(p)]
                old_paths.contains(p) && !new_paths.contains(p) ==> views(c.deleted@).contains(p)
                    || (exists|i: int|
                    0 <= i < c.renamed@.len() && (#[trigger] c.renamed@[i]).old_path@ == p)
        }),
{
    let old_paths = views(left.paths@);
    let new_paths = views(right.paths@);
    let moved = asked_renames(left, right, gone, fresh, options);
    let deleted = entries_at(left, gone);
    let added = entries_at(right, fresh);
    lemma_positions(old_paths, new_paths, false, old_paths.len() as int);
    lemma_positions(new_paths, old_paths, false, new_paths.len() as int);
    lemma_positions(old_paths, new_paths, true, old_paths.len() as int);
    assert forall|k: int| 0 <= k < gone.len() implies 0 <= (#[trigger] gone[k]) < old_paths.len()
        && !new_paths.contains(old_paths[gone[k] as int]) && deleted[k].path
        == old_paths[gone[k] as int] by {
        assert(as_ints(gone)[k] == gone[k]);
    }
    assert forall|k: int| 0 <= k < fresh.len() implies 0 <= (#[trigger] fresh[k]) < new_paths.len()
        && !old_paths.contains(new_paths[fresh[k] as int]) && added[k].path
        == new_paths[fresh[k] as int] by {
        assert(as_ints(fresh)[k] == fresh[k]);
    }
    if options.detect_renames {
        lemma_rename_sources(
            deleted,
            added,
            options.max_file_size,
            options.rename_similarity_threshold,
            gone.len() as int,
        );
        lemma_taken_renamed(
            deleted,
            added,
            options.max_file_size,
            options.rename_similarity_threshold,
            gone.len() as int,
        );
    }
    lemma_left_over(old_paths, gone, moved.taken_deleted, gone.len() as int);
    lemma_left_over(new_paths, fresh, moved.taken_added, fresh.len() as int);
    assert forall|p: Seq<char>|
        #![trigger new_paths.contains(p)]
        new_paths.contains(p) && !old_paths.contains(p) implies views(c.added@).contains(p) || (
    exists|i: int| 0 <= i < c.renamed@.len() && (#[trigger] c.renamed@[i]).new_path@ == p) by {
        let at = choose|at: int| 0 <= at < new_paths.len() && new_paths[at] == p;
        lemma_positions_all(new_paths, old_paths, false, new_paths.len() as int, at);
        let all = as_ints(fresh);
        let k = choose|k: int| 0 <= k < all.len() && all[k] == at;
        assert(fresh[k] == at);
        assert(added[k].path == p);
        if moved.taken_added[k] {
            assert(options.detect_renames);
            let i = choose|i: int|
                0 <= i < moved.renamed.len() && (#[trigger] moved.renamed[i]).new_path
                    == added[k].path;
            assert(rename_views(c.renamed@)[i] == c.renamed@[i]@);
        }
    }
    assert forall|p: Seq<char>|
        #![trigger old_paths.contains(p)]
        old_paths.contains(p) && !new_paths.contains(p) implies views(c.deleted@).contains(p) || (
    exists|i: int| 0 <= i < c.renamed@.len() && (#[trigger] c.renamed@[i]).old_path@ == p) by {
        let at = choose|at: int| 0 <= at < old_paths.len() && old_paths[at] == p;
        lemma_positions_all(old_paths, new_paths, false, old_paths.len() as int, at);
        let all = as_ints(gone);
        let k = choose|k: int| 0 <= k < all.len() && all[k] == at;
        assert(gone[k] == at);
        assert(deleted[k].path == p);
        if moved.taken_deleted[k] {
            assert(options.detect_renames);
            let i = choose|i: int|
                0 <= i < moved.renamed.len() && (#[trigger] moved.renamed[i]).old_path
                    == deleted[k].path;
            assert(rename_views(c.renamed@)[i] == c.renamed@[i]@);
        }
    }
}

/// What a comparison tells is so, and it tells every file that differs.
pub proof fn law_comparison_tells(
    c: Comparison,
    left: Side,
    right: Side,
    skipped_before: Seq<Skipped>,
    options: Options,
    gone: Seq<usize>,
    fresh: Seq<usize>,
    both: Seq<usize>,
)
    requires
        left.wf(),
        right.wf(),
        c.compares(left, right, skipped_before, options, gone, fresh, both),
    ensures
        c.tells(left, right),
        c.tells_all(left, right, options),
{
    let old_paths = views(left.paths@);
    let new_paths = views(right.paths@);
    lemma_tells(c, left, right, skipped_before, options, gone, fresh, both);
    lemma_tells_one_sided(c, left, right, skipped_before, options, gone, fresh, both);
    assert forall|a: int, b: int, p: Seq<char>| #[trigger]
        files_differ(left, right, a, b, p) && left.infos@[a].size <= options.max_file_size
            && right.infos@[b].size <= options.max_file_size implies (exists|i: int|
        0 <= i < c.common.modified@.len() && (#[trigger] c.common.modified@[i]).path@ == p) || (
    exists|i: int|
        0 <= i < c.common.binary@.len() && (#[trigger] c.common.binary@[i]).path@ == p) by {
        assert(old_paths[a] == p && new_paths[b] == p);
        assert(new_paths.contains(old_paths[a]));
        lemma_positions_all(old_paths, new_paths, true, old_paths.len() as int, a);
        let all = as_ints(both);
        let k = choose|k: int| 0 <= k < all.len() && all[k] == a;
        assert(both[k] == a);
        lemma_index_of(new_paths, p, b);
        let common = pairs(left, right, both);
        let t = tally(common, options, both.len() as int);
        assert(common[k] == (left.entry(a), right.entry(b)));
        lemma_tally_members(common, options, both.len() as int, k);
        let v = verdict(common[k].0, common[k].1, options.max_file_size);
        if v is Modified {
            let i = choose|i: int|
                0 <= i < t.modified.len() && (#[trigger] t.modified[i]).0.path == p;
            assert(c.common.modified@[i].path@ == p);
        } else {
            assert(v is Binary);
            let i = choose|i: int| 0 <= i < t.binary.len() && (#[trigger] t.binary[i]).0 == p;
            assert(c.common.binary@[i].path@ == p);
        }
    }
}

/// The positions of files whose paths the other side has are positions of such
/// files.
proof fn lemma_positions(own: Seq<Seq<char>>, other: Seq<Seq<char>>, present: bool, n: int)
    requires
        0 <= n <= own.len(),
    ensures
        forall|i: int|
            0 <= i < positions(own, other, present, n).len() ==> {
                let k = #[trigger] positions(own, other, present, n)[i];
                0 <= k < n && other.contains(own[k]) == present
            },
    decreases n,
{
    if n > 0 {
        lemma_positions(own, other, present, n - 1);
        let before = positions(own, other, present, n - 1);
        let all = positions(own, other, present, n);
        assert forall|i: int| 0 <= i < all.len() implies {
            let k = #[trigger] all[i];
            0 <= k < n && other.contains(own[k]) == present
        } by {
            if i < before.len() {
                assert(all[i] == before[i]);
            }
        }
    }
}

/// Each file of the left side is either one that the right side has too, or one
/// that it has not; together they are all, and no position occurs twice.
pub proof fn law_files_split(own: Seq<Seq<char>>, other: Seq<Seq<char>>, n: int)
    requires
        0 <= n <= own.len(),
    ensures
        positions(own, other, true, n).len() + positions(own, other, false, n).len() == n,
        forall|k: int|
            0 <= k < n ==> (positions(own, other, true, n).contains(k) <==> !#[trigger] positions(
                own,
                other,
                false,
                n,
            ).contains(k)),
        positions(own, other, true, n).no_duplicates(),
        positions(own, other, false, n).no_duplicates(),
    decreases n,
{
    lemma_positions(own, other, true, n);
    lemma_positions(own, other, false, n);
    if n > 0 {
        law_files_split(own, other, n - 1);
        lemma_positions(own, other, true, n - 1);
        lemma_positions(own, other, false, n - 1);
        let a = positions(own, other, true, n - 1);
        let b = positions(own, other, false, n - 1);
        let x = positions(own, other, true, n);
        let y = positions(own, other, false, n);
        let present = other.contains(own[n - 1]);
        assert(x == if present {
            a.push(n - 1)
        } else {
            a
        });
        assert(y == if present {
            b
        } else {
            b.push(n - 1)
        });
        assert forall|k: int| 0 <= k < n implies (x.contains(k) <==> !#[trigger] y.contains(k)) by {
            if k < n - 1 {
                assert(a.contains(k) <==> !b.contains(k));
                if a.contains(k) {
                    let i = choose|i: int| 0 <= i < a.len() && a[i] == k;
                    assert(x[i] == k);
                }
                if b.contains(k) {
                    let i = choose|i: int| 0 <= i < b.len() && b[i] == k;
                    assert(y[i] == k);
                }
                if x.contains(k) {
                    let i = choose|i: int| 0 <= i < x.len() && x[i] == k;
                    assert(a[i] == k);
                }
                if y.contains(k) {
                    let i = choose|i: int| 0 <= i < y.len() && y[i] == k;
                    assert(b[i] == k);
                }
            } else {
                if present {
                    assert(x[a.len() as int] == k);
                    if y.contains(k) {
                        let i = choose|i: int| 0 <= i < y.len() && y[i] == k;
                        assert(b[i] == k);
                    }
                } else {
                    assert(y[b.len() as int] == k);
                    if x.contains(k) {
                        let i = choose|i: int| 0 <= i < x.len() && x[i] == k;
                        assert(a[i] == k);
                    }
                }
            }
        }
    }
}

/// What `best_of` takes is not taken, may be the new name, and is similar
/// enough.
proof fn lemma_best_of(
    gone: Entry,
    bytes: Seq<u8>,
    added: Seq<Entry>,
    taken: Seq<bool>,
    max_file_size: u64,
    threshold: Fraction,
    n: int,
)
    requires
        0 <= n <= added.len(),
    ensures
        best_of(gone, bytes, added, taken, max_file_size, threshold, n).at matches Some(
            (at, equal, total),
        ) ==> {
            &&& 0 <= at < n
            &&& may_be_renamed(gone, added[at], taken[at], max_file_size, threshold)
            &&& at_least(equal, total, threshold)
        },
    decreases n,
{
    if n > 0 {
        lemma_best_of(gone, bytes, added, taken, max_file_size, threshold, n - 1);
    }
}

/// How many are taken.
pub open spec fn count_taken(taken: Seq<bool>) -> nat
    decreases taken.len(),
{
    if taken.len() == 0 {
        0
    } else {
        count_taken(taken.drop_last()) + if taken.last() {
            1nat
        } else {
            0nat
        }
    }
}

/// Taking one more makes the count one larger.
proof fn lemma_count_taken(taken: Seq<bool>, at: int)
    requires
        0 <= at < taken.len(),
        !taken[at],
    ensures
        count_taken(taken.update(at, true)) == count_taken(taken) + 1,
    decreases taken.len(),
{
    let more = taken.update(at, true);
    if at == taken.len() - 1 {
        assert(more.drop_last() =~= taken.drop_last());
    } else {
        assert(more.drop_last() =~= taken.drop_last().update(at, true));
        lemma_count_taken(taken.drop_last(), at);
    }
}

/// Nothing taken counts nothing.
proof fn lemma_count_none(n: nat)
    ensures
        count_taken(none_taken(n)) == 0,
    decreases n,
{
    if n > 0 {
        assert(none_taken(n).drop_last() =~= none_taken((n - 1) as nat));
        lemma_count_none((n - 1) as nat);
    }
}

/// No path occurs twice.
pub open spec fn paths_differ(entries: Seq<Entry>) -> bool {
    forall|i: int, j: int|
        0 <= i < j < entries.len() ==> (#[trigger] entries[i]).path != (#[trigger] entries[j]).path
}

/// A file that is taken by a rename is one of the files of a rename.
proof fn lemma_taken_renamed(
    deleted: Seq<Entry>,
    added: Seq<Entry>,
    max_file_size: u64,
    threshold: Fraction,
    n: int,
)
    requires
        0 <= n <= deleted.len(),
    ensures
        ({
            let r = renames(deleted, added, max_file_size, threshold, n);
            &&& r.taken_added.len() == added.len()
            &&& r.taken_deleted.len() == deleted.len()
            &&& forall|k: int|
                0 <= k < added.len() && #[trigger] r.taken_added[k] ==> (exists|i: int|
                    0 <= i < r.renamed.len() && (#[trigger] r.renamed[i]).new_path
                        == added[k].path)
            &&& forall|k: int|
                0 <= k < deleted.len() && #[trigger] r.taken_deleted[k] ==> (exists|i: int|
                    0 <= i < r.renamed.len() && (#[trigger] r.renamed[i]).old_path
                        == deleted[k].path)
        }),
    decreases n,
{
    if n > 0 {
        lemma_taken_renamed(deleted, added, max_file_size, threshold, n - 1);
        let before = renames(deleted, added, max_file_size, threshold, n - 1);
        let after = renames(deleted, added, max_file_size, threshold, n);
        let gone = deleted[n - 1];
        if gone.info.size <= max_file_size && gone.read is Ok {
            let bytes = gone.read->Ok_0;
            let taken = before.taken_added;
            let all = added.len() as int;
            lemma_best_of(gone, bytes, added, taken, max_file_size, threshold, all);
            let best = best_of(gone, bytes, added, taken, max_file_size, threshold, all);
            if let Some((at, _equal, _total)) = best.at {
                let last = before.renamed.len() as int;
                assert(after.renamed[last].old_path == deleted[n - 1].path);
                assert(after.renamed[last].new_path == added[at].path);
                assert forall|k: int| 0 <= k < added.len() && #[trigger] after.taken_added[k] implies (
                exists|i: int|
                    0 <= i < after.renamed.len() && (#[trigger] after.renamed[i]).new_path
                        == added[k].path) by {
                    if k != at {
                        assert(before.taken_added[k]);
                        let i = choose|i: int|
                            0 <= i < before.renamed.len() && (#[trigger] before.renamed[i]).new_path
                                == added[k].path;
                        assert(after.renamed[i] == before.renamed[i]);
                    } else {
                        assert(after.renamed[last].new_path == added[k].path);
                    }
                }
                assert forall|k: int|
                    0 <= k < deleted.len() && #[trigger] after.taken_deleted[k] implies (exists|
                    i: int,
                |
                    0 <= i < after.renamed.len() && (#[trigger] after.renamed[i]).old_path
                        == deleted[k].path) by {
                    if k != n - 1 {
                        assert(before.taken_deleted[k]);
                        let i = choose|i: int|
                            0 <= i < before.renamed.len() && (#[trigger] before.renamed[i]).old_path
                                == deleted[k].path;
                        assert(after.renamed[i] == before.renamed[i]);
                    } else {
                        assert(after.renamed[last].old_path == deleted[k].path);
                    }
                }
            }
        }
    }
}

/// The files of a rename are a deleted one and an added one that are taken, and
/// no two renames have one in common.
proof fn lemma_rename_sources(
    deleted: Seq<Entry>,
    added: Seq<Entry>,
    max_file_size: u64,
    threshold: Fraction,
    n: int,
)
    requires
        0 <= n <= deleted.len(),
    ensures
        ({
            let r = renames(deleted, added, max_file_size, threshold, n);
            &&& r.taken_added.len() == added.len()
            &&& forall|i: int|
                0 <= i < r.renamed.len() ==> (exists|k: int|
                    0 <= k < n && (#[trigger] deleted[k]).path == (
                    #[trigger] r.renamed[i]).old_path)
            &&& forall|i: int|
                0 <= i < r.renamed.len() ==> (exists|k: int|
                    0 <= k < added.len() && #[trigger] r.taken_added[k] && added[k].path == (
                    #[trigger] r.renamed[i]).new_path)
            &&& paths_differ(deleted) ==> forall|i: int, j: int|
                0 <= i < j < r.renamed.len() ==> (#[trigger] r.renamed[i]).old_path != (
                #[trigger] r.renamed[j]).old_path
            &&& paths_differ(added) ==> forall|i: int, j: int|
                0 <= i < j < r.renamed.len() ==> (#[trigger] r.renamed[i]).new_path != (
                #[trigger] r.renamed[j]).new_path
        }),
    decreases n,
{
    if n > 0 {
        lemma_rename_sources(deleted, added, max_file_size, threshold, n - 1);
        let before = renames(deleted, added, max_file_size, threshold, n - 1);
        let after = renames(deleted, added, max_file_size, threshold, n);
        let gone = deleted[n - 1];
        assert forall|i: int| 0 <= i < before.renamed.len() implies (exists|k: int|
            0 <= k < n && (#[trigger] deleted[k]).path == (
            #[trigger] before.renamed[i]).old_path) by {
            let k = choose|k: int|
                0 <= k < n - 1 && (#[trigger] deleted[k]).path == before.renamed[i].old_path;
            assert(deleted[k].path == before.renamed[i].old_path);
        }
        if gone.info.size <= max_file_size && gone.read is Ok {
            let bytes = gone.read->Ok_0;
            let taken = before.taken_added;
            let all = added.len() as int;
            lemma_best_of(gone, bytes, added, taken, max_file_size, threshold, all);
            let best = best_of(gone, bytes, added, taken, max_file_size, threshold, all);
            if let Some((at, _equal, _total)) = best.at {
                let last = before.renamed.len() as int;
                assert(after.renamed[last].old_path == deleted[n - 1].path);
                assert(after.taken_added[at] && added[at].path == after.renamed[last].new_path);
                assert forall|i: int| 0 <= i < after.renamed.len() implies (exists|k: int|
                    0 <= k < n && (#[trigger] deleted[k]).path == (
                    #[trigger] after.renamed[i]).old_path) by {
                    if i < last {
                        assert(after.renamed[i] == before.renamed[i]);
                    }
                }
                assert forall|i: int| 0 <= i < after.renamed.len() implies (exists|k: int|
                    0 <= k < added.len() && #[trigger] after.taken_added[k] && added[k].path == (
                    #[trigger] after.renamed[i]).new_path) by {
                    if i < last {
                        assert(after.renamed[i] == before.renamed[i]);
                        let k = choose|k: int|
                            0 <= k < added.len() && #[trigger] before.taken_added[k]
                                && added[k].path == before.renamed[i].new_path;
                        assert(after.taken_added[k]);
                    }
                }
                if paths_differ(deleted) {
                    assert forall|i: int, j: int| 0 <= i < j < after.renamed.len() implies (
                    #[trigger] after.renamed[i]).old_path != (
                    #[trigger] after.renamed[j]).old_path by {
                        assert(after.renamed[i] == before.renamed[i]);
                        if j < last {
                            assert(after.renamed[j] == before.renamed[j]);
                        } else {
                            let k = choose|k: int|
                                0 <= k < n - 1 && (#[trigger] deleted[k]).path
                                    == before.renamed[i].old_path;
                            assert(deleted[k].path != deleted[n - 1].path);
                        }
                    }
                }
                if paths_differ(added) {
                    assert forall|i: int, j: int| 0 <= i < j < after.renamed.len() implies (
                    #[trigger] after.renamed[i]).new_path != (
                    #[trigger] after.renamed[j]).new_path by {
                        assert(after.renamed[i] == before.renamed[i]);
                        if j < last {
                            assert(after.renamed[j] == before.renamed[j]);
                        } else {
                            let k = choose|k: int|
                                0 <= k < added.len() && #[trigger] before.taken_added[k]
                                    && added[k].path == before.renamed[i].new_path;
                            assert(k != at);
                            if k < at {
                                assert(added[k].path != added[at].path);
                            } else {
                                assert(added[at].path != added[k].path);
                            }
                        }
                    }
                }
            }
        }
    }
}

/// Each rename takes one deleted and one added file, and none is taken twice;
/// the two have the same extension, and share as much as is asked for. Where no
/// path is deleted twice, none is the old path of two renames, and where none is
/// added twice, none is the new path of two.
pub proof fn law_renames(
    deleted: Seq<Entry>,
    added: Seq<Entry>,
    max_file_size: u64,
    threshold: Fraction,
    n: int,
)
    requires
        0 <= n <= deleted.len(),
    ensures
        ({
            let r = renames(deleted, added, max_file_size, threshold, n);
            &&& r.taken_deleted.len() == deleted.len()
            &&& r.taken_added.len() == added.len()
            &&& count_taken(r.taken_deleted) == r.renamed.len()
            &&& count_taken(r.taken_added) == r.renamed.len()
            &&& forall|k: int| n <= k < deleted.len() ==> !#[trigger] r.taken_deleted[k]
            &&& forall|i: int|
                0 <= i < r.renamed.len() ==> at_least(
                    (#[trigger] r.renamed[i]).equal,
                    r.renamed[i].total,
                    threshold,
                ) && extension_label(r.renamed[i].old_path) == extension_label(
                    r.renamed[i].new_path,
                )
            &&& paths_differ(deleted) ==> forall|i: int, j: int|
                0 <= i < j < r.renamed.len() ==> (#[trigger] r.renamed[i]).old_path != (
                #[trigger] r.renamed[j]).old_path
            &&& paths_differ(added) ==> forall|i: int, j: int|
                0 <= i < j < r.renamed.len() ==> (#[trigger] r.renamed[i]).new_path != (
                #[trigger] r.renamed[j]).new_path
        }),
    decreases n,
{
    lemma_rename_sources(deleted, added, max_file_size, threshold, n);
    if n == 0 {
        lemma_count_none(deleted.len());
        lemma_count_none(added.len());
    } else {
        law_renames(deleted, added, max_file_size, threshold, n - 1);
        let before = renames(deleted, added, max_file_size, threshold, n - 1);
        let gone = deleted[n - 1];
        if gone.info.size <= max_file_size && gone.read is Ok {
            let bytes = gone.read->Ok_0;
            lemma_best_of(
                gone,
                bytes,
                added,
                before.taken_added,
                max_file_size,
                threshold,
                added.len() as int,
            );
            let best = best_of(
                gone,
                bytes,
                added,
                before.taken_added,
                max_file_size,
                threshold,
                added.len() as int,
            );
            if let Some((at, _equal, _total)) = best.at {
                lemma_count_taken(before.taken_deleted, n - 1);
                lemma_count_taken(before.taken_added, at);
            }
        }
    }
}

/// No more bytes of differences are returned than asked for.
pub proof fn law_diff_budget(pairs: Seq<(Entry, Entry)>, options: Options, n: int)
    requires
        0 <= n <= pairs.len(),
    ensures
        tally(pairs, options, n).used <= options.max_diff_bytes,
    decreases n,
{
    if n > 0 {
        law_diff_budget(pairs, options, n - 1);
        let before = tally(pairs, options, n - 1);
        let (left, right) = pairs[n - 1];
        if let Verdict::Modified = verdict(left, right, options.max_file_size) {
            let old_text = decoded(left.read->Ok_0).0;
            let new_text = decoded(right.read->Ok_0).0;
            let all = unified_text(
                old_text,
                new_text,
                CONTEXT_LINES,
                "left/"@ + left.path,
                "right/"@ + left.path,
            );
            crate::text::law_fitting(all, (options.max_diff_bytes - before.used) as nat);
        }
    }
}

/// Every file that both sides have is counted once: as unchanged, modified,
/// binary, or left out.
pub proof fn law_tally_complete(pairs: Seq<(Entry, Entry)>, options: Options, n: int)
    requires
        0 <= n <= pairs.len(),
    ensures
        ({
            let t = tally(pairs, options, n);
            t.unchanged + t.modified.len() + t.binary.len() + t.skipped.len() == n
        }),
    decreases n,
{
    if n > 0 {
        law_tally_complete(pairs, options, n - 1);
    }
}

/// Appends the files that were left out.
fn append_skipped(list: &mut Vec<SkippedFile>, mut more: Vec<SkippedFile>)
    ensures
        skip_views(final(list)@) == skip_views(old(list)@) + skip_views(more@),
{
    let ghost added = more@;
    list.append(&mut more);
    assert(skip_views(list@) =~= skip_views(old(list)@) + skip_views(added));
}

/// A copy of the files that were left out.
fn copy_skipped(list: &[SkippedFile]) -> (r: Vec<SkippedFile>)
    ensures
        skip_views(r@) == skip_views(list@),
{
    let mut out: Vec<SkippedFile> = Vec::new();
    for i in 0..list.len()
        invariant
            out@.len() == i,
            forall|k: int| 0 <= k < i ==> (#[trigger] out@[k])@ == list@[k]@,
    {
        let item = &list[i];
        let message: Option<String> = match &item.message {
            Some(s) => Some(s.clone()),
            None => None,
        };
        out.push(
            SkippedFile {
                path: item.path.clone(),
                side: item.side,
                reason: item.reason,
                message,
                left_size: item.left_size,
                right_size: item.right_size,
                max_files: item.max_files,
            },
        );
    }
    assert(skip_views(out@) =~= skip_views(list@));
    out
}

/// Compares two directories; `skipped` are the files that were left out when
/// the two were walked through.
#[verifier::rlimit(50)]
pub fn compare(left: &Side, right: &Side, skipped: Vec<SkippedFile>, options: &Options) -> (r:
    Comparison)
    requires
        left.wf(),
        right.wf(),
        options.rename_similarity_threshold.wf(),
    ensures
        exists|gone: Seq<usize>, fresh: Seq<usize>, both: Seq<usize>|
            r.compares(*left, *right, skip_views(skipped@), *options, gone, fresh, both),
        r.common.diff_bytes_used <= options.max_diff_bytes,
        r.tells(*left, *right),
        r.tells_all(*left, *right, *options),
        r.common.lead(*left, *right),
{
    let ghost before = skip_views(skipped@);
    let gone = select_positions(left, right, false);
    let fresh = select_positions(right, left, false);
    let both = select_positions(left, right, true);
    let found: FoundRenames = if options.detect_renames {
        detect_renames(
            left,
            right,
            gone.as_slice(),
            fresh.as_slice(),
            options.max_file_size,
            options.rename_similarity_threshold,
        )
    } else {
        FoundRenames {
            renamed: Vec::new(),
            taken_deleted: untaken(gone.len()),
            taken_added: untaken(fresh.len()),
            skipped: Vec::new(),
        }
    };
    proof {
        if !options.detect_renames {
            assert(rename_views(found.renamed@) =~= Seq::<Rename>::empty());
            assert(skip_views(found.skipped@) =~= Seq::<Skipped>::empty());
        }
        assert(found@ == asked_renames(*left, *right, gone@, fresh@, *options));
        lemma_positions(
            views(left.paths@),
            views(right.paths@),
            true,
            left.paths@.len() as int,
        );
        assert forall|i: int| 0 <= i < both@.len() implies views(right.paths@).contains(
            left.paths@[#[trigger] both@[i] as int]@,
        ) by {
            let k = as_ints(both@)[i];
            assert(views(left.paths@)[k] == left.paths@[k]@);
        }
    }
    let deleted = untaken_paths(left, gone.as_slice(), found.taken_deleted.as_slice());
    let added = untaken_paths(right, fresh.as_slice(), found.taken_added.as_slice());
    let common = compare_common(left, right, both.as_slice(), options);
    let mut all_skipped = skipped;
    append_skipped(&mut all_skipped, found.skipped);
    append_skipped(&mut all_skipped, copy_skipped(common.skipped.as_slice()));
    let changed_paths = collect_changed_paths(
        added.as_slice(),
        deleted.as_slice(),
        found.renamed.as_slice(),
        common.modified.as_slice(),
        common.binary.as_slice(),
    );
    let directories = top_directories(changed_paths.as_slice());
    let extensions = extension_labels(changed_paths.as_slice());
    let top_changed_directories = top_counts(directories.as_slice());
    let extensions_summary = top_counts(extensions.as_slice());
    let changed_files_by_directory = changed_by_directory(changed_paths.as_slice());
    let hints = risk_hints(changed_paths.as_slice());
    let warnings = build_warnings(options.max_diff_bytes, common.diff_bytes_used);
    let out = Comparison {
        added,
        deleted,
        renamed: found.renamed,
        common,
        skipped: all_skipped,
        changed_paths,
        top_changed_directories,
        extensions_summary,
        changed_files_by_directory,
        risk_hints: hints,
        warnings,
    };
    proof {
        let t = tally(pairs(*left, *right, both@), *options, both@.len() as int);
        let moved = asked_renames(*left, *right, gone@, fresh@, *options);
        let changed = views(out.changed_paths@);
        assert forall|p: Seq<char>| #[trigger] changed.contains(p) <==> is_changed(
            views(out.added@),
            views(out.deleted@),
            moved.renamed,
            t,
            p,
        ) by {
            lemma_changed_members(out.renamed@, out.common, t, *options, p);
        }
        assert(out.compares(*left, *right, before, *options, gone@, fresh@, both@));
        law_comparison_tells(out, *left, *right, before, *options, gone@, fresh@, both@);
    }
    out
}

/// A path is that of a renamed, modified or binary file in the lists exactly
/// where it is in what they stand for.
proof fn lemma_changed_members(
    renamed: Seq<RenamedFile>,
    common: CommonFiles,
    t: Tally,
    options: Options,
    p: Seq<char>,
)
    requires
        common.agrees(t, options),
    ensures
        (exists|i: int| 0 <= i < renamed.len() && (#[trigger] renamed[i]).new_path@ == p) == (
        exists|i: int|
            0 <= i < rename_views(renamed).len() && (#[trigger] rename_views(renamed)[i]).new_path
                == p),
        (exists|i: int|
            0 <= i < common.modified@.len() && (#[trigger] common.modified@[i]).path@ == p) == (
        exists|i: int| 0 <= i < t.modified.len() && (#[trigger] t.modified[i]).0.path == p),
        (exists|i: int|
            0 <= i < common.binary@.len() && (#[trigger] common.binary@[i]).path@ == p) == (exists|
            i: int,
        |
            0 <= i < t.binary.len() && (#[trigger] t.binary[i]).0 == p),
{
    if exists|i: int| 0 <= i < renamed.len() && (#[trigger] renamed[i]).new_path@ == p {
        let i = choose|i: int| 0 <= i < renamed.len() && (#[trigger] renamed[i]).new_path@ == p;
        assert(rename_views(renamed)[i].new_path == p);
    }
    if exists|i: int|
        0 <= i < rename_views(renamed).len() && (#[trigger] rename_views(renamed)[i]).new_path
            == p {
        let i = choose|i: int|
            0 <= i < rename_views(renamed).len() && (#[trigger] rename_views(
                renamed,
            )[i]).new_path == p;
        assert(renamed[i].new_path@ == p);
    }
    if exists|i: int| 0 <= i < common.modified@.len() && (#[trigger] common.modified@[i]).path@
        == p {
        let i = choose|i: int|
            0 <= i < common.modified@.len() && (#[trigger] common.modified@[i]).path@ == p;
        assert(t.modified[i].0.path == p);
    }
    if exists|i: int| 0 <= i < t.modified.len() && (#[trigger] t.modified[i]).0.path == p {
        let i = choose|i: int| 0 <= i < t.modified.len() && (#[trigger] t.modified[i]).0.path == p;
        assert(common.modified@[i].path@ == p);
    }
    if exists|i: int| 0 <= i < common.binary@.len() && (#[trigger] common.binary@[i]).path@ == p {
        let i = choose|i: int|
            0 <= i < common.binary@.len() && (#[trigger] common.binary@[i]).path@ == p;
        assert(t.binary[i].0 == p);
    }
    if exists|i: int| 0 <= i < t.binary.len() && (#[trigger] t.binary[i]).0 == p {
        let i = choose|i: int| 0 <= i < t.binary.len() && (#[trigger] t.binary[i]).0 == p;
        assert(common.binary@[i].path@ == p);
    }
}

} // verus!
