//! The history of changes: what a path held before and after a write, and
//! which changes were recorded.

use vstd::prelude::*;

use crate::encoding::{decode_fuzzy, decoded, lossy_text, text_from_utf8_lossy};
use crate::json::{field_of, insert_object_field, Json};
use crate::line_endings::{ending_of, line_ending_metadata};
use crate::numbers::{decimal, lemma_value_decimal, u64_decimal};
use crate::text::{ascii_lower, opt_view, str_eq_ignore_case, views};

verus! {

/// How many records are kept.
pub const MAX_HISTORY_ENTRIES: usize = 200;

/// The largest file that a record may hold.
pub const MAX_TRACKED_SNAPSHOT_BYTES: usize = 10 * 1024 * 1024;

/// What stands at a path.
#[derive(Clone, Debug, PartialEq, Eq)]
pub enum SnapshotState {
    Missing,
    File,
    Directory,
}

/// What a path held at one time.
#[derive(Clone, Debug, PartialEq, Eq)]
pub struct PathSnapshot {
    pub state: SnapshotState,
    pub bytes: Option<Vec<u8>>,
    pub encoding_label: Option<String>,
    pub line_ending: Option<String>,
}

/// The identifiers of the changes that are kept, and the number of the next
/// one.
pub struct HistoryState {
    pub records: Vec<String>,
    pub next_entry_id: u64,
}

/// What came of recording a change.
#[derive(Clone, Debug)]
pub struct RecordOutcome {
    pub recorded: bool,
    pub entry_id: Option<String>,
    pub reason: Option<String>,
}

/// The identifier of the change with the given number.
pub open spec fn entry_name(id: nat) -> Seq<char> {
    "h"@ + decimal(id)
}

impl HistoryState {
    /// The records are those of the latest changes, in order: all of them, as
    /// long as they are no more than are kept.
    pub open spec fn wf(&self) -> bool {
        &&& self.records@.len() == if self.next_entry_id <= MAX_HISTORY_ENTRIES {
            self.next_entry_id as int
        } else {
            MAX_HISTORY_ENTRIES as int
        }
        &&& forall|i: int|
            0 <= i < self.records@.len() ==> (#[trigger] self.records@[i])@ == entry_name(
                (self.next_entry_id - self.records@.len() + i) as nat,
            )
    }

    /// A history without records.
    pub fn new() -> (r: Self)
        ensures
            r.wf(),
            r.next_entry_id == 0,
            r.records@.len() == 0,
    {
        HistoryState { records: Vec::new(), next_entry_id: 0 }
    }
}

/// The snapshot of a path at which nothing stands.
pub fn missing_snapshot() -> (r: PathSnapshot)
    ensures
        r.state is Missing,
        r.bytes is None,
        r.encoding_label is None,
        r.line_ending is None,
{
    PathSnapshot {
        state: SnapshotState::Missing,
        bytes: None,
        encoding_label: None,
        line_ending: None,
    }
}

/// The snapshot of a directory.
pub fn directory_snapshot() -> (r: PathSnapshot)
    ensures
        r.state is Directory,
        r.bytes is None,
        r.encoding_label is None,
        r.line_ending is None,
{
    PathSnapshot {
        state: SnapshotState::Directory,
        bytes: None,
        encoding_label: None,
        line_ending: None,
    }
}

/// The snapshot of a file with the given bytes.
pub fn file_snapshot(
    bytes: Vec<u8>,
    encoding_label: Option<String>,
    line_ending: Option<String>,
) -> (r: PathSnapshot)
    ensures
        r == (PathSnapshot { state: SnapshotState::File, bytes: Some(bytes), encoding_label, line_ending }),
{
    PathSnapshot { state: SnapshotState::File, bytes: Some(bytes), encoding_label, line_ending }
}

/// What was found at a path: nothing, a directory, or a file with its length
/// and the outcome of reading it; or the error of asking for its length.
pub enum Observed {
    Missing,
    Directory,
    MetadataFailed(String),
    File { len: u64, read: Result<Vec<u8>, String> },
}

/// The reason why a file of `len` bytes is not tracked.
pub open spec fn too_large_reason(len: nat) -> Seq<char> {
    "file exceeds history snapshot limit ("@ + decimal(len) + " bytes > "@ + decimal(
        MAX_TRACKED_SNAPSHOT_BYTES as nat,
    ) + " bytes)"@
}

/// The reason why a file of `len` bytes is not tracked.
fn too_large_message(len: u64) -> (r: String)
    ensures
        r@ == too_large_reason(len as nat),
{
    let mut out = String::new();
    out.append("file exceeds history snapshot limit (");
    out.append(u64_decimal(len).as_str());
    out.append(" bytes > ");
    out.append(u64_decimal(MAX_TRACKED_SNAPSHOT_BYTES as u64).as_str());
    out.append(" bytes)");
    assert(out@ =~= too_large_reason(len as nat));
    out
}

/// The snapshot of what was found at a path, or why none can be had.
pub fn capture_snapshot(observed: Observed) -> (r: Result<PathSnapshot, String>)
    ensures
        match observed {
            Observed::Missing => r matches Ok(s) && s.state is Missing && s.bytes is None
                && s.encoding_label is None && s.line_ending is None,
            Observed::Directory => r matches Ok(s) && s.state is Directory && s.bytes is None
                && s.encoding_label is None && s.line_ending is None,
            Observed::MetadataFailed(err) => r matches Err(e) && e@ == "read metadata failed: "@
                + err@,
            Observed::File { len, read } => if len > MAX_TRACKED_SNAPSHOT_BYTES {
                r matches Err(e) && e@ == too_large_reason(len as nat)
            } else {
                match read {
                    Err(err) => r matches Err(e) && e@ == "read file failed: "@ + err@,
                    Ok(bytes) => r matches Ok(s) && s.state is File && s.bytes == Some(bytes)
                        && opt_view(s.encoding_label) == Some(history_label(decoded(bytes@).1))
                        && opt_view(s.line_ending) == ending_of(lossy_text(bytes@)),
                }
            },
        },
{
    match observed {
        Observed::Missing => Ok(missing_snapshot()),
        Observed::Directory => Ok(directory_snapshot()),
        Observed::MetadataFailed(err) => {
            let mut out = "read metadata failed: ".to_owned();
            out.append(err.as_str());
            Err(out)
        },
        Observed::File { len, read } => {
            if len > MAX_TRACKED_SNAPSHOT_BYTES as u64 {
                return Err(too_large_message(len));
            }
            match read {
                Err(err) => {
                    let mut out = "read file failed: ".to_owned();
                    out.append(err.as_str());
                    Err(out)
                },
                Ok(bytes) => {
                    let (encoding_label, line_ending) = infer_text_metadata(bytes.as_slice());
                    Ok(file_snapshot(bytes, encoding_label, line_ending))
                },
            }
        },
    }
}

/// The name of the encoding of a file, and its line ending.
pub fn infer_text_metadata(bytes: &[u8]) -> (r: (Option<String>, Option<String>))
    ensures
        opt_view(r.0) == Some(history_label(decoded(bytes@).1)),
        opt_view(r.1) == ending_of(lossy_text(bytes@)),
{
    let (_text, encoding) = decode_fuzzy(bytes);
    let text = text_from_utf8_lossy(bytes);
    let line_ending = line_ending_metadata(text.as_str());
    (Some(normalize_encoding_label(encoding).to_owned()), line_ending)
}

/// The name by which the history knows an encoding; any other than these four
/// is taken for UTF-8.
pub open spec fn history_label(raw: Seq<char>) -> Seq<char> {
    if ascii_lower(raw) == ascii_lower("utf-16le"@) {
        "UTF-16LE"@
    } else if ascii_lower(raw) == ascii_lower("utf-16be"@) {
        "UTF-16BE"@
    } else if ascii_lower(raw) == ascii_lower("windows-1252"@) {
        "WINDOWS-1252"@
    } else {
        "UTF-8"@
    }
}

/// The name by which the history knows an encoding.
pub fn normalize_encoding_label(raw: &str) -> (r: &'static str)
    ensures
        r@ == history_label(raw@),
{
    if str_eq_ignore_case(raw, "utf-16le") {
        "UTF-16LE"
    } else if str_eq_ignore_case(raw, "utf-16be") {
        "UTF-16BE"
    } else if str_eq_ignore_case(raw, "windows-1252") {
        "WINDOWS-1252"
    } else {
        "UTF-8"
    }
}

/// Why a snapshot cannot be kept: a file that is too large, or without bytes.
pub open spec fn untrackable(snapshot: PathSnapshot) -> Option<Seq<char>> {
    if snapshot.state !is File {
        None
    } else {
        match snapshot.bytes {
            None => Some("file snapshot missing bytes"@),
            Some(bytes) => if bytes@.len() > MAX_TRACKED_SNAPSHOT_BYTES {
                Some(too_large_reason(bytes@.len()))
            } else {
                None
            },
        }
    }
}

/// Why a snapshot cannot be kept.
pub fn untrackable_reason(snapshot: &PathSnapshot) -> (r: Option<String>)
    ensures
        opt_view(r) == untrackable(*snapshot),
{
    match snapshot.state {
        SnapshotState::File => match &snapshot.bytes {
            None => Some("file snapshot missing bytes".to_owned()),
            Some(bytes) => {
                if bytes.len() > MAX_TRACKED_SNAPSHOT_BYTES {
                    Some(too_large_message(bytes.len() as u64))
                } else {
                    None
                }
            },
        },
        _ => None,
    }
}

/// The records after one more, of which the oldest goes where there are more
/// than are kept.
pub open spec fn records_after(records: Seq<Seq<char>>, entry: Seq<char>) -> Seq<Seq<char>> {
    let all = records.push(entry);
    if all.len() > MAX_HISTORY_ENTRIES {
        all.skip(all.len() - MAX_HISTORY_ENTRIES)
    } else {
        all
    }
}

/// Records a change, unless the path cannot be tracked before or after it.
pub fn record_change(
    history: &mut HistoryState,
    _tool_name: &str,
    _path: &str,
    before: &PathSnapshot,
    after: &PathSnapshot,
    _summary: &str,
) -> (r: RecordOutcome)
    requires
        old(history).wf(),
        old(history).next_entry_id < u64::MAX,
    ensures
        final(history).wf(),
        r.recorded == (untrackable(*before) is None && untrackable(*after) is None),
        r.recorded ==> {
            &&& opt_view(r.entry_id) == Some(entry_name(old(history).next_entry_id as nat))
            &&& r.reason is None
            &&& final(history).next_entry_id == old(history).next_entry_id + 1
            &&& views(final(history).records@) == records_after(
                views(old(history).records@),
                entry_name(old(history).next_entry_id as nat),
            )
        },
        !r.recorded ==> {
            &&& r.entry_id is None
            &&& opt_view(r.reason) == if untrackable(*before) is Some {
                untrackable(*before)
            } else {
                untrackable(*after)
            }
            &&& *final(history) == *old(history)
        },
{
    if let Some(reason) = untrackable_reason(before) {
        return RecordOutcome { recorded: false, entry_id: None, reason: Some(reason) };
    }
    if let Some(reason) = untrackable_reason(after) {
        return RecordOutcome { recorded: false, entry_id: None, reason: Some(reason) };
    }
    let mut entry_id = "h".to_owned();
    entry_id.append(u64_decimal(history.next_entry_id).as_str());
    history.next_entry_id = history.next_entry_id + 1;
    history.records.push(entry_id.clone());
    let ghost all = history.records@;
    assert(views(all) =~= views(old(history).records@).push(entry_id@));
    if history.records.len() > MAX_HISTORY_ENTRIES {
        assert(all.len() == MAX_HISTORY_ENTRIES + 1);
        let _oldest = history.records.remove(0);
        assert(views(history.records@) =~= views(all).skip(1));
        assert forall|i: int| 0 <= i < history.records@.len() implies (
        #[trigger] history.records@[i])@ == entry_name(
            (history.next_entry_id - history.records@.len() + i) as nat,
        ) by {
            assert(history.records@[i] == all[i + 1]);
        }
    }
    RecordOutcome { recorded: true, entry_id: Some(entry_id), reason: None }
}

/// The outcome of a change that is not recorded, for the given reason.
pub fn no_history(reason: &str) -> (r: RecordOutcome)
    ensures
        !r.recorded,
        r.entry_id is None,
        opt_view(r.reason) == Some(reason@),
{
    RecordOutcome { recorded: false, entry_id: None, reason: Some(reason.to_owned()) }
}

/// What came of recording a change in a history that cannot be used: what would
/// have been recorded is not.
pub fn unavailable(outcome: RecordOutcome) -> (r: RecordOutcome)
    ensures
        !r.recorded,
        if outcome.recorded {
            r.entry_id is None && opt_view(r.reason) == Some("history state is unavailable"@)
        } else {
            r == outcome
        },
{
    if outcome.recorded {
        no_history("history state is unavailable")
    } else {
        outcome
    }
}

/// The value is the text, or null where there is none.
pub open spec fn shows_text(value: Option<Json>, text: Option<Seq<char>>) -> bool {
    match text {
        Some(s) => value matches Some(Json::Text(shown)) && shown@ == s,
        None => value == Some(Json::Null),
    }
}

/// A text as JSON, or null where there is none.
fn json_text(text: &Option<String>) -> (r: Json)
    ensures
        shows_text(Some(r), opt_view(*text)),
{
    match text {
        Some(s) => Json::Text(s.clone()),
        None => Json::Null,
    }
}

/// Says in an answer what came of recording the change: whether it was recorded,
/// under which identifier, or why not. Its other fields stay as they are.
pub fn attach_history_metadata(response: &mut Json, outcome: &RecordOutcome)
    ensures
        *final(response) is Object,
        field_of(*final(response), "history_recorded"@) == Some(Json::Bool(outcome.recorded)),
        shows_text(field_of(*final(response), "history_entry_id"@), opt_view(outcome.entry_id)),
        shows_text(field_of(*final(response), "history_reason"@), opt_view(outcome.reason)),
        forall|key: Seq<char>|
            key != "history_recorded"@ && key != "history_entry_id"@ && key != "history_reason"@
                ==> #[trigger] field_of(*final(response), key) == field_of(*old(response), key),
{
    proof {
        reveal_strlit("history_recorded");
        reveal_strlit("history_entry_id");
        reveal_strlit("history_reason");
        assert("history_recorded"@.len() != "history_reason"@.len());
        assert("history_entry_id"@.len() != "history_reason"@.len());
        assert("history_recorded"@[8] != "history_entry_id"@[8]);
    }
    insert_object_field(response, "history_recorded", Json::Bool(outcome.recorded));
    insert_object_field(response, "history_entry_id", json_text(&outcome.entry_id));
    insert_object_field(response, "history_reason", json_text(&outcome.reason));
}

/// Takes away all records and counts from the start again.
pub fn clear_history(history: &mut HistoryState)
    ensures
        final(history).wf(),
        final(history).records@.len() == 0,
        final(history).next_entry_id == 0,
{
    history.records.clear();
    history.next_entry_id = 0;
}

/// No two records have the same identifier.
pub proof fn law_entries_distinct(history: HistoryState, i: int, j: int)
    requires
        history.wf(),
        0 <= i < j < history.records@.len(),
    ensures
        history.records@[i]@ != history.records@[j]@,
{
    reveal_strlit("h");
    let base = history.next_entry_id - history.records@.len();
    let a = (base + i) as nat;
    let b = (base + j) as nat;
    lemma_value_decimal(a);
    lemma_value_decimal(b);
    assert(history.records@[i]@ == entry_name(a));
    assert(history.records@[j]@ == entry_name(b));
    assert(entry_name(a).skip(1) =~= decimal(a));
    assert(entry_name(b).skip(1) =~= decimal(b));
}

} // verus!
