use codeloupe_mcp::history::{
    attach_history_metadata, capture_snapshot, clear_history, file_snapshot, infer_text_metadata, missing_snapshot,
    no_history, record_change, unavailable, HistoryState, Observed, SnapshotState, MAX_HISTORY_ENTRIES,
    MAX_TRACKED_SNAPSHOT_BYTES,
};
use codeloupe_mcp::json::{as_text, Json, JsonField};

#[test]
fn record_change_limits_stack() {
    let mut history = HistoryState::new();
    clear_history(&mut history);
    let before = missing_snapshot();
    let after = file_snapshot(
        b"hello".to_vec(),
        Some("UTF-8".to_string()),
        Some("lf".to_string()),
    );

    let first = record_change(&mut history, "create_file", "sample.txt", &before, &after, "create");
    assert!(first.recorded);
    assert!(first.entry_id.is_some());
}

#[test]
fn oversized_snapshot_is_skipped() {
    let mut history = HistoryState::new();
    clear_history(&mut history);
    let oversized = vec![b'x'; MAX_TRACKED_SNAPSHOT_BYTES + 1];
    let outcome = record_change(
        &mut history,
        "create_file",
        "large.txt",
        &missing_snapshot(),
        &file_snapshot(oversized, Some("UTF-8".to_string()), Some("lf".to_string())),
        "large write",
    );
    assert!(!outcome.recorded);
    assert!(outcome.reason.unwrap().contains("history snapshot limit"));
}

#[test]
fn history_keeps_the_newest_entries() {
    let mut history = HistoryState::new();
    let before = missing_snapshot();
    let mut last = None;
    for i in 0..MAX_HISTORY_ENTRIES + 5 {
        let after = file_snapshot(format!("text {i}").into_bytes(), None, None);
        last = record_change(&mut history, "edit_file", "a.txt", &before, &after, "edit").entry_id;
    }
    assert_eq!(history.records.len(), MAX_HISTORY_ENTRIES);
    assert_eq!(history.records.last(), last.as_ref());
    let mut ids = history.records.clone();
    ids.dedup();
    assert_eq!(ids.len(), MAX_HISTORY_ENTRIES);
    clear_history(&mut history);
    assert!(history.records.is_empty());
}

#[test]
fn a_history_that_cannot_be_used_records_nothing() {
    let mut history = HistoryState::new();
    let after = file_snapshot(b"x".to_vec(), None, None);
    let recorded = record_change(&mut history, "t", "p", &missing_snapshot(), &after, "s");
    let lost = unavailable(recorded);
    assert!(!lost.recorded && lost.entry_id.is_none());
    assert_eq!(lost.reason.as_deref(), Some("history state is unavailable"));
    assert_eq!(unavailable(no_history("why")).reason.as_deref(), Some("why"));
}

#[test]
fn no_history_says_why() {
    let outcome = no_history("nothing changed");
    assert!(!outcome.recorded);
    assert_eq!(outcome.entry_id, None);
    assert_eq!(outcome.reason.as_deref(), Some("nothing changed"));
}

#[test]
fn snapshots_follow_what_was_observed() {
    let missing = capture_snapshot(Observed::Missing).ok().unwrap();
    assert!(matches!(missing.state, SnapshotState::Missing));
    let directory = capture_snapshot(Observed::Directory).ok().unwrap();
    assert!(matches!(directory.state, SnapshotState::Directory));
    let file = capture_snapshot(Observed::File { len: 4, read: Ok(b"a\r\nb".to_vec()) })
        .ok()
        .unwrap();
    assert!(matches!(file.state, SnapshotState::File));
    assert_eq!(file.bytes.as_deref(), Some(&b"a\r\nb"[..]));
    assert_eq!(file.encoding_label.as_deref(), Some("UTF-8"));
    assert_eq!(file.line_ending.as_deref(), Some("crlf"));
    assert!(capture_snapshot(Observed::MetadataFailed("denied".to_string())).is_err());
}

#[test]
fn text_metadata_of_bytes() {
    let (encoding, ending) = infer_text_metadata(b"one\ntwo\n");
    assert_eq!(encoding.as_deref(), Some("UTF-8"));
    assert_eq!(ending.as_deref(), Some("lf"));
}

#[test]
fn answers_say_what_was_recorded() {
    let success = JsonField { key: "success".to_string(), value: Json::Bool(true) };
    let mut response = Json::Object(vec![success]);
    attach_history_metadata(&mut response, &no_history("no filesystem change"));
    assert!(matches!(response.get("success"), Some(Json::Bool(true))));
    assert!(matches!(response.get("history_recorded"), Some(Json::Bool(false))));
    assert!(matches!(response.get("history_entry_id"), Some(Json::Null)));
    assert_eq!(as_text(response.get("history_reason")), Some("no filesystem change"));

    let mut history = HistoryState::new();
    let before = missing_snapshot();
    let after = file_snapshot(b"x".to_vec(), None, None);
    let outcome = record_change(&mut history, "create_file", "a.txt", &before, &after, "create");
    attach_history_metadata(&mut response, &outcome);
    assert!(matches!(response.get("history_recorded"), Some(Json::Bool(true))));
    assert_eq!(as_text(response.get("history_entry_id")), outcome.entry_id.as_deref());
    assert!(matches!(response.get("history_reason"), Some(Json::Null)));
    assert!(matches!(&response, Json::Object(fields) if fields.len() == 4));
}
