use codeloupe_mcp::encoding::decode_fuzzy;
use codeloupe_mcp::history::{missing_snapshot, HistoryState, MAX_TRACKED_SNAPSHOT_BYTES};
use codeloupe_mcp::security::path_guard::{default_guard, PathGuard, Tier};
use codeloupe_mcp::tools::atomic_write::unique_temp_path;
use codeloupe_mcp::tools::create_directory::{finish_directory, plan_directory, DirectoryStep};
use codeloupe_mcp::tools::create_file::{
    error_reason as create_reason, finish_create, plan_create, CreateArgs, CreateTarget,
};
use codeloupe_mcp::tools::delete_file::{
    error_reason as delete_reason, plan_delete, DeleteStep,
};
use codeloupe_mcp::tools::edit_file::{
    check_parent, error_reason as edit_reason, finish_edit, io_error_response, plan_edit, EditArgs,
    EditTarget,
};
use codeloupe_mcp::tools::errors::{IoFault, IoKind, LOCKED_OS_ERROR};

fn create_args(content: &str, overwrite: Option<bool>) -> CreateArgs {
    CreateArgs {
        path: Some("/w/nested/note.txt".to_string()),
        content: Some(content.to_string()),
        overwrite,
        create_parents: None,
        target_encoding: None,
        target_line_ending: None,
    }
}

fn edit_args(mode: &str) -> EditArgs {
    EditArgs {
        path: Some("/w/edit.txt".to_string()),
        mode: Some(mode.to_string()),
        content: None,
        find: None,
        replace: None,
        replace_all: None,
        expected_replacements: None,
        create_if_missing: None,
        create_parents: None,
        target_encoding: None,
        target_line_ending: None,
    }
}

fn on_disk(text: &str) -> EditTarget {
    EditTarget::File { len: text.len() as u64, read: Ok(text.as_bytes().to_vec()) }
}

#[test]
fn test_create_file_create_and_overwrite_flow() {
    let mut history = HistoryState::new();
    let created = plan_create(
        &create_args("hello", None),
        Tier::Allowed,
        &None,
        CreateTarget::Missing,
        false,
    )
    .ok()
    .unwrap();
    assert!(!created.existed_before);
    assert_eq!(created.bytes, b"hello".to_vec());
    let (outcome, _message) =
        finish_create(&mut history, "/w/nested/note.txt", &created, Ok(missing_snapshot()));
    assert!(outcome.recorded);
    assert!(outcome.reason.is_none());
    let large = plan_create(
        &create_args(&"x".repeat(MAX_TRACKED_SNAPSHOT_BYTES + 1), None),
        Tier::Allowed,
        &None,
        CreateTarget::Missing,
        false,
    )
    .ok()
    .unwrap();
    let (outcome, _message) =
        finish_create(&mut history, "/w/nested/large.txt", &large, Ok(missing_snapshot()));
    assert!(!outcome.recorded && outcome.entry_id.is_none());
    assert!(outcome.reason.unwrap().contains("history snapshot limit"));

    let exists = plan_create(
        &create_args("second", None),
        Tier::Allowed,
        &None,
        CreateTarget::File,
        false,
    )
    .err()
    .unwrap();
    assert_eq!(exists.code, "already_exists");
    assert!(!create_reason(exists.code).is_empty());

    let overwritten = plan_create(
        &create_args("second", Some(true)),
        Tier::Allowed,
        &None,
        CreateTarget::File,
        false,
    )
    .ok()
    .unwrap();
    assert!(overwritten.existed_before);
    assert_eq!(overwritten.bytes, b"second".to_vec());
}

#[test]
fn creating_refuses_directories_and_missing_arguments() {
    let args = create_args("x", None);
    let error = plan_create(&args, Tier::Allowed, &None, CreateTarget::Directory, false);
    assert_eq!(error.err().unwrap().code, "path_is_directory");
    let mut no_path = create_args("x", None);
    no_path.path = None;
    assert!(plan_create(&no_path, Tier::Allowed, &None, CreateTarget::Missing, false).is_err());
    let blocked = plan_create(
        &args,
        Tier::Blocked,
        &Some("matched".to_string()),
        CreateTarget::Missing,
        false,
    );
    assert_eq!(blocked.err().unwrap().code, "path_blocked");
    let mut crlf = create_args("a\nb", None);
    crlf.target_line_ending = Some("crlf".to_string());
    let plan = plan_create(&crlf, Tier::Allowed, &None, CreateTarget::Missing, false);
    assert_eq!(decode_fuzzy(&plan.ok().unwrap().bytes).0, "a\r\nb");
}

#[test]
fn test_edit_file_find_replace_and_missing_file() {
    let mut history = HistoryState::new();
    let mut args = edit_args("find_replace");
    args.find = Some("beta".to_string());
    args.replace = Some("B".to_string());
    args.replace_all = Some(true);
    args.expected_replacements = Some(2);
    let plan = plan_edit(&args, Tier::Allowed, &None, on_disk("alpha beta beta")).ok().unwrap();
    assert_eq!(plan.replacements, 2);
    assert_eq!(plan.bytes, b"alpha B B".to_vec());
    let answer = finish_edit(&mut history, "/w/edit.txt", &plan);
    assert!(answer.changed);
    assert!(answer.history.recorded);
    assert_eq!(answer.bytes_before, 15);
    assert_eq!(answer.bytes_written, 9);

    let mut args = edit_args("find_replace");
    args.find = Some("gamma".to_string());
    args.replace = Some("X".to_string());
    let error = plan_edit(&args, Tier::Allowed, &None, on_disk("alpha B B")).err().unwrap();
    assert_eq!(error.code, "no_match");
    assert!(!edit_reason(error.code).is_empty());

    let mut args = edit_args("replace");
    args.content = Some("new".to_string());
    let error = plan_edit(&args, Tier::Allowed, &None, EditTarget::Missing).err().unwrap();
    assert_eq!(error.code, "file_not_found");
    assert!(!edit_reason(error.code).is_empty());

    args.create_if_missing = Some(true);
    let plan = plan_edit(&args, Tier::Allowed, &None, EditTarget::Missing).ok().unwrap();
    assert_eq!(plan.bytes, b"new".to_vec());
    assert!(finish_edit(&mut history, "/w/missing.txt", &plan).file_created);
}

#[test]
fn editing_adds_at_both_ends() {
    let mut args = edit_args("append");
    args.content = Some("c".to_string());
    let plan = plan_edit(&args, Tier::Allowed, &None, on_disk("ab")).ok().unwrap();
    assert_eq!(plan.content, "abc");
    let mut args = edit_args("prepend");
    args.content = Some("c".to_string());
    let plan = plan_edit(&args, Tier::Allowed, &None, on_disk("ab")).ok().unwrap();
    assert_eq!(plan.content, "cab");
}

#[test]
fn editing_keeps_the_encoding() {
    let file = |bytes: &[u8]| EditTarget::File { len: bytes.len() as u64, read: Ok(bytes.to_vec()) };
    let mut args = edit_args("append");
    args.content = Some("b".to_string());
    let plan = |args: &EditArgs, bytes: &[u8]| {
        plan_edit(args, Tier::Allowed, &None, file(bytes)).ok().unwrap()
    };
    let little = plan(&args, &[0xFF, 0xFE, 0x61, 0x00]);
    assert_eq!(little.bytes, [0xFF, 0xFE, 0x61, 0x00, 0x62, 0x00]);
    assert_eq!(little.target_encoding, "UTF-16LE");
    let big = plan(&args, &[0xFE, 0xFF, 0x00, 0x61]);
    assert_eq!(big.bytes, [0xFE, 0xFF, 0x00, 0x61, 0x00, 0x62]);
    assert_eq!(big.target_encoding, "UTF-16BE");
    let latin = plan(&args, b"\xC7a");
    assert_eq!(latin.bytes, b"\xC7ab");
    assert_eq!(latin.target_encoding, "WINDOWS-1252");
    args.target_encoding = Some("utf-8".to_string());
    assert_eq!(plan(&args, &[0xFF, 0xFE, 0x61, 0x00]).bytes, b"ab");
    args.target_encoding = Some("UTF-16LE".to_string());
    let error = plan_edit(&args, Tier::Allowed, &None, file(b"a")).err().unwrap();
    assert_eq!(error.code, "invalid_encoding");
}

#[test]
fn editing_has_an_error_for_each_mistake() {
    let code = |args: &EditArgs, target: EditTarget| {
        plan_edit(args, Tier::Allowed, &None, target).err().unwrap().code
    };
    assert_eq!(code(&edit_args("shuffle"), on_disk("a")), "invalid_mode");
    assert_eq!(code(&edit_args("append"), on_disk("a")), "missing_content");
    assert_eq!(code(&edit_args("find_replace"), on_disk("a")), "missing_find");
    assert_eq!(code(&edit_args("append"), EditTarget::Directory), "path_is_directory");
    let large = EditTarget::File { len: 11 * 1024 * 1024, read: Ok(Vec::new()) };
    let mut append = edit_args("append");
    append.content = Some("x".to_string());
    assert_eq!(code(&append, large), "file_too_large");
    let mut wrong = edit_args("find_replace");
    wrong.find = Some("a".to_string());
    wrong.replace = Some("b".to_string());
    wrong.replace_all = Some(true);
    wrong.expected_replacements = Some(3);
    assert_eq!(code(&wrong, on_disk("a a")), "replacement_mismatch");
    let mismatch = plan_edit(&wrong, Tier::Allowed, &None, on_disk("a a")).err().unwrap();
    assert_eq!(mismatch.message, "expected 3 replacements but got 2");
    assert_eq!(mismatch.counts, Some((3, 2)));
    append.target_line_ending = Some("cr".to_string());
    assert_eq!(code(&append, on_disk("a")), "invalid_line_ending");
    let mut narrow = edit_args("append");
    narrow.content = Some("漢".to_string());
    narrow.target_encoding = Some("windows-1252".to_string());
    assert_eq!(code(&narrow, on_disk("a")), "encoding_error");
    assert_eq!(check_parent(true, Some(false)).err().unwrap().code, "parent_missing");
    assert!(check_parent(false, Some(false)).is_ok());
}

#[test]
fn io_errors_are_told_by_their_kind() {
    let fault = |kind: IoKind, raw: Option<i32>| IoFault {
        kind,
        raw_os_error: raw,
        text: "oops".to_string(),
    };
    let denied = io_error_response("write", &fault(IoKind::PermissionDenied, None));
    assert_eq!(denied.code, "permission_denied");
    assert_eq!(denied.operation, Some("write"));
    let locked = io_error_response("write", &fault(IoKind::Other, Some(LOCKED_OS_ERROR)));
    assert_ne!(locked.code, denied.code);
}

#[test]
fn test_delete_file_success_missing_and_directory_case() {
    let path = Some("/w/to-delete.txt".to_string());
    let step = plan_delete(&path, Tier::Allowed, &None, true, false, None);
    assert!(matches!(step, Ok(DeleteStep::Delete)));

    let missing = plan_delete(&path, Tier::Allowed, &None, false, false, None).err().unwrap();
    assert_eq!(missing.code, "file_not_found");
    assert!(!delete_reason(missing.code).is_empty());

    let missing_ok = plan_delete(&path, Tier::Allowed, &None, false, false, Some(true));
    assert!(matches!(missing_ok, Ok(DeleteStep::NothingToDelete)));

    let folder = plan_delete(&path, Tier::Allowed, &None, true, true, None).err().unwrap();
    assert_eq!(folder.code, "path_is_directory");
    assert!(!delete_reason(folder.code).is_empty());
}

#[test]
fn test_create_directory_supports_nested_creation_and_existing_behavior() {
    let mut history = HistoryState::new();
    let path = Some("/w/nested/leaf".to_string());
    let plan = |exists: bool, allow: Option<bool>| {
        plan_directory(&path, Tier::Allowed, &None, exists, false, !exists, None, allow)
    };
    let step = plan(false, None).ok().unwrap();
    assert!(matches!(step, DirectoryStep::CreateWithParents));
    let (outcome, _message) = finish_directory(&mut history, "/w/nested/leaf", step);
    assert!(outcome.recorded);
    assert!(matches!(plan(true, None), Ok(DirectoryStep::AlreadyThere)));
    assert_eq!(plan(true, Some(false)).err().unwrap().code, "already_exists");
}

#[test]
fn the_guard_blocks_what_it_was_given() {
    let guard = PathGuard::new(vec!["/etc/**".to_string()]);
    let (tier, reason) = guard.check_path("/etc/passwd");
    assert!(matches!(tier, Tier::Blocked));
    assert!(reason.is_some());
    let (tier, reason) = guard.check_path("/home/me/a.rs");
    assert!(matches!(tier, Tier::Allowed));
    assert_eq!(reason, None);
    let (tier, _) = default_guard().check_path("/home/me/a.rs");
    assert!(matches!(tier, Tier::Allowed));
}

#[test]
fn a_file_is_written_beside_its_place_first() {
    assert_eq!(unique_temp_path("/w/a.txt", 12, 345), "/w/.a.txt.12.345.tmp");
    assert_eq!(unique_temp_path("a.txt", 1, 2), "./.a.txt.1.2.tmp");
}
