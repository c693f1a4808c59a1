//! Editing one text file: replacing it, adding to it, or replacing text in it.

use vstd::prelude::*;
use vstd::utf8::encode_utf8;

use crate::encoding::{
    decode_fuzzy, decoded, encode_in_windows_1252, encode_utf16be_with_bom, utf16be_bytes,
    utf16le_bytes, windows_1252_bytes,
};
use crate::history::{
    file_snapshot, missing_snapshot, no_history, record_change, too_large_reason, HistoryState,
    RecordOutcome,
};
use crate::lines::replaces;
use crate::line_endings::{ending_of, line_ending_metadata, to_crlf, to_lf, with_crlf, with_lf};
use crate::numbers::{decimal, u64_decimal, usize_decimal};
use crate::security::path_guard::Tier;
use crate::text::{
    ascii_lower, ascii_upper, chars_of, contains, count_matches, find, lemma_contains,
    occurs_at, opt_view, push_all, replace_all, replace_counted, replace_first, slice_of, str_ascii_lower,
    str_ascii_upper, str_eq, str_eq_ignore_case, str_trim, string_of, trim,
};
use crate::tools::convert_file_format::encode_utf16le_with_bom;
use crate::tools::errors::{
    count_error, fault_error, io_error, plain_error, tool_error, ErrorView, IoFault, IoKind, ToolError,
    LOCKED_OS_ERROR,
};

verus! {

/// The largest file that is edited, in bytes.
pub const MAX_EDIT_FILE_BYTES: u64 = 10 * 1024 * 1024;

/// What an error code of this tool means.
pub open spec fn reason_of(code: Seq<char>) -> Seq<char> {
    if code == "invalid_path"@ {
        "Path argument is missing or invalid."@
    } else if code == "path_blocked"@ {
        "Path is blocked by server policy."@
    } else if code == "invalid_mode"@ {
        "Mode is not one of supported values."@
    } else if code == "path_is_directory"@ {
        "Target path points to a directory, not a file."@
    } else if code == "file_too_large"@ {
        "File exceeds allowed size for this operation."@
    } else if code == "file_not_found"@ {
        "Target file does not exist."@
    } else if code == "missing_content"@ {
        "Required content argument is missing for selected mode."@
    } else if code == "missing_find"@ {
        "Required find argument is missing or empty."@
    } else if code == "no_match"@ {
        "Find text was not found in current file content."@
    } else if code == "replacement_mismatch"@ {
        "Actual replacements do not match expected count."@
    } else if code == "invalid_line_ending"@ {
        "Requested line ending mode is invalid."@
    } else if code == "invalid_encoding"@ {
        "Requested encoding is not supported."@
    } else if code == "encoding_error"@ {
        "Content cannot be encoded with requested encoding."@
    } else if code == "parent_missing"@ {
        "Parent directory does not exist."@
    } else if code == "permission_denied"@ {
        "Operation was denied by filesystem permissions."@
    } else if code == "not_found"@ {
        "Target path was not found."@
    } else if code == "invalid_input"@ {
        "Input is invalid for the requested operation."@
    } else if code == "file_locked"@ {
        "File is locked by another process."@
    } else if code == "io_error"@ {
        "Filesystem I/O error occurred."@
    } else {
        "Unknown error."@
    }
}

/// What an error code of this tool means.
pub fn error_reason(error_code: &str) -> (r: &'static str)
    ensures
        r@ == reason_of(error_code@),
{
    if str_eq(error_code, "invalid_path") {
        "Path argument is missing or invalid."
    } else if str_eq(error_code, "path_blocked") {
        "Path is blocked by server policy."
    } else if str_eq(error_code, "invalid_mode") {
        "Mode is not one of supported values."
    } else if str_eq(error_code, "path_is_directory") {
        "Target path points to a directory, not a file."
    } else if str_eq(error_code, "file_too_large") {
        "File exceeds allowed size for this operation."
    } else if str_eq(error_code, "file_not_found") {
        "Target file does not exist."
    } else if str_eq(error_code, "missing_content") {
        "Required content argument is missing for selected mode."
    } else if str_eq(error_code, "missing_find") {
        "Required find argument is missing or empty."
    } else if str_eq(error_code, "no_match") {
        "Find text was not found in current file content."
    } else if str_eq(error_code, "replacement_mismatch") {
        "Actual replacements do not match expected count."
    } else if str_eq(error_code, "invalid_line_ending") {
        "Requested line ending mode is invalid."
    } else if str_eq(error_code, "invalid_encoding") {
        "Requested encoding is not supported."
    } else if str_eq(error_code, "encoding_error") {
        "Content cannot be encoded with requested encoding."
    } else if str_eq(error_code, "parent_missing") {
        "Parent directory does not exist."
    } else if str_eq(error_code, "permission_denied") {
        "Operation was denied by filesystem permissions."
    } else if str_eq(error_code, "not_found") {
        "Target path was not found."
    } else if str_eq(error_code, "invalid_input") {
        "Input is invalid for the requested operation."
    } else if str_eq(error_code, "file_locked") {
        "File is locked by another process."
    } else if str_eq(error_code, "io_error") {
        "Filesystem I/O error occurred."
    } else {
        "Unknown error."
    }
}

/// The error code for a failure of the file system.
pub open spec fn fault_code(fault: IoFault) -> Seq<char> {
    if fault.raw_os_error == Some(LOCKED_OS_ERROR) {
        "file_locked"@
    } else {
        match fault.kind {
            IoKind::PermissionDenied => "permission_denied"@,
            IoKind::NotFound => "not_found"@,
            IoKind::AlreadyExists => "already_exists"@,
            IoKind::InvalidInput => "invalid_input"@,
            IoKind::Other => "io_error"@,
        }
    }
}

/// The error code for a failure of the file system.
pub fn io_error_code(fault: &IoFault) -> (r: &'static str)
    ensures
        r@ == fault_code(*fault),
{
    if fault.raw_os_error == Some(LOCKED_OS_ERROR) {
        return "file_locked";
    }
    match fault.kind {
        IoKind::PermissionDenied => "permission_denied",
        IoKind::NotFound => "not_found",
        IoKind::AlreadyExists => "already_exists",
        IoKind::InvalidInput => "invalid_input",
        IoKind::Other => "io_error",
    }
}

/// The error for an operation in which the file system failed.
pub fn io_error_response(operation: &'static str, fault: &IoFault) -> (r: ToolError)
    ensures
        r@ == fault_error(fault_code(*fault), operation@, fault.text@),
{
    io_error(io_error_code(fault), operation, fault)
}

/// `content` with the line endings asked for, where those are known.
pub open spec fn line_ended(content: Seq<char>, ending: Seq<char>) -> Option<Seq<char>> {
    if ending == "preserve"@ {
        Some(content)
    } else if ending == "lf"@ {
        Some(with_lf(content))
    } else if ending == "crlf"@ {
        Some(with_crlf(content))
    } else {
        None
    }
}

/// `content` with the line endings asked for.
pub fn normalize_line_endings(content: &str, target_line_ending: &str) -> (r: Result<
    String,
    &'static str,
>)
    ensures
        line_ended(content@, target_line_ending@) == (match r {
            Ok(text) => Some(text@),
            Err(_) => None,
        }),
        r matches Err(e) ==> e@ == "target_line_ending must be preserve, lf, or crlf"@,
        r is Ok == (target_line_ending@ == "preserve"@ || target_line_ending@ == "lf"@
            || target_line_ending@ == "crlf"@),
        target_line_ending@ == "preserve"@ ==> (r matches Ok(text) && text@ == content@),
        target_line_ending@ == "lf"@ ==> (r matches Ok(text) && exists|n: nat|
            replaces(content@, seq!['\r', '\n'], seq!['\n'], text@, n)),
        target_line_ending@ == "crlf"@ ==> (r matches Ok(text) && forall|i: int|
            0 <= i < text@.len() && #[trigger] text@[i] == '\n' ==> i > 0 && text@[i - 1] == '\r'),
{
    proof {
        reveal_strlit("preserve");
        reveal_strlit("lf");
        reveal_strlit("crlf");
        assert("preserve"@.len() == 8 && "lf"@.len() == 2 && "crlf"@.len() == 4);
    }
    if str_eq(target_line_ending, "preserve") {
        Ok(content.to_owned())
    } else if str_eq(target_line_ending, "lf") {
        Ok(to_lf(content))
    } else if str_eq(target_line_ending, "crlf") {
        Ok(to_crlf(content))
    } else {
        Err("target_line_ending must be preserve, lf, or crlf")
    }
}

/// The bytes of `content` in the encoding of that name, where it is known and
/// holds every character of `content`: UTF-16 stands behind its mark.
pub open spec fn encoded(content: Seq<char>, label: Seq<char>) -> Option<Seq<u8>> {
    if label == "UTF-8"@ {
        Some(encode_utf8(content))
    } else if label == "UTF-16LE"@ {
        Some(seq![0xffu8, 0xfe] + utf16le_bytes(content))
    } else if label == "UTF-16BE"@ {
        Some(seq![0xfeu8, 0xff] + utf16be_bytes(content))
    } else if label == "WINDOWS-1252"@ {
        let (bytes, unmappable) = windows_1252_bytes(content);
        if unmappable {
            None
        } else {
            Some(bytes)
        }
    } else {
        None
    }
}

/// Why `content` has no bytes in the encoding of that name.
pub open spec fn encoding_words(label: Seq<char>) -> Seq<char> {
    if label == "WINDOWS-1252"@ {
        "content cannot be losslessly converted to Windows-1252"@
    } else {
        "target_encoding must be UTF-8 or Windows-1252"@
    }
}

/// The bytes of `content` in the encoding of that name.
pub fn encode_content(content: &str, target_encoding: &str) -> (r: Result<Vec<u8>, &'static str>)
    ensures
        encoded(content@, target_encoding@) == (match r {
            Ok(bytes) => Some(bytes@),
            Err(_) => None,
        }),
        r matches Err(e) ==> e@ == encoding_words(target_encoding@),
{
    if str_eq(target_encoding, "UTF-8") {
        Ok(vstd::slice::slice_to_vec(content.as_bytes()))
    } else if str_eq(target_encoding, "UTF-16LE") {
        Ok(encode_utf16le_with_bom(content))
    } else if str_eq(target_encoding, "UTF-16BE") {
        Ok(encode_utf16be_with_bom(content))
    } else if str_eq(target_encoding, "WINDOWS-1252") {
        let (bytes, unmappable) = encode_in_windows_1252(content);
        if unmappable {
            return Err("content cannot be losslessly converted to Windows-1252");
        }
        Ok(bytes)
    } else {
        Err("target_encoding must be UTF-8 or Windows-1252")
    }
}

/// The encoding that a file is written in again which was read by the one of
/// that name: the same.
pub open spec fn kept_label(raw: Seq<char>) -> Seq<char> {
    if ascii_lower(raw) == ascii_lower("windows-1252"@) {
        "WINDOWS-1252"@
    } else if ascii_lower(raw) == ascii_lower("utf-16le"@) {
        "UTF-16LE"@
    } else if ascii_lower(raw) == ascii_lower("utf-16be"@) {
        "UTF-16BE"@
    } else {
        "UTF-8"@
    }
}

/// The encoding that a file is written in again.
pub fn normalize_encoding_label(raw: &str) -> (r: &'static str)
    ensures
        r@ == kept_label(raw@),
{
    if str_eq_ignore_case(raw, "windows-1252") {
        "WINDOWS-1252"
    } else if str_eq_ignore_case(raw, "utf-16le") {
        "UTF-16LE"
    } else if str_eq_ignore_case(raw, "utf-16be") {
        "UTF-16BE"
    } else {
        "UTF-8"
    }
}

/// The arguments of the tool. `content` is the empty text where it is given
/// but is no text.
pub struct EditArgs {
    pub path: Option<String>,
    pub mode: Option<String>,
    pub content: Option<String>,
    pub find: Option<String>,
    pub replace: Option<String>,
    pub replace_all: Option<bool>,
    pub expected_replacements: Option<usize>,
    pub create_if_missing: Option<bool>,
    pub create_parents: Option<bool>,
    pub target_encoding: Option<String>,
    pub target_line_ending: Option<String>,
}

/// The text of an argument, or the one that stands for it where it is missing.
pub open spec fn arg_or(arg: Option<String>, default: Seq<char>) -> Seq<char> {
    match arg {
        Some(s) => s@,
        None => default,
    }
}

/// The text of an argument, or the one that stands for it where it is missing.
pub fn text_or(arg: &Option<String>, default: &str) -> (r: String)
    ensures
        r@ == arg_or(*arg, default@),
{
    match arg {
        Some(s) => s.clone(),
        None => default.to_owned(),
    }
}

/// What the path holds: nothing, a directory, or a file with its length and
/// the outcome of reading it; or the error of asking for its length.
pub enum EditTarget {
    Missing,
    Directory,
    MetadataFailed(IoFault),
    File { len: u64, read: Result<Vec<u8>, IoFault> },
}

/// A known way to edit.
pub open spec fn is_mode(mode: Seq<char>) -> bool {
    mode == "replace"@ || mode == "append"@ || mode == "prepend"@ || mode == "find_replace"@
}

/// The way to edit that is asked for.
pub open spec fn edit_mode(args: EditArgs) -> Seq<char> {
    ascii_lower(arg_or(args.mode, "replace"@))
}

/// What the file is to hold, and how many replacements lead to it; or the code
/// and words of the error.
pub open spec fn edited(args: EditArgs, content: Seq<char>) -> Result<(Seq<char>, nat), ErrorView> {
    let mode = edit_mode(args);
    if mode == "find_replace"@ {
        let pat = arg_or(args.find, ""@);
        let to = arg_or(args.replace, ""@);
        if pat.len() == 0 {
            Err(
                plain_error(
                    "missing_find"@,
                    "find is required and cannot be empty when mode=find_replace"@,
                ),
            )
        } else if !contains(content, pat) {
            Err(plain_error("no_match"@, "find text was not found in the file"@))
        } else if args.replace_all == Some(true) {
            Ok((replace_all(content, pat, to), count_matches(content, pat)))
        } else {
            Ok((replace_first(content, pat, to), 1))
        }
    } else if args.content is None {
        Err(plain_error("missing_content"@, "content is required when mode="@ + mode))
    } else if mode == "replace"@ {
        Ok((args.content->0@, 0))
    } else if mode == "append"@ {
        Ok((content + args.content->0@, 0))
    } else {
        Ok((args.content->0@ + content, 0))
    }
}

/// Whether text that holds a pattern holds it at least once when counted.
proof fn lemma_count_positive(s: Seq<char>, pat: Seq<char>)
    requires
        pat.len() > 0,
    ensures
        (count_matches(s, pat) > 0) == contains(s, pat),
{
    lemma_contains(s, pat);
    crate::text::lemma_find_from(s, pat, 0);
}

/// The text `new_text` is what the edit makes of `old_text`. Replacing gives the content
/// that was given; appending and prepending put it behind or before all that was there;
/// and replacing a text that is looked for puts the other text in its place, where it
/// stands first or everywhere, and leaves all else as it is.
pub open spec fn is_edit(
    args: EditArgs,
    mode: Seq<char>,
    old_text: Seq<char>,
    new_text: Seq<char>,
    n: nat,
) -> bool {
    let pat = arg_or(args.find, Seq::empty());
    let to = arg_or(args.replace, Seq::empty());
    &&& mode == "replace"@ ==> args.content is Some && new_text == args.content->0@ && n == 0
    &&& mode == "append"@ ==> args.content is Some && new_text == old_text + args.content->0@ && n
        == 0
    &&& mode == "prepend"@ ==> args.content is Some && new_text == args.content->0@ + old_text && n
        == 0
    &&& mode == "find_replace"@ ==> pat.len() > 0 && n > 0
    &&& mode == "find_replace"@ && args.replace_all == Some(true) ==> replaces(
        old_text,
        pat,
        to,
        new_text,
        n,
    )
    &&& mode == "find_replace"@ && args.replace_all != Some(true) ==> n == 1 && exists|i: int| #[trigger]
        occurs_at(old_text, pat, i) && (forall|j: int|
            0 <= j < i ==> !#[trigger] occurs_at(old_text, pat, j)) && new_text == old_text.take(i)
            + to + old_text.skip(i + pat.len())
}

/// The names of the ways to edit differ.
proof fn lemma_modes_differ()
    ensures
        "replace"@ != "append"@,
        "replace"@ != "prepend"@,
        "replace"@ != "find_replace"@,
        "append"@ != "prepend"@,
        "append"@ != "find_replace"@,
        "prepend"@ != "find_replace"@,
        ""@ == Seq::<char>::empty(),
{
    reveal_strlit("replace");
    reveal_strlit("append");
    reveal_strlit("prepend");
    reveal_strlit("find_replace");
    reveal_strlit("");
    assert("replace"@.len() == 7 && "append"@.len() == 6 && "prepend"@.len() == 7);
    assert("find_replace"@.len() == 12);
    assert("replace"@[0] == 'r' && "prepend"@[0] == 'p');
    assert(""@ =~= Seq::<char>::empty());
}

/// What an edit makes of a text is what was asked for, and an edit that is well formed
/// and finds what it looks for is made.
pub proof fn law_edited(args: EditArgs, content: Seq<char>)
    requires
        is_mode(edit_mode(args)),
    ensures
        edited(args, content) matches Ok((text, n)) ==> is_edit(
            args,
            edit_mode(args),
            content,
            text,
            n,
        ),
        edit_mode(args) != "find_replace"@ ==> edited(args, content) is Ok == args.content is Some,
        edit_mode(args) == "find_replace"@ ==> edited(args, content) is Ok == (arg_or(
            args.find,
            Seq::empty(),
        ).len() > 0 && contains(content, arg_or(args.find, Seq::empty()))),
{
    lemma_modes_differ();
    let pat = arg_or(args.find, ""@);
    let to = arg_or(args.replace, ""@);
    if edit_mode(args) == "find_replace"@ && pat.len() > 0 && contains(content, pat) {
        lemma_count_positive(content, pat);
        lemma_contains(content, pat);
        crate::text::lemma_find_from(content, pat, 0);
        crate::lines::law_replaced(content, pat, to);
        let i = crate::text::find_from(content, pat, 0)->0;
        assert(occurs_at(content, pat, i));
    }
}

/// What the file is to hold, and how many replacements lead to it.
pub fn edit_content(args: &EditArgs, mode: &str, content: &str) -> (r: Result<
    (String, usize),
    ToolError,
>)
    requires
        mode@ == edit_mode(*args),
        is_mode(mode@),
    ensures
        edited(*args, content@) == (match r {
            Ok((text, n)) => Ok((text@, n as nat)),
            Err(e) => Err(e@),
        }),
        r matches Ok((text, n)) ==> is_edit(*args, mode@, content@, text@, n as nat),
{
    proof {
        law_edited(*args, content@);
    }
    if str_eq(mode, "find_replace") {
        let pat = text_or(&args.find, "");
        let to = text_or(&args.replace, "");
        proof {
            reveal_strlit("");
        }
        if pat.as_str().is_empty() {
            return Err(
                tool_error(
                    "missing_find",
                    "find is required and cannot be empty when mode=find_replace",
                ),
            );
        }
        let all = match args.replace_all {
            Some(b) => b,
            None => false,
        };
        let s = chars_of(content);
        let p = chars_of(pat.as_str());
        let t = chars_of(to.as_str());
        proof {
            lemma_count_positive(content@, pat@);
            lemma_contains(content@, pat@);
        }
        if all {
            let (out, count) = replace_counted(s.as_slice(), p.as_slice(), t.as_slice());
            if count == 0 {
                return Err(tool_error("no_match", "find text was not found in the file"));
            }
            return Ok((string_of(out.as_slice()), count));
        }
        match find(s.as_slice(), p.as_slice(), 0) {
            None => Err(tool_error("no_match", "find text was not found in the file")),
            Some(i) => {
                let mut out = slice_of(s.as_slice(), 0, i);
                let total: usize = s.len();
                assert(i + p@.len() <= total);
                let rest = slice_of(s.as_slice(), i + p.len(), total);
                push_all(&mut out, t.as_slice());
                push_all(&mut out, rest.as_slice());
                assert(out@ =~= replace_first(content@, pat@, to@));
                Ok((string_of(out.as_slice()), 1))
            },
        }
    } else {
        match &args.content {
            None => {
                let mut message = "content is required when mode=".to_owned();
                message.append(mode);
                Err(tool_error("missing_content", message.as_str()))
            },
            Some(text) => {
                if str_eq(mode, "replace") {
                    Ok((text.clone(), 0))
                } else if str_eq(mode, "append") {
                    let mut out = content.to_owned();
                    out.append(text.as_str());
                    Ok((out, 0))
                } else {
                    let mut out = text.clone();
                    out.append(content);
                    Ok((out, 0))
                }
            },
        }
    }
}

/// The line ending that is asked for.
pub open spec fn edit_ending(args: EditArgs) -> Seq<char> {
    ascii_lower(arg_or(args.target_line_ending, "preserve"@))
}

/// The encoding that the file is written in: the one asked for, where that is
/// known, else the one it was read by, else UTF-8.
pub open spec fn edit_encoding(args: EditArgs, previous: Option<Seq<char>>) -> Option<Seq<char>> {
    match args.target_encoding {
        Some(raw) => {
            let label = ascii_upper(raw@);
            if label == "UTF-8"@ || label == "WINDOWS-1252"@ {
                Some(label)
            } else {
                None
            }
        },
        None => match previous {
            Some(raw) => Some(kept_label(raw)),
            None => Some("UTF-8"@),
        },
    }
}

/// Why the tool stops before it looks at the content: the path is missing or
/// blocked, the way to edit is unknown, or the target cannot be edited.
pub open spec fn edit_gate(
    args: EditArgs,
    blocked: Option<Option<Seq<char>>>,
    target: EditTarget,
) -> Option<ErrorView> {
    if trim(arg_or(args.path, ""@)).len() == 0 {
        Some(plain_error("invalid_path"@, "path is required"@))
    } else if blocked is Some {
        Some(
            plain_error(
                "path_blocked"@,
                match blocked->0 {
                    Some(reason) => reason,
                    None => "path is blocked by server policy"@,
                },
            ),
        )
    } else if !is_mode(edit_mode(args)) {
        Some(
            plain_error(
                "invalid_mode"@,
                "mode must be one of: replace, append, prepend, find_replace"@,
            ),
        )
    } else {
        match target {
            EditTarget::Missing => if args.create_if_missing == Some(true) {
                None
            } else {
                Some(
                    plain_error(
                        "file_not_found"@,
                        "file does not exist (set create_if_missing=true to create it)"@,
                    ),
                )
            },
            EditTarget::Directory => Some(
                plain_error("path_is_directory"@, "target path points to a directory"@),
            ),
            EditTarget::MetadataFailed(fault) => Some(
                fault_error(fault_code(fault), "read metadata"@, fault.text@),
            ),
            EditTarget::File { len, read } => if len > MAX_EDIT_FILE_BYTES {
                Some(
                    plain_error(
                        "file_too_large"@,
                        "file is too large for edit_file ("@ + decimal(len as nat) + " bytes > "@
                            + decimal(MAX_EDIT_FILE_BYTES as nat) + " bytes)"@,
                    ),
                )
            } else {
                match read {
                    Err(fault) => Some(fault_error(fault_code(fault), "read file"@, fault.text@)),
                    Ok(_) => None,
                }
            },
        }
    }
}

/// The bytes that the target holds before the edit.
pub open spec fn bytes_before(target: EditTarget) -> Option<Seq<u8>> {
    match target {
        EditTarget::File { len: _, read: Ok(bytes) } => Some(bytes@),
        _ => None,
    }
}

/// The text that the target holds before the edit; none where there is no file.
pub open spec fn text_before(target: EditTarget) -> Seq<char> {
    match target {
        EditTarget::File { len: _, read: Ok(bytes) } => decoded(bytes@).0,
        _ => Seq::empty(),
    }
}

/// What is to be written.
pub struct Planned {
    pub content: Seq<char>,
    pub bytes: Seq<u8>,
    pub replacements: nat,
    pub encoding: Seq<char>,
    pub ending: Seq<char>,
}

/// What is to be written, or why nothing is.
pub open spec fn planned(
    args: EditArgs,
    blocked: Option<Option<Seq<char>>>,
    target: EditTarget,
) -> Result<Planned, ErrorView> {
    match edit_gate(args, blocked, target) {
        Some(e) => Err(e),
        None => {
            let before = bytes_before(target);
            let content = match before {
                Some(bytes) => decoded(bytes).0,
                None => Seq::empty(),
            };
            let previous = match before {
                Some(bytes) => Some(decoded(bytes).1),
                None => None,
            };
            match edited(args, content) {
                Err(e) => Err(e),
                Ok((text, n)) => planned_text(args, previous, text, n),
            }
        },
    }
}

/// What is to be written of `text`, which `n` replacements led to.
pub open spec fn planned_text(
    args: EditArgs,
    previous: Option<Seq<char>>,
    text: Seq<char>,
    n: nat,
) -> Result<Planned, ErrorView> {
    let ending = edit_ending(args);
    if args.expected_replacements is Some && args.expected_replacements->0 != n {
        Err(
            count_error(
                "replacement_mismatch"@,
                "expected "@ + decimal(args.expected_replacements->0 as nat)
                    + " replacements but got "@ + decimal(n),
                args.expected_replacements->0 as nat,
                n,
            ),
        )
    } else {
        match line_ended(text, ending) {
            None => Err(
                plain_error(
                    "invalid_line_ending"@,
                    "target_line_ending must be preserve, lf, or crlf"@,
                ),
            ),
            Some(content) => match edit_encoding(args, previous) {
                None => Err(
                    plain_error(
                        "invalid_encoding"@,
                        "target_encoding must be UTF-8 or Windows-1252"@,
                    ),
                ),
                Some(encoding) => match encoded(content, encoding) {
                    None => Err(plain_error("encoding_error"@, encoding_words(encoding))),
                    Some(bytes) => Ok(
                        Planned { content, bytes, replacements: n, encoding, ending },
                    ),
                },
            },
        }
    }
}

/// An edit that is ready to be written: the content before and after it, and
/// what the answer reports.
pub struct EditPlan {
    pub mode: String,
    pub existed_before: bool,
    pub changed: bool,
    pub old_bytes: Vec<u8>,
    pub old_line_ending: Option<String>,
    pub previous_encoding: Option<&'static str>,
    pub content: String,
    pub bytes: Vec<u8>,
    pub replacements: usize,
    pub target_encoding: String,
    pub line_ending: String,
}

impl EditPlan {
    /// The plan is to write what `plan` says over what `target` holds.
    pub open spec fn carries(&self, args: EditArgs, target: EditTarget, plan: Planned) -> bool {
        let before = bytes_before(target);
        &&& self.mode@ == edit_mode(args)
        &&& self.existed_before == (before is Some)
        &&& self.changed == (before != Some(plan.bytes))
        &&& self.old_bytes@ == (match before {
            Some(bytes) => bytes,
            None => Seq::empty(),
        })
        &&& opt_view(self.old_line_ending) == (match before {
            Some(bytes) => ending_of(decoded(bytes).0),
            None => ending_of(Seq::empty()),
        })
        &&& (match self.previous_encoding {
            Some(s) => Some(s@),
            None => None,
        }) == (match before {
            Some(bytes) => Some(decoded(bytes).1),
            None => None,
        })
        &&& self.content@ == plan.content
        &&& self.bytes@ == plan.bytes
        &&& self.replacements == plan.replacements
        &&& self.target_encoding@ == plan.encoding
        &&& self.line_ending@ == plan.ending
    }
}

/// Whether two byte strings are equal.
pub fn same_bytes(a: &[u8], b: &[u8]) -> (r: bool)
    ensures
        r == (a@ == b@),
{
    if a.len() != b.len() {
        return false;
    }
    for i in 0..a.len()
        invariant
            a@.len() == b@.len(),
            forall|j: int| 0 <= j < i ==> a@[j] == b@[j],
    {
        if a[i] != b[i] {
            return false;
        }
    }
    assert(a@ =~= b@);
    true
}

/// Why the tool stops before it looks at the content.
fn check_edit(
    args: &EditArgs,
    tier: Tier,
    guard_reason: &Option<String>,
    target: &EditTarget,
    mode: &str,
) -> (r: Result<(), ToolError>)
    requires
        mode@ == edit_mode(*args),
    ensures
        edit_gate(*args, blocked_view(tier, *guard_reason), *target) == (match r {
            Ok(_) => None,
            Err(e) => Some(e@),
        }),
{
    let path = text_or(&args.path, "");
    let trimmed = str_trim(path.as_str());
    if trimmed.as_str().is_empty() {
        return Err(tool_error("invalid_path", "path is required"));
    }
    match tier {
        Tier::Blocked => {
            let reason = text_or(guard_reason, "path is blocked by server policy");
            return Err(tool_error("path_blocked", reason.as_str()));
        },
        Tier::Allowed => {},
    }
    if !(str_eq(mode, "replace") || str_eq(mode, "append") || str_eq(mode, "prepend") || str_eq(
        mode,
        "find_replace",
    )) {
        return Err(
            tool_error(
                "invalid_mode",
                "mode must be one of: replace, append, prepend, find_replace",
            ),
        );
    }
    match target {
        EditTarget::Missing => {
            let create: bool = match args.create_if_missing {
                Some(b) => b,
                None => false,
            };
            if !create {
                return Err(
                    tool_error(
                        "file_not_found",
                        "file does not exist (set create_if_missing=true to create it)",
                    ),
                );
            }
            Ok(())
        },
        EditTarget::Directory => Err(
            tool_error("path_is_directory", "target path points to a directory"),
        ),
        EditTarget::MetadataFailed(fault) => Err(io_error_response("read metadata", fault)),
        EditTarget::File { len, read } => {
            if *len > MAX_EDIT_FILE_BYTES {
                let mut message = "file is too large for edit_file (".to_owned();
                message.append(u64_decimal(*len).as_str());
                message.append(" bytes > ");
                message.append(u64_decimal(MAX_EDIT_FILE_BYTES).as_str());
                message.append(" bytes)");
                return Err(tool_error("file_too_large", message.as_str()));
            }
            match read {
                Err(fault) => Err(io_error_response("read file", fault)),
                Ok(_) => Ok(()),
            }
        },
    }
}

/// That the guard blocked a path, and why.
pub open spec fn blocked_view(tier: Tier, reason: Option<String>) -> Option<Option<Seq<char>>> {
    match tier {
        Tier::Blocked => Some(opt_view(reason)),
        Tier::Allowed => None,
    }
}

/// What is to be written of `text`, which `replacements` led to.
fn plan_text(
    args: &EditArgs,
    previous: Option<&'static str>,
    text: &str,
    replacements: usize,
) -> (r: Result<(String, Vec<u8>, String, String), ToolError>)
    ensures
        planned_text(
            *args,
            match previous {
                Some(s) => Some(s@),
                None => None,
            },
            text@,
            replacements as nat,
        ) == (match r {
            Ok((content, bytes, encoding, ending)) => Ok(
                Planned {
                    content: content@,
                    bytes: bytes@,
                    replacements: replacements as nat,
                    encoding: encoding@,
                    ending: ending@,
                },
            ),
            Err(e) => Err(e@),
        }),
{
    if let Some(expected) = args.expected_replacements {
        if expected != replacements {
            let mut message = "expected ".to_owned();
            message.append(usize_decimal(expected).as_str());
            message.append(" replacements but got ");
            message.append(usize_decimal(replacements).as_str());
            return Err(
                ToolError {
                    code: "replacement_mismatch",
                    message,
                    operation: None,
                    counts: Some((expected, replacements)),
                },
            );
        }
    }
    let asked_ending = text_or(&args.target_line_ending, "preserve");
    let ending = str_ascii_lower(asked_ending.as_str());
    let content = match normalize_line_endings(text, ending.as_str()) {
        Ok(content) => content,
        Err(words) => {
            return Err(tool_error("invalid_line_ending", words));
        },
    };
    let encoding: String = match &args.target_encoding {
        Some(raw) => {
            let label = str_ascii_upper(raw.as_str());
            if !(str_eq(label.as_str(), "UTF-8") || str_eq(label.as_str(), "WINDOWS-1252")) {
                return Err(
                    tool_error("invalid_encoding", "target_encoding must be UTF-8 or Windows-1252"),
                );
            }
            label
        },
        None => match previous {
            Some(raw) => normalize_encoding_label(raw).to_owned(),
            None => "UTF-8".to_owned(),
        },
    };
    match encode_content(content.as_str(), encoding.as_str()) {
        Ok(bytes) => Ok((content, bytes, encoding, ending)),
        Err(words) => Err(tool_error("encoding_error", words)),
    }
}

/// What is to be written over the target, or why nothing is.
pub fn plan_edit(
    args: &EditArgs,
    tier: Tier,
    guard_reason: &Option<String>,
    target: EditTarget,
) -> (r: Result<EditPlan, ToolError>)
    ensures
        match planned(*args, blocked_view(tier, *guard_reason), target) {
            Ok(plan) => r matches Ok(p) && p.carries(*args, target, plan),
            Err(e) => r matches Err(found) && found@ == e,
        },
        r matches Ok(p) ==> tier is Allowed && (args.path matches Some(path) && trim(path@).len()
            > 0) && exists|text: Seq<char>| #[trigger]
            is_edit(
                *args,
                ascii_lower(arg_or(args.mode, "replace"@)),
                text_before(target),
                text,
                p.replacements as nat,
            ) && line_ended(text, ascii_lower(arg_or(args.target_line_ending, "preserve"@))) == Some(
                p.content@,
            ) && encoded(p.content@, p.target_encoding@) == Some(p.bytes@),
{
    let asked_mode = text_or(&args.mode, "replace");
    let mode = str_ascii_lower(asked_mode.as_str());
    let ghost held = target;
    proof {
        lemma_modes_differ();
        assert(trim(Seq::<char>::empty()).len() == 0);
    }
    if let Err(e) = check_edit(args, tier, guard_reason, &target, mode.as_str()) {
        return Err(e);
    }
    let (existed_before, old_bytes): (bool, Vec<u8>) = match target {
        EditTarget::File { len: _, read: Ok(bytes) } => (true, bytes),
        _ => (false, Vec::new()),
    };
    let (old_content, previous): (String, Option<&'static str>) = if existed_before {
        let (text, label) = decode_fuzzy(old_bytes.as_slice());
        (text, Some(label))
    } else {
        (String::new(), None)
    };
    let (text, replacements) = match edit_content(args, mode.as_str(), old_content.as_str()) {
        Ok(found) => found,
        Err(e) => {
            return Err(e);
        },
    };
    assert(old_content@ =~= text_before(held));
    match plan_text(args, previous, text.as_str(), replacements) {
        Err(e) => Err(e),
        Ok((content, bytes, target_encoding, line_ending)) => {
            assert(is_edit(*args, mode@, text_before(held), text@, replacements as nat));
            let changed = !existed_before || !same_bytes(old_bytes.as_slice(), bytes.as_slice());
            let old_line_ending = line_ending_metadata(old_content.as_str());
            Ok(
                EditPlan {
                    mode,
                    existed_before,
                    changed,
                    old_bytes,
                    old_line_ending,
                    previous_encoding: previous,
                    content,
                    bytes,
                    replacements,
                    target_encoding,
                    line_ending,
                },
            )
        },
    }
}

/// Whether the directory above the path stops a write: it is missing and must
/// not be created.
pub fn check_parent(parent_missing: bool, create_parents: Option<bool>) -> (r: Result<
    (),
    ToolError,
>)
    ensures
        r is Err == (parent_missing && create_parents == Some(false)),
        r matches Err(e) ==> e@ == plain_error(
            "parent_missing"@,
            "parent directory does not exist (set create_parents=true)"@,
        ),
{
    let create: bool = match create_parents {
        Some(b) => b,
        None => true,
    };
    if parent_missing && !create {
        return Err(
            tool_error(
                "parent_missing",
                "parent directory does not exist (set create_parents=true)",
            ),
        );
    }
    Ok(())
}

/// The answer to an edit: whether the file was there, whether it changed, and
/// what the history keeps of it.
pub struct EditAnswer {
    pub file_existed_before: bool,
    pub file_created: bool,
    pub changed: bool,
    pub bytes_before: usize,
    pub bytes_written: usize,
    pub message: &'static str,
    pub history: RecordOutcome,
}

/// The answer once the edit is written; an edit that changes nothing is not
/// written and leaves the history as it was.
pub fn finish_edit(history: &mut HistoryState, path: &str, plan: &EditPlan) -> (r: EditAnswer)
    requires
        old(history).wf(),
        old(history).next_entry_id < u64::MAX,
    ensures
        final(history).wf(),
        r.changed == plan.changed,
        r.file_existed_before == (plan.existed_before || !plan.changed),
        r.file_created == (plan.changed && !plan.existed_before),
        r.bytes_before == plan.old_bytes@.len(),
        r.bytes_written == if plan.changed {
            plan.bytes@.len()
        } else {
            plan.old_bytes@.len()
        },
        r.message@ == if !plan.changed {
            "no content changes detected"@
        } else if plan.existed_before {
            "file updated"@
        } else {
            "file created and updated"@
        },
        !plan.changed ==> !r.history.recorded && opt_view(r.history.reason) == Some(
            "no filesystem change"@,
        ) && *final(history) == *old(history),
        plan.changed ==> r.history.recorded == !((plan.existed_before && plan.old_bytes@.len()
            > crate::history::MAX_TRACKED_SNAPSHOT_BYTES) || plan.bytes@.len()
            > crate::history::MAX_TRACKED_SNAPSHOT_BYTES),
        plan.changed && !r.history.recorded ==> opt_view(r.history.reason) == Some(
            too_large_reason(
                if plan.existed_before && plan.old_bytes@.len()
                    > crate::history::MAX_TRACKED_SNAPSHOT_BYTES {
                    plan.old_bytes@.len()
                } else {
                    plan.bytes@.len()
                },
            ),
        ),
        r.history.recorded ==> r.history.reason is None,
        r.history.recorded ==> opt_view(r.history.entry_id) == Some(
            crate::history::entry_name(old(history).next_entry_id as nat),
        ) && final(history).next_entry_id == old(history).next_entry_id + 1,
        !r.history.recorded ==> *final(history) == *old(history) && r.history.entry_id is None,
{
    if !plan.changed {
        return EditAnswer {
            file_existed_before: true,
            file_created: false,
            changed: false,
            bytes_before: plan.old_bytes.len(),
            bytes_written: plan.old_bytes.len(),
            message: "no content changes detected",
            history: no_history("no filesystem change"),
        };
    }
    let before = if plan.existed_before {
        let label: Option<String> = match plan.previous_encoding {
            Some(raw) => Some(normalize_encoding_label(raw).to_owned()),
            None => None,
        };
        file_snapshot(
            vstd::slice::slice_to_vec(plan.old_bytes.as_slice()),
            label,
            plan.old_line_ending.clone(),
        )
    } else {
        missing_snapshot()
    };
    let after = file_snapshot(
        vstd::slice::slice_to_vec(plan.bytes.as_slice()),
        Some(plan.target_encoding.clone()),
        line_ending_metadata(plan.content.as_str()),
    );
    let outcome = record_change(
        history,
        "edit_file",
        path,
        &before,
        &after,
        if plan.existed_before {
            "edit file"
        } else {
            "create file via edit_file"
        },
    );
    EditAnswer {
        file_existed_before: plan.existed_before,
        file_created: !plan.existed_before,
        changed: true,
        bytes_before: plan.old_bytes.len(),
        bytes_written: plan.bytes.len(),
        message: if plan.existed_before {
            "file updated"
        } else {
            "file created and updated"
        },
        history: outcome,
    }
}

/// An edit that is written in UTF-8 is read back as its new content.
pub proof fn law_edit_read_back(
    args: EditArgs,
    blocked: Option<Option<Seq<char>>>,
    target: EditTarget,
)
    ensures
        planned(args, blocked, target) matches Ok(plan) ==> plan.encoding == "UTF-8"@ ==> decoded(
            plan.bytes,
        ) == (plan.content, "UTF-8"@),
{
    match planned(args, blocked, target) {
        Ok(plan) => {
            crate::encoding::law_utf8_read_back(plan.content);
        },
        Err(_) => {},
    }
}

/// The names of the encodings that a file is read by are kept as they are, but
/// for the case of the letters.
proof fn lemma_kept_labels()
    ensures
        kept_label("UTF-8"@) == "UTF-8"@,
        kept_label("UTF-16LE"@) == "UTF-16LE"@,
        kept_label("UTF-16BE"@) == "UTF-16BE"@,
        kept_label("windows-1252"@) == "WINDOWS-1252"@,
        "UTF-8"@ != "UTF-16LE"@,
        "UTF-8"@ != "UTF-16BE"@,
        "UTF-16LE"@ != "UTF-16BE"@,
        "UTF-8"@ != "windows-1252"@,
        "UTF-16LE"@ != "windows-1252"@,
        "UTF-16BE"@ != "windows-1252"@,
{
    reveal_strlit("UTF-8");
    reveal_strlit("UTF-16LE");
    reveal_strlit("UTF-16BE");
    reveal_strlit("windows-1252");
    reveal_strlit("utf-16le");
    reveal_strlit("utf-16be");
    assert("UTF-16LE"@[6] == 'L');
    assert("UTF-16BE"@[6] == 'B');
    assert(ascii_lower("UTF-8"@).len() == 5);
    assert(ascii_lower("windows-1252"@).len() == 12);
    assert(ascii_lower("UTF-16LE"@) =~= ascii_lower("utf-16le"@));
    assert(ascii_lower("UTF-16BE"@) =~= ascii_lower("utf-16be"@));
    assert(ascii_lower("UTF-16BE"@)[6] == 'b');
    assert(ascii_lower("utf-16le"@)[6] == 'l');
    assert(ascii_lower("utf-16le"@).len() == 8);
}

/// Where no encoding is asked for, a file that was read by UTF-8 or UTF-16 is
/// written so that it is read by the same encoding again, and one that was read
/// by Windows-1252 is written in that.
pub proof fn law_edit_keeps_encoding(
    args: EditArgs,
    blocked: Option<Option<Seq<char>>>,
    target: EditTarget,
)
    requires
        args.target_encoding is None,
    ensures
        planned(args, blocked, target) matches Ok(plan) ==> bytes_before(target) matches Some(
            bytes,
        ) ==> if decoded(bytes).1 == "windows-1252"@ {
            plan.encoding == "WINDOWS-1252"@
        } else {
            plan.encoding == decoded(bytes).1 && decoded(plan.bytes).1 == decoded(bytes).1
        },
{
    lemma_kept_labels();
    match planned(args, blocked, target) {
        Ok(plan) => {
            crate::encoding::law_utf8_read_back(plan.content);
            let little = seq![0xffu8, 0xfe] + utf16le_bytes(plan.content);
            let big = seq![0xfeu8, 0xff] + utf16be_bytes(plan.content);
            assert(little.take(2) =~= seq![0xffu8, 0xfe]);
            assert(big.take(2) =~= seq![0xfeu8, 0xff]);
            assert(big.take(2)[0] != seq![0xffu8, 0xfe][0]);
        },
        Err(_) => {},
    }
}

/// Where a number of replacements is expected, an edit is planned only with
/// just that many.
pub proof fn law_edit_expected(
    args: EditArgs,
    blocked: Option<Option<Seq<char>>>,
    target: EditTarget,
)
    ensures
        planned(args, blocked, target) matches Ok(plan) ==> args.expected_replacements is Some
            ==> plan.replacements == args.expected_replacements->0,
{
}

} // verus!
