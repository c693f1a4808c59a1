//! Creating one file, or writing over it.

use vstd::prelude::*;

use crate::history::{
    file_snapshot, no_history, record_change, too_large_reason, untrackable, HistoryState,
    PathSnapshot, RecordOutcome, MAX_TRACKED_SNAPSHOT_BYTES,
};
use crate::line_endings::{line_ending_metadata, to_crlf, to_lf, with_crlf, with_lf};
use crate::security::path_guard::Tier;
use crate::text::{
    ascii_lower, ascii_upper, opt_view, str_ascii_lower, str_ascii_upper, str_eq, str_trim, trim,
};
use crate::tools::edit_file::{
    arg_or, blocked_view, check_parent, encode_content, encoded, encoding_words, text_or,
};
use crate::tools::errors::{plain_error, tool_error, ErrorView, ToolError};

verus! {

/// What an error code of this tool means.
pub open spec fn reason_of(code: Seq<char>) -> Seq<char> {
    if code == "invalid_path"@ {
        "Path argument is missing or invalid."@
    } else if code == "path_blocked"@ {
        "Path is blocked by server policy."@
    } else if code == "invalid_encoding"@ {
        "Requested encoding is not supported."@
    } else if code == "invalid_line_ending"@ {
        "Requested line ending mode is invalid."@
    } else if code == "encoding_error"@ {
        "Content cannot be encoded with requested encoding."@
    } else if code == "path_is_directory"@ {
        "Target path points to a directory, not a file."@
    } else if code == "already_exists"@ {
        "Target file already exists."@
    } else if code == "parent_missing"@ {
        "Parent directory does not exist."@
    } else if code == "permission_denied"@ {
        "Operation was denied by filesystem permissions."@
    } else if code == "not_found"@ {
        "Target path was not found."@
    } else if code == "invalid_input"@ {
        "Input is invalid for the requested operation."@
    } else if code == "file_locked"@ {
        "File is locked by another process."@
    } else if code == "io_error"@ {
        "Filesystem I/O error occurred."@
    } else {
        "Unknown error."@
    }
}

/// What an error code of this tool means.
pub fn error_reason(error_code: &str) -> (r: &'static str)
    ensures
        r@ == reason_of(error_code@),
{
    if str_eq(error_code, "invalid_path") {
        "Path argument is missing or invalid."
    } else if str_eq(error_code, "path_blocked") {
        "Path is blocked by server policy."
    } else if str_eq(error_code, "invalid_encoding") {
        "Requested encoding is not supported."
    } else if str_eq(error_code, "invalid_line_ending") {
        "Requested line ending mode is invalid."
    } else if str_eq(error_code, "encoding_error") {
        "Content cannot be encoded with requested encoding."
    } else if str_eq(error_code, "path_is_directory") {
        "Target path points to a directory, not a file."
    } else if str_eq(error_code, "already_exists") {
        "Target file already exists."
    } else if str_eq(error_code, "parent_missing") {
        "Parent directory does not exist."
    } else if str_eq(error_code, "permission_denied") {
        "Operation was denied by filesystem permissions."
    } else if str_eq(error_code, "not_found") {
        "Target path was not found."
    } else if str_eq(error_code, "invalid_input") {
        "Input is invalid for the requested operation."
    } else if str_eq(error_code, "file_locked") {
        "File is locked by another process."
    } else if str_eq(error_code, "io_error") {
        "Filesystem I/O error occurred."
    } else {
        "Unknown error."
    }
}

/// `content` with the line endings asked for and the name of these, where they
/// are known.
pub open spec fn line_ended(content: Seq<char>, ending: Option<Seq<char>>) -> Option<
    (Seq<char>, Seq<char>),
> {
    match ending {
        None => Some((content, "preserve"@)),
        Some(raw) => if ascii_lower(raw) == "lf"@ {
            Some((with_lf(content), "lf"@))
        } else if ascii_lower(raw) == "crlf"@ {
            Some((with_crlf(content), "crlf"@))
        } else {
            None
        },
    }
}

/// `content` with the line endings asked for, and the name of these.
pub fn normalize_line_endings(content: &str, target_line_ending: &Option<String>) -> (r: Result<
    (String, &'static str),
    &'static str,
>)
    ensures
        line_ended(content@, opt_view(*target_line_ending)) == (match r {
            Ok((text, name)) => Some((text@, name@)),
            Err(_) => None,
        }),
        r matches Err(e) ==> e@ == "target_line_ending must be 'lf' or 'crlf'"@,
        r is Ok == (*target_line_ending matches Some(raw) ==> ascii_lower(raw@) == "lf"@
            || ascii_lower(raw@) == "crlf"@),
        *target_line_ending is None ==> (r matches Ok((text, _)) && text@ == content@),
        (*target_line_ending matches Some(raw) && ascii_lower(raw@) == "lf"@) ==> (r matches Ok(
            (text, _),
        ) && exists|n: nat| crate::lines::replaces(content@, seq!['\r', '\n'], seq!['\n'], text@, n)),
        (*target_line_ending matches Some(raw) && ascii_lower(raw@) == "crlf"@) ==> (r matches Ok(
            (text, _),
        ) && forall|i: int|
            0 <= i < text@.len() && #[trigger] text@[i] == '\n' ==> i > 0 && text@[i - 1] == '\r'),
{
    proof {
        reveal_strlit("lf");
        reveal_strlit("crlf");
        assert("lf"@.len() == 2 && "crlf"@.len() == 4);
    }
    match target_line_ending {
        None => Ok((content.to_owned(), "preserve")),
        Some(raw) => {
            let name = str_ascii_lower(raw.as_str());
            if str_eq(name.as_str(), "lf") {
                Ok((to_lf(content), "lf"))
            } else if str_eq(name.as_str(), "crlf") {
                Ok((to_crlf(content), "crlf"))
            } else {
                Err("target_line_ending must be 'lf' or 'crlf'")
            }
        },
    }
}

/// The arguments of the tool.
pub struct CreateArgs {
    pub path: Option<String>,
    pub content: Option<String>,
    pub overwrite: Option<bool>,
    pub create_parents: Option<bool>,
    pub target_encoding: Option<String>,
    pub target_line_ending: Option<String>,
}

/// What stands at the path.
#[derive(Clone, Copy, Debug, PartialEq, Eq, Structural)]
pub enum CreateTarget {
    Missing,
    Directory,
    File,
}

/// What is to be written: the text, its bytes, and the names of its encoding
/// and its line endings.
pub struct Created {
    pub content: Seq<char>,
    pub bytes: Seq<u8>,
    pub encoding: Seq<char>,
    pub ending: Seq<char>,
}

/// What is to be written, or why nothing is.
pub open spec fn planned(
    args: CreateArgs,
    blocked: Option<Option<Seq<char>>>,
    target: CreateTarget,
    parent_missing: bool,
) -> Result<Created, ErrorView> {
    let encoding = ascii_upper(arg_or(args.target_encoding, "UTF-8"@));
    if trim(arg_or(args.path, ""@)).len() == 0 {
        Err(plain_error("invalid_path"@, "path is required"@))
    } else if blocked is Some {
        Err(
            plain_error(
                "path_blocked"@,
                match blocked->0 {
                    Some(reason) => reason,
                    None => "path is blocked by server policy"@,
                },
            ),
        )
    } else if encoding != "UTF-8"@ && encoding != "WINDOWS-1252"@ {
        Err(plain_error("invalid_encoding"@, "target_encoding must be UTF-8 or Windows-1252"@))
    } else {
        match line_ended(arg_or(args.content, ""@), opt_view(args.target_line_ending)) {
            None => Err(
                plain_error(
                    "invalid_line_ending"@,
                    "target_line_ending must be 'lf' or 'crlf'"@,
                ),
            ),
            Some((content, ending)) => match encoded(content, encoding) {
                None => Err(plain_error("encoding_error"@, encoding_words(encoding))),
                Some(bytes) => if target is Directory {
                    Err(plain_error("path_is_directory"@, "target path points to a directory"@))
                } else if target is File && args.overwrite != Some(true) {
                    Err(
                        plain_error(
                            "already_exists"@,
                            "file already exists (set overwrite=true to replace it)"@,
                        ),
                    )
                } else if parent_missing && args.create_parents == Some(false) {
                    Err(
                        plain_error(
                            "parent_missing"@,
                            "parent directory does not exist (set create_parents=true)"@,
                        ),
                    )
                } else {
                    Ok(Created { content, bytes, encoding, ending })
                },
            },
        }
    }
}

/// A file that is ready to be written.
pub struct CreatePlan {
    pub existed_before: bool,
    pub content: String,
    pub bytes: Vec<u8>,
    pub target_encoding: String,
    pub line_ending: &'static str,
}

/// What is to be written, or why nothing is.
pub fn plan_create(
    args: &CreateArgs,
    tier: Tier,
    guard_reason: &Option<String>,
    target: CreateTarget,
    parent_missing: bool,
) -> (r: Result<CreatePlan, ToolError>)
    ensures
        match planned(*args, blocked_view(tier, *guard_reason), target, parent_missing) {
            Ok(plan) => r matches Ok(p) && p.content@ == plan.content && p.bytes@ == plan.bytes
                && p.target_encoding@ == plan.encoding && p.line_ending@ == plan.ending
                && p.existed_before == (target is File),
            Err(e) => r matches Err(found) && found@ == e,
        },
        r is Ok ==> (args.path matches Some(path) && trim(path@).len() > 0) && tier is Allowed
            && target !is Directory && (target is File ==> args.overwrite == Some(true)) && (
        parent_missing ==> args.create_parents != Some(false)),
        r is Ok && args.target_line_ending is None ==> r->Ok_0.content@ == arg_or(
            args.content,
            ""@,
        ),
        r matches Ok(p) ==> encoded(p.content@, p.target_encoding@) == Some(p.bytes@) && (
        p.existed_before <==> target is File),
        r is Ok && args.target_encoding is None ==> r->Ok_0.target_encoding@ == "UTF-8"@,
        (args.path matches Some(path) && trim(path@).len() > 0) && tier is Allowed && target
            !is Directory && (target is File ==> args.overwrite == Some(true)) && (parent_missing
            ==> args.create_parents != Some(false)) && args.target_line_ending is None
            && args.target_encoding is None && encoded(arg_or(args.content, ""@), "UTF-8"@) is Some
            ==> r is Ok,
{
    proof {
        reveal_strlit("");
        crate::text::law_trim(""@);
        reveal_strlit("UTF-8");
        assert(ascii_upper("UTF-8"@) =~= "UTF-8"@);
    }
    let path = text_or(&args.path, "");
    let trimmed = str_trim(path.as_str());
    if trimmed.as_str().is_empty() {
        return Err(tool_error("invalid_path", "path is required"));
    }
    match tier {
        Tier::Blocked => {
            let reason = text_or(guard_reason, "path is blocked by server policy");
            return Err(tool_error("path_blocked", reason.as_str()));
        },
        Tier::Allowed => {},
    }
    let asked = text_or(&args.target_encoding, "UTF-8");
    let encoding = str_ascii_upper(asked.as_str());
    if !(str_eq(encoding.as_str(), "UTF-8") || str_eq(encoding.as_str(), "WINDOWS-1252")) {
        return Err(tool_error("invalid_encoding", "target_encoding must be UTF-8 or Windows-1252"));
    }
    let raw = text_or(&args.content, "");
    let (content, line_ending) = match normalize_line_endings(
        raw.as_str(),
        &args.target_line_ending,
    ) {
        Ok(found) => found,
        Err(words) => {
            return Err(tool_error("invalid_line_ending", words));
        },
    };
    let bytes = match encode_content(content.as_str(), encoding.as_str()) {
        Ok(bytes) => bytes,
        Err(words) => {
            return Err(tool_error("encoding_error", words));
        },
    };
    let overwrite: bool = match args.overwrite {
        Some(b) => b,
        None => false,
    };
    match target {
        CreateTarget::Directory => {
            return Err(tool_error("path_is_directory", "target path points to a directory"));
        },
        CreateTarget::File => {
            if !overwrite {
                return Err(
                    tool_error(
                        "already_exists",
                        "file already exists (set overwrite=true to replace it)",
                    ),
                );
            }
        },
        CreateTarget::Missing => {},
    }
    if let Err(e) = check_parent(parent_missing, args.create_parents) {
        return Err(e);
    }
    Ok(
        CreatePlan {
            existed_before: target == CreateTarget::File,
            content,
            bytes,
            target_encoding: encoding,
            line_ending,
        },
    )
}

/// What the history keeps of the file once it is written, given what the path
/// held before or why that is not known; and the words of the answer.
pub fn finish_create(
    history: &mut HistoryState,
    path: &str,
    plan: &CreatePlan,
    before: Result<PathSnapshot, String>,
) -> (r: (RecordOutcome, &'static str))
    requires
        old(history).wf(),
        old(history).next_entry_id < u64::MAX,
    ensures
        final(history).wf(),
        r.1@ == if plan.existed_before {
            "file overwritten"@
        } else {
            "file created"@
        },
        r.0.recorded == (before matches Ok(b) && untrackable(b) is None && plan.bytes@.len()
            <= MAX_TRACKED_SNAPSHOT_BYTES),
        before matches Err(reason) ==> opt_view(r.0.reason) == Some(reason@),
        before matches Ok(b) ==> !r.0.recorded ==> opt_view(r.0.reason) == if untrackable(b) is Some {
            untrackable(b)
        } else {
            Some(too_large_reason(plan.bytes@.len()))
        },
        r.0.recorded ==> r.0.reason is None,
        r.0.recorded ==> opt_view(r.0.entry_id) == Some(
            crate::history::entry_name(old(history).next_entry_id as nat),
        ) && final(history).next_entry_id == old(history).next_entry_id + 1,
        !r.0.recorded ==> *final(history) == *old(history) && r.0.entry_id is None,
{
    let words: &'static str = if plan.existed_before {
        "file overwritten"
    } else {
        "file created"
    };
    match before {
        Err(reason) => (no_history(reason.as_str()), words),
        Ok(snapshot) => {
            let after = file_snapshot(
                vstd::slice::slice_to_vec(plan.bytes.as_slice()),
                Some(plan.target_encoding.clone()),
                line_ending_metadata(plan.content.as_str()),
            );
            let outcome = record_change(
                history,
                "create_file",
                path,
                &snapshot,
                &after,
                if plan.existed_before {
                    "overwrite file"
                } else {
                    "create file"
                },
            );
            (outcome, words)
        },
    }
}

} // verus!
