//! Creating one directory.

use vstd::prelude::*;

use crate::history::{
    directory_snapshot, missing_snapshot, no_history, record_change, HistoryState, RecordOutcome,
};
use crate::security::path_guard::Tier;
use crate::text::{opt_view, str_eq, str_trim, trim};
use crate::tools::edit_file::{blocked_view, text_or};
use crate::tools::errors::{
    fault_error, io_error, plain_error, tool_error, ErrorView, IoFault, IoKind, ToolError,
    LOCKED_OS_ERROR,
};

verus! {

/// What an error code of this tool means.
pub open spec fn reason_of(code: Seq<char>) -> Seq<char> {
    if code == "invalid_path"@ {
        "Path argument is missing or invalid."@
    } else if code == "path_blocked"@ {
        "Path is blocked by server policy."@
    } else if code == "path_is_file"@ {
        "Target path points to a file, not a directory."@
    } else if code == "already_exists"@ {
        "Target directory already exists."@
    } else if code == "parent_missing"@ {
        "Parent directory does not exist."@
    } else if code == "permission_denied"@ {
        "Operation was denied by filesystem permissions."@
    } else if code == "invalid_input"@ {
        "Input is invalid for the requested operation."@
    } else if code == "file_locked"@ {
        "Path is locked by another process."@
    } else if code == "io_error"@ {
        "Filesystem I/O error occurred."@
    } else {
        "Unknown error."@
    }
}

/// What an error code of this tool means.
pub fn error_reason(error_code: &str) -> (r: &'static str)
    ensures
        r@ == reason_of(error_code@),
{
    if str_eq(error_code, "invalid_path") {
        "Path argument is missing or invalid."
    } else if str_eq(error_code, "path_blocked") {
        "Path is blocked by server policy."
    } else if str_eq(error_code, "path_is_file") {
        "Target path points to a file, not a directory."
    } else if str_eq(error_code, "already_exists") {
        "Target directory already exists."
    } else if str_eq(error_code, "parent_missing") {
        "Parent directory does not exist."
    } else if str_eq(error_code, "permission_denied") {
        "Operation was denied by filesystem permissions."
    } else if str_eq(error_code, "invalid_input") {
        "Input is invalid for the requested operation."
    } else if str_eq(error_code, "file_locked") {
        "Path is locked by another process."
    } else if str_eq(error_code, "io_error") {
        "Filesystem I/O error occurred."
    } else {
        "Unknown error."
    }
}

/// The error code for a failure of the file system.
pub open spec fn fault_code(fault: IoFault) -> Seq<char> {
    if fault.raw_os_error == Some(LOCKED_OS_ERROR) {
        "file_locked"@
    } else {
        match fault.kind {
            IoKind::PermissionDenied => "permission_denied"@,
            IoKind::AlreadyExists => "already_exists"@,
            IoKind::InvalidInput => "invalid_input"@,
            _ => "io_error"@,
        }
    }
}

/// The error for an operation in which the file system failed.
pub fn io_error_response(operation: &'static str, fault: &IoFault) -> (r: ToolError)
    ensures
        r@ == fault_error(fault_code(*fault), operation@, fault.text@),
{
    let code: &'static str = if fault.raw_os_error == Some(LOCKED_OS_ERROR) {
        "file_locked"
    } else {
        match fault.kind {
            IoKind::PermissionDenied => "permission_denied",
            IoKind::AlreadyExists => "already_exists",
            IoKind::InvalidInput => "invalid_input",
            _ => "io_error",
        }
    };
    io_error(code, operation, fault)
}

/// What is done: nothing where the directory is there; else it is created, and
/// with it the directories above it where that is asked for.
#[derive(Clone, Copy, Debug, PartialEq, Eq, Structural)]
pub enum DirectoryStep {
    AlreadyThere,
    Create,
    CreateWithParents,
}

/// What is done, or why nothing is.
pub open spec fn directory_step(
    path: Option<Seq<char>>,
    blocked: Option<Option<Seq<char>>>,
    exists: bool,
    is_file: bool,
    parent_missing: bool,
    create_parents: Option<bool>,
    allow_existing: Option<bool>,
) -> Result<DirectoryStep, ErrorView> {
    let raw = match path {
        Some(p) => p,
        None => ""@,
    };
    if trim(raw).len() == 0 {
        Err(plain_error("invalid_path"@, "path is required"@))
    } else if blocked is Some {
        Err(
            plain_error(
                "path_blocked"@,
                match blocked->0 {
                    Some(reason) => reason,
                    None => "path is blocked by server policy"@,
                },
            ),
        )
    } else if exists {
        if is_file {
            Err(plain_error("path_is_file"@, "target path points to a file"@))
        } else if allow_existing == Some(false) {
            Err(
                plain_error(
                    "already_exists"@,
                    "directory already exists (set allow_existing=true to accept this state)"@,
                ),
            )
        } else {
            Ok(DirectoryStep::AlreadyThere)
        }
    } else if create_parents != Some(false) {
        Ok(DirectoryStep::CreateWithParents)
    } else if parent_missing {
        Err(
            plain_error(
                "parent_missing"@,
                "parent directory does not exist (set create_parents=true)"@,
            ),
        )
    } else {
        Ok(DirectoryStep::Create)
    }
}

/// What is done, or why nothing is.
pub fn plan_directory(
    path: &Option<String>,
    tier: Tier,
    guard_reason: &Option<String>,
    exists: bool,
    is_file: bool,
    parent_missing: bool,
    create_parents: Option<bool>,
    allow_existing: Option<bool>,
) -> (r: Result<DirectoryStep, ToolError>)
    ensures
        directory_step(
            opt_view(*path),
            blocked_view(tier, *guard_reason),
            exists,
            is_file,
            parent_missing,
            create_parents,
            allow_existing,
        ) == (match r {
            Ok(step) => Ok(step),
            Err(e) => Err(e@),
        }),
        r is Ok == ((path matches Some(p) && trim(p@).len() > 0) && tier is Allowed && if (exists) {
            !is_file && allow_existing != Some(false)
        } else {
            !parent_missing || create_parents != Some(false)
        }),
        r matches Ok(step) ==> (step is AlreadyThere <==> (exists)) && (step is CreateWithParents
            <==> !(exists) && create_parents != Some(false)),
        r is Err && tier is Blocked && (path matches Some(p) && trim(p@).len() > 0)
            ==> r->Err_0@.code == "path_blocked"@,
        r is Err && tier is Allowed && (path matches Some(p) && trim(p@).len() > 0)
            ==> r->Err_0@.code == if !(exists) {
            "parent_missing"@
        } else if is_file {
            "path_is_file"@
        } else {
            "already_exists"@
        },
{
    proof {
        reveal_strlit("");
        crate::text::law_trim(""@);
    }
    let raw = text_or(path, "");
    let trimmed = str_trim(raw.as_str());
    if trimmed.as_str().is_empty() {
        return Err(tool_error("invalid_path", "path is required"));
    }
    match tier {
        Tier::Blocked => {
            let reason = text_or(guard_reason, "path is blocked by server policy");
            return Err(tool_error("path_blocked", reason.as_str()));
        },
        Tier::Allowed => {},
    }
    let with_parents: bool = match create_parents {
        Some(b) => b,
        None => true,
    };
    let existing_ok: bool = match allow_existing {
        Some(b) => b,
        None => true,
    };
    if exists {
        if is_file {
            return Err(tool_error("path_is_file", "target path points to a file"));
        }
        if !existing_ok {
            return Err(
                tool_error(
                    "already_exists",
                    "directory already exists (set allow_existing=true to accept this state)",
                ),
            );
        }
        return Ok(DirectoryStep::AlreadyThere);
    }
    if with_parents {
        return Ok(DirectoryStep::CreateWithParents);
    }
    if parent_missing {
        return Err(
            tool_error(
                "parent_missing",
                "parent directory does not exist (set create_parents=true)",
            ),
        );
    }
    Ok(DirectoryStep::Create)
}

/// What the history keeps of the directory, and the words of the answer.
pub fn finish_directory(
    history: &mut HistoryState,
    path: &str,
    step: DirectoryStep,
) -> (r: (RecordOutcome, &'static str))
    requires
        old(history).wf(),
        old(history).next_entry_id < u64::MAX,
    ensures
        final(history).wf(),
        r.0.recorded == (step !is AlreadyThere),
        r.1@ == if step is AlreadyThere {
            "directory already exists"@
        } else {
            "directory created"@
        },
        !r.0.recorded ==> opt_view(r.0.reason) == Some("no filesystem change"@)
            && r.0.entry_id is None && *final(history) == *old(history),
        r.0.recorded ==> r.0.reason is None,
        r.0.recorded ==> opt_view(r.0.entry_id) == Some(
            crate::history::entry_name(old(history).next_entry_id as nat),
        ) && final(history).next_entry_id == old(history).next_entry_id + 1,
{
    match step {
        DirectoryStep::AlreadyThere => (
            no_history("no filesystem change"),
            "directory already exists",
        ),
        _ => {
            let outcome = record_change(
                history,
                "create_directory",
                path,
                &missing_snapshot(),
                &directory_snapshot(),
                "create directory",
            );
            (outcome, "directory created")
        },
    }
}

} // verus!
