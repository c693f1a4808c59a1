//! Deleting one file.

use vstd::prelude::*;

use crate::history::{
    missing_snapshot, no_history, record_change, untrackable, HistoryState, PathSnapshot,
    RecordOutcome,
};
use crate::security::path_guard::Tier;
use crate::text::{opt_view, str_eq, str_trim, trim};
use crate::tools::edit_file::{blocked_view, text_or};
use crate::tools::errors::{
    fault_error, io_error, plain_error, tool_error, ErrorView, IoFault, IoKind, ToolError,
    LOCKED_OS_ERROR,
};

verus! {

/// What an error code of this tool means.
pub open spec fn reason_of(code: Seq<char>) -> Seq<char> {
    if code == "invalid_path"@ {
        "Path argument is missing or invalid."@
    } else if code == "path_blocked"@ {
        "Path is blocked by server policy."@
    } else if code == "file_not_found"@ {
        "Target file does not exist."@
    } else if code == "path_is_directory"@ {
        "Target path points to a directory, not a file."@
    } else if code == "permission_denied"@ {
        "Operation was denied by filesystem permissions."@
    } else if code == "invalid_input"@ {
        "Input is invalid for the requested operation."@
    } else if code == "file_locked"@ {
        "File is locked by another process."@
    } else if code == "io_error"@ {
        "Filesystem I/O error occurred."@
    } else {
        "Unknown error."@
    }
}

/// What an error code of this tool means.
pub fn error_reason(error_code: &str) -> (r: &'static str)
    ensures
        r@ == reason_of(error_code@),
{
    if str_eq(error_code, "invalid_path") {
        "Path argument is missing or invalid."
    } else if str_eq(error_code, "path_blocked") {
        "Path is blocked by server policy."
    } else if str_eq(error_code, "file_not_found") {
        "Target file does not exist."
    } else if str_eq(error_code, "path_is_directory") {
        "Target path points to a directory, not a file."
    } else if str_eq(error_code, "permission_denied") {
        "Operation was denied by filesystem permissions."
    } else if str_eq(error_code, "invalid_input") {
        "Input is invalid for the requested operation."
    } else if str_eq(error_code, "file_locked") {
        "File is locked by another process."
    } else if str_eq(error_code, "io_error") {
        "Filesystem I/O error occurred."
    } else {
        "Unknown error."
    }
}

/// The error code for a failure of the file system.
pub open spec fn fault_code(fault: IoFault) -> Seq<char> {
    if fault.raw_os_error == Some(LOCKED_OS_ERROR) {
        "file_locked"@
    } else {
        match fault.kind {
            IoKind::PermissionDenied => "permission_denied"@,
            IoKind::NotFound => "file_not_found"@,
            IoKind::InvalidInput => "invalid_input"@,
            _ => "io_error"@,
        }
    }
}

/// The error for an operation in which the file system failed.
pub fn io_error_response(operation: &'static str, fault: &IoFault) -> (r: ToolError)
    ensures
        r@ == fault_error(fault_code(*fault), operation@, fault.text@),
{
    let code: &'static str = if fault.raw_os_error == Some(LOCKED_OS_ERROR) {
        "file_locked"
    } else {
        match fault.kind {
            IoKind::PermissionDenied => "permission_denied",
            IoKind::NotFound => "file_not_found",
            IoKind::InvalidInput => "invalid_input",
            _ => "io_error",
        }
    };
    io_error(code, operation, fault)
}

/// What is done with the path.
#[derive(Clone, Copy, Debug, PartialEq, Eq, Structural)]
pub enum DeleteStep {
    NothingToDelete,
    Delete,
}

/// What is done with the path, or why nothing is: `exists` and `is_dir` say
/// what stands there.
pub open spec fn delete_step(
    path: Option<Seq<char>>,
    blocked: Option<Option<Seq<char>>>,
    exists: bool,
    is_dir: bool,
    missing_ok: Option<bool>,
) -> Result<DeleteStep, ErrorView> {
    let raw = match path {
        Some(p) => p,
        None => ""@,
    };
    if trim(raw).len() == 0 {
        Err(plain_error("invalid_path"@, "path is required"@))
    } else if blocked is Some {
        Err(
            plain_error(
                "path_blocked"@,
                match blocked->0 {
                    Some(reason) => reason,
                    None => "path is blocked by server policy"@,
                },
            ),
        )
    } else if !exists {
        if missing_ok == Some(true) {
            Ok(DeleteStep::NothingToDelete)
        } else {
            Err(plain_error("file_not_found"@, "file does not exist"@))
        }
    } else if is_dir {
        Err(
            plain_error(
                "path_is_directory"@,
                "target path is a directory; delete_file only removes files"@,
            ),
        )
    } else {
        Ok(DeleteStep::Delete)
    }
}

/// What is done with the path, or why nothing is.
pub fn plan_delete(
    path: &Option<String>,
    tier: Tier,
    guard_reason: &Option<String>,
    exists: bool,
    is_dir: bool,
    missing_ok: Option<bool>,
) -> (r: Result<DeleteStep, ToolError>)
    ensures
        delete_step(
            opt_view(*path),
            blocked_view(tier, *guard_reason),
            exists,
            is_dir,
            missing_ok,
        ) == (match r {
            Ok(step) => Ok(step),
            Err(e) => Err(e@),
        }),
        r is Ok == ((path matches Some(p) && trim(p@).len() > 0) && tier is Allowed && if (exists) {
            !is_dir
        } else {
            missing_ok == Some(true)
        }),
        r matches Ok(step) ==> (step is Delete <==> (exists)),
        r is Err && tier is Blocked && (path matches Some(p) && trim(p@).len() > 0)
            ==> r->Err_0@.code == "path_blocked"@,
        r is Err && tier is Allowed && (path matches Some(p) && trim(p@).len() > 0)
            ==> r->Err_0@.code == if (exists) {
            "path_is_directory"@
        } else {
            "file_not_found"@
        },
{
    proof {
        reveal_strlit("");
        crate::text::law_trim(""@);
    }
    let raw = text_or(path, "");
    let trimmed = str_trim(raw.as_str());
    if trimmed.as_str().is_empty() {
        return Err(tool_error("invalid_path", "path is required"));
    }
    match tier {
        Tier::Blocked => {
            let reason = text_or(guard_reason, "path is blocked by server policy");
            return Err(tool_error("path_blocked", reason.as_str()));
        },
        Tier::Allowed => {},
    }
    if !exists {
        let ok: bool = match missing_ok {
            Some(b) => b,
            None => false,
        };
        if ok {
            return Ok(DeleteStep::NothingToDelete);
        }
        return Err(tool_error("file_not_found", "file does not exist"));
    }
    if is_dir {
        return Err(
            tool_error(
                "path_is_directory",
                "target path is a directory; delete_file only removes files",
            ),
        );
    }
    Ok(DeleteStep::Delete)
}

/// What the history keeps of a deleted file, given what the path held before
/// or why that is not known.
pub fn finish_delete(
    history: &mut HistoryState,
    path: &str,
    before: Result<PathSnapshot, String>,
) -> (r: RecordOutcome)
    requires
        old(history).wf(),
        old(history).next_entry_id < u64::MAX,
    ensures
        final(history).wf(),
        r.recorded == (before matches Ok(b) && untrackable(b) is None),
        before matches Err(reason) ==> opt_view(r.reason) == Some(reason@),
        before matches Ok(b) ==> !r.recorded ==> opt_view(r.reason) == untrackable(b),
        r.recorded ==> r.reason is None,
        r.recorded ==> opt_view(r.entry_id) == Some(
            crate::history::entry_name(old(history).next_entry_id as nat),
        ) && final(history).next_entry_id == old(history).next_entry_id + 1,
        !r.recorded ==> *final(history) == *old(history) && r.entry_id is None,
{
    match before {
        Err(reason) => no_history(reason.as_str()),
        Ok(snapshot) => record_change(
            history,
            "delete_file",
            path,
            &snapshot,
            &missing_snapshot(),
            "delete file",
        ),
    }
}

} // verus!
