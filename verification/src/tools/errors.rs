//! Errors that the tools which write files answer with.

use vstd::prelude::*;

verus! {

/// What kind of error the file system gave.
#[derive(Clone, Copy, Debug, PartialEq, Eq, Structural)]
pub enum IoKind {
    PermissionDenied,
    NotFound,
    AlreadyExists,
    InvalidInput,
    Other,
}

/// An error of the file system: its kind, its number, and its words.
pub struct IoFault {
    pub kind: IoKind,
    pub raw_os_error: Option<i32>,
    pub text: String,
}

/// The number of the error that a file is in use by another process.
pub const LOCKED_OS_ERROR: i32 = 32;

/// An error that a tool answers with: its code, its words, the operation in
/// which the file system failed, if it did, and the number that was expected and
/// the one that was found, where these differ.
pub struct ToolError {
    pub code: &'static str,
    pub message: String,
    pub operation: Option<&'static str>,
    pub counts: Option<(usize, usize)>,
}

/// An error by its code, its words, its operation and its numbers.
pub struct ErrorView {
    pub code: Seq<char>,
    pub message: Seq<char>,
    pub operation: Option<Seq<char>>,
    pub counts: Option<(nat, nat)>,
}

impl View for ToolError {
    type V = ErrorView;

    open spec fn view(&self) -> ErrorView {
        ErrorView {
            code: self.code@,
            message: self.message@,
            operation: match self.operation {
                Some(op) => Some(op@),
                None => None,
            },
            counts: match self.counts {
                Some((expected, actual)) => Some((expected as nat, actual as nat)),
                None => None,
            },
        }
    }
}

/// The error with the given code and words.
pub open spec fn plain_error(code: Seq<char>, message: Seq<char>) -> ErrorView {
    ErrorView { code, message, operation: None, counts: None }
}

/// The words for a failed operation.
pub open spec fn failure_words(operation: Seq<char>, fault: Seq<char>) -> Seq<char> {
    "Failed to "@ + operation + ": "@ + fault
}

/// The error for an operation in which the file system failed.
pub open spec fn fault_error(code: Seq<char>, operation: Seq<char>, fault: Seq<char>) -> ErrorView {
    ErrorView {
        code,
        message: failure_words(operation, fault),
        operation: Some(operation),
        counts: None,
    }
}

/// The error that a number is not the one that was expected.
pub open spec fn count_error(
    code: Seq<char>,
    message: Seq<char>,
    expected: nat,
    actual: nat,
) -> ErrorView {
    ErrorView { code, message, operation: None, counts: Some((expected, actual)) }
}

/// The error with the given code and words.
pub fn tool_error(code: &'static str, message: &str) -> (r: ToolError)
    ensures
        r@ == plain_error(code@, message@),
{
    ToolError { code, message: message.to_owned(), operation: None, counts: None }
}

/// The error for an operation in which the file system failed.
pub fn io_error(code: &'static str, operation: &'static str, fault: &IoFault) -> (r: ToolError)
    ensures
        r@ == fault_error(code@, operation@, fault.text@),
{
    let mut message = "Failed to ".to_owned();
    message.append(operation);
    message.append(": ");
    message.append(fault.text.as_str());
    ToolError { code, message, operation: Some(operation), counts: None }
}

} // verus!
