//! A sequence of calls in one request.

use vstd::prelude::*;

use crate::json::{as_text, field_of, items_of, text_of, Json};
use crate::requests::is_tool_answer;
use crate::text::{opt_view, str_eq};

verus! {

/// The calls of one request, at most.
pub const MAX_BATCH_CALLS: usize = 20;

/// One call of a sequence; a sequence inside a sequence is refused.
pub struct BatchCall<'a> {
    pub tool: String,
    pub refused: bool,
    pub args: Option<&'a Json>,
}

/// The tool that a call names; empty where it names none.
pub open spec fn called(call: Json) -> Seq<char> {
    match text_of(field_of(call, "tool"@)) {
        Some(name) => name,
        None => Seq::empty(),
    }
}

/// What is wrong with a sequence of calls as a whole.
pub open spec fn batch_error(args: Json) -> Option<Seq<char>> {
    match field_of(args, "calls"@) {
        Some(Json::Array(calls)) => if calls@.len() > MAX_BATCH_CALLS {
            Some("batch_tool_call accepts at most 20 calls per request"@)
        } else {
            None
        },
        _ => Some("Missing 'calls' array"@),
    }
}

/// The call is what the request says.
pub open spec fn is_call(call: BatchCall<'_>, item: Json) -> bool {
    &&& call.tool@ == called(item)
    &&& call.refused == (called(item) == "batch_tool_call"@)
    &&& (match call.args {
        Some(v) => Some(*v),
        None => None,
    }) == field_of(item, "args"@)
}

/// The calls of a request, in their order.
pub fn plan_batch<'a>(args: &'a Json) -> (r: Result<Vec<BatchCall<'a>>, &'static str>)
    ensures
        match r {
            Ok(calls) => {
                let items = items_of(field_of(*args, "calls"@));
                &&& batch_error(*args) is None
                &&& calls@.len() == items.len()
                &&& forall|i: int| 0 <= i < items.len() ==> is_call(#[trigger] calls@[i], items[i])
            },
            Err(e) => batch_error(*args) == Some(e@),
        },
        r is Ok <==> (field_of(*args, "calls"@) matches Some(Json::Array(list)) && list@.len() <= 20),
        r matches Ok(calls) ==> forall|i: int|
            0 <= i < calls@.len() ==> ((#[trigger] calls@[i]).refused <==> calls@[i].tool@
                == "batch_tool_call"@),
{
    match args.get("calls") {
        Some(Json::Array(items)) => {
            if items.len() > MAX_BATCH_CALLS {
                return Err("batch_tool_call accepts at most 20 calls per request");
            }
            let mut out: Vec<BatchCall<'a>> = Vec::new();
            for i in 0..items.len()
                invariant
                    out@.len() == i,
                    forall|k: int| 0 <= k < i ==> is_call(#[trigger] out@[k], items@[k]),
            {
                let item = &items[i];
                let tool: String = match as_text(item.get("tool")) {
                    Some(name) => name.to_owned(),
                    None => String::new(),
                };
                let refused = str_eq(tool.as_str(), "batch_tool_call");
                out.push(BatchCall { tool, refused, args: item.get("args") });
            }
            Ok(out)
        },
        _ => Err("Missing 'calls' array"),
    }
}

/// What a refused call is answered.
pub fn refused_text() -> (r: &'static str)
    ensures
        r@ == "Recursive batch_tool_call is not allowed"@,
{
    "Recursive batch_tool_call is not allowed"
}

/// The text that the result of a tool carries.
pub open spec fn payload(result: Json) -> Option<Seq<char>> {
    let items = items_of(field_of(result, "content"@));
    if items.len() == 0 {
        None
    } else {
        text_of(field_of(items[0], "text"@))
    }
}

/// The text that the result of a tool carries.
pub fn extract_text_payload(result: &Json) -> (r: Option<String>)
    ensures
        opt_view(r) == payload(*result),
{
    match result.get("content") {
        Some(Json::Array(items)) => if items.len() == 0 {
            None
        } else {
            match as_text(items[0].get("text")) {
                Some(text) => Some(text.to_owned()),
                None => None,
            }
        },
        _ => None,
    }
}

/// What stands in a sequence for the result of one call: the words of its failure;
/// its text, as JSON where it is that; or the result as it is.
pub enum FlatResult {
    Failed(String),
    Text(String),
    Whole,
}

/// What stands in a sequence for the result of one call.
pub enum Flat {
    Failed(Seq<char>),
    Text(Seq<char>),
    Whole,
}

impl View for FlatResult {
    type V = Flat;

    open spec fn view(&self) -> Flat {
        match *self {
            FlatResult::Failed(s) => Flat::Failed(s@),
            FlatResult::Text(s) => Flat::Text(s@),
            FlatResult::Whole => Flat::Whole,
        }
    }
}

/// What stands in a sequence for the result of one call.
pub open spec fn flattened(result: Json) -> Flat {
    if field_of(result, "isError"@) matches Some(Json::Bool(failed)) && failed {
        Flat::Failed(
            match payload(result) {
                Some(text) => text,
                None => "Unknown tool error"@,
            },
        )
    } else {
        match payload(result) {
            Some(text) => Flat::Text(text),
            None => Flat::Whole,
        }
    }
}

/// What stands in a sequence for the result of one call.
pub fn flatten_tool_result(result: &Json) -> (r: FlatResult)
    ensures
        r@ == flattened(*result),
{
    let text = extract_text_payload(result);
    let failed = match result.get("isError") {
        Some(Json::Bool(b)) => *b,
        _ => false,
    };
    if failed {
        return FlatResult::Failed(
            match text {
                Some(text) => text,
                None => "Unknown tool error".to_owned(),
            },
        );
    }
    match text {
        Some(text) => FlatResult::Text(text),
        None => FlatResult::Whole,
    }
}

/// A sequence of calls reads back the text that a tool was answered with: as a
/// failure where it tells of one, and as the result otherwise.
pub proof fn law_answer_read_back(answer: Json, text: Seq<char>, is_error: bool)
    requires
        is_tool_answer(answer, text, is_error),
    ensures
        flattened(answer) == (if is_error {
            Flat::Failed(text)
        } else {
            Flat::Text(text)
        }),
{
}

} // verus!
