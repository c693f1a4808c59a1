//! What a request of a client asks for, and what it is answered when it cannot be
//! served.

use vstd::prelude::*;

use crate::json::{as_text, field_of, insert_object_field, items_of, text_of, Json};
use crate::numbers::{decimal, u64_decimal};
use crate::security::rate_limiter::RateLimiter;
use crate::text::str_eq;

verus! {

/// The longest time that one call of a tool may take, in seconds.
pub const TOOL_TIMEOUT_SECS: u64 = 60;

/// A call of a tool that takes longer is slow, in milliseconds.
pub const SLOW_CALL_MILLIS: u128 = 5000;

/// What a method asks for.
#[derive(Clone, Copy, Debug, PartialEq, Eq, Structural)]
pub enum Route {
    Initialize,
    Initialized,
    ListTools,
    CallTool,
    ListResources,
    ListResourceTemplates,
    ListPrompts,
    Unknown,
}

/// What a method asks for.
pub open spec fn routed(method: Seq<char>) -> Route {
    if method == "initialize"@ {
        Route::Initialize
    } else if method == "notifications/initialized"@ {
        Route::Initialized
    } else if method == "tools/list"@ {
        Route::ListTools
    } else if method == "tools/call"@ {
        Route::CallTool
    } else if method == "resources/list"@ {
        Route::ListResources
    } else if method == "resources/templates/list"@ {
        Route::ListResourceTemplates
    } else if method == "prompts/list"@ {
        Route::ListPrompts
    } else {
        Route::Unknown
    }
}

/// What a method asks for.
pub fn route(method: &str) -> (r: Route)
    ensures
        r == routed(method@),
{
    if str_eq(method, "initialize") {
        Route::Initialize
    } else if str_eq(method, "notifications/initialized") {
        Route::Initialized
    } else if str_eq(method, "tools/list") {
        Route::ListTools
    } else if str_eq(method, "tools/call") {
        Route::CallTool
    } else if str_eq(method, "resources/list") {
        Route::ListResources
    } else if str_eq(method, "resources/templates/list") {
        Route::ListResourceTemplates
    } else if str_eq(method, "prompts/list") {
        Route::ListPrompts
    } else {
        Route::Unknown
    }
}

/// An error of the protocol.
pub struct RpcError {
    pub code: i64,
    pub message: &'static str,
}

/// An error of the protocol: its code and what it says.
pub open spec fn error_view(e: Option<RpcError>) -> Option<(i64, Seq<char>)> {
    match e {
        Some(e) => Some((e.code, e.message@)),
        None => None,
    }
}

/// The error that a request is answered with at once: a text that is no request, a
/// method that is not known, or a call of a tool beyond the limit of its second.
/// Only a call of a tool counts against the limit.
pub open spec fn refusal(
    method: Option<Seq<char>>,
    limiter: RateLimiter,
    now: u64,
) -> Option<(i64, Seq<char>)> {
    match method {
        None => Some((-32700i64, "Parse error"@)),
        Some(m) => match routed(m) {
            Route::Unknown => Some((-32601i64, "Method not found"@)),
            Route::CallTool => if limiter.allows(now) {
                None
            } else {
                Some((-32000i64, "Rate limit exceeded (max 50 req/s)"@))
            },
            _ => None,
        },
    }
}

/// The error that a request is answered with at once; the method is none where the
/// text is no request.
pub fn check_request(method: Option<&str>, limiter: &mut RateLimiter, now: u64) -> (r: Option<RpcError>)
    ensures
        error_view(r) == refusal(
            match method {
                Some(m) => Some(m@),
                None => None,
            },
            *old(limiter),
            now,
        ),
        *final(limiter) == (if method is Some && routed(method->0@) == Route::CallTool {
            old(limiter).after(now)
        } else {
            *old(limiter)
        }),
        method is None ==> (r matches Some(e) && e.code == -32700),
        method matches Some(m) ==> (r matches Some(e) && e.code == -32601 <==> m@ != "initialize"@
            && m@ != "notifications/initialized"@ && m@ != "tools/list"@ && m@ != "tools/call"@
            && m@ != "resources/list"@ && m@ != "resources/templates/list"@ && m@
            != "prompts/list"@),
        method matches Some(m) ==> m@ == "tools/call"@ ==> (r is None <==> if now > old(
            limiter).window_start {
            old(limiter).max_rps > 0
        } else {
            old(limiter).counter < old(limiter).max_rps
        }),
        method matches Some(m) ==> m@ != "tools/call"@ ==> *final(limiter) == *old(limiter),
{
    proof {
        reveal_strlit("initialize");
        reveal_strlit("notifications/initialized");
        reveal_strlit("tools/list");
        reveal_strlit("tools/call");
        reveal_strlit("resources/list");
        reveal_strlit("resources/templates/list");
        reveal_strlit("prompts/list");
        assert("tools/call"@.len() == 10 && "tools/call"@[6] == 'c');
        assert("initialize"@.len() == 10 && "initialize"@[0] == 'i');
        assert("tools/list"@.len() == 10 && "tools/list"@[6] == 'l');
        assert("notifications/initialized"@.len() == 25);
    }
    match method {
        None => Some(RpcError { code: -32700, message: "Parse error" }),
        Some(m) => match route(m) {
            Route::Unknown => Some(RpcError { code: -32601, message: "Method not found" }),
            Route::CallTool => {
                if limiter.allow_at(now) {
                    None
                } else {
                    Some(RpcError { code: -32000, message: "Rate limit exceeded (max 50 req/s)" })
                }
            },
            _ => None,
        },
    }
}

/// The name of the tool that the parameters of a call ask for.
pub open spec fn asked_tool(params: Json) -> Seq<char> {
    match text_of(field_of(params, "name"@)) {
        Some(name) => name,
        None => "unknown"@,
    }
}

/// The name of the tool that the parameters of a call ask for.
pub fn tool_name_of(params: &Json) -> (r: String)
    ensures
        r@ == asked_tool(*params),
{
    match as_text(params.get("name")) {
        Some(name) => name.to_owned(),
        None => "unknown".to_owned(),
    }
}

/// What came of a call of a tool that gave no result.
pub enum CallFailure {
    Failed(String),
    TimedOut,
}

/// What a call of a tool that gave no result is answered.
pub open spec fn failure_text(tool_name: Seq<char>, failure: CallFailure) -> Seq<char> {
    match failure {
        CallFailure::Failed(error) => "Error: "@ + error@,
        CallFailure::TimedOut => "Tool '"@ + tool_name + "' timed out after "@ + decimal(
            TOOL_TIMEOUT_SECS as nat,
        )
            + "s. Try narrowing the search scope or using includes/excludes filters."@,
    }
}

/// What a call of a tool that gave no result is answered.
pub fn describe_failure(tool_name: &str, failure: &CallFailure) -> (r: String)
    ensures
        r@ == failure_text(tool_name@, *failure),
{
    match failure {
        CallFailure::Failed(error) => {
            let mut text = "Error: ".to_owned();
            text.append(error.as_str());
            text
        },
        CallFailure::TimedOut => {
            let mut text = "Tool '".to_owned();
            text.append(tool_name);
            text.append("' timed out after ");
            text.append(u64_decimal(TOOL_TIMEOUT_SECS).as_str());
            text.append("s. Try narrowing the search scope or using includes/excludes filters.");
            text
        },
    }
}

/// The answer carries the text in the form that clients read: a list of one item,
/// which is a text, with a mark where the text tells of an error.
pub open spec fn is_tool_answer(answer: Json, text: Seq<char>, is_error: bool) -> bool {
    let items = items_of(field_of(answer, "content"@));
    &&& items.len() == 1
    &&& text_of(field_of(items[0], "type"@)) == Some("text"@)
    &&& text_of(field_of(items[0], "text"@)) == Some(text)
    &&& field_of(answer, "isError"@) == (if is_error {
        Some(Json::Bool(true))
    } else {
        None
    })
}

/// What a call of a tool is answered with: the text of its result, or the words of
/// its failure.
pub fn tool_answer(text: &str, is_error: bool) -> (r: Json)
    ensures
        r is Object,
        is_tool_answer(r, text@, is_error),
        forall|key: Seq<char>|
            key != "content"@ && key != "isError"@ ==> #[trigger] field_of(r, key) is None,
{
    proof {
        reveal_strlit("content");
        reveal_strlit("isError");
        reveal_strlit("type");
        reveal_strlit("text");
        assert("content"@[0] != "isError"@[0]);
        assert("type"@[1] != "text"@[1]);
    }
    let mut item = Json::Null;
    insert_object_field(&mut item, "type", Json::Text("text".to_owned()));
    insert_object_field(&mut item, "text", Json::Text(text.to_owned()));
    let mut answer = Json::Null;
    if is_error {
        insert_object_field(&mut answer, "isError", Json::Bool(true));
    }
    let mut items: Vec<Json> = Vec::new();
    items.push(item);
    insert_object_field(&mut answer, "content", Json::Array(items));
    answer
}

} // verus!
