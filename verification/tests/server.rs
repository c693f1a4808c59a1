use codeloupe_mcp::common::{
    bounded_walk_threads, canonicalize_if_exists, default_tool_root, discover_workspace_root,
    looks_like_workspace_root, push_unique_path, resolve_tool_path, tool_roots,
    unix_timestamp_secs, uri_to_path, PathFact,
};
use codeloupe_mcp::indexer::runtime::{get_active_runtime_snapshot, get_runtime_snapshots, IndexState};
use codeloupe_mcp::indexer::updates::{ensure_workspace_index, IndexSettings, StoredIndex};
use codeloupe_mcp::json::{as_text, ensure_object, insert_object_field, Json, JsonField, JsonNumber};
use codeloupe_mcp::paths::{lexical_normalize, parent_path};
use codeloupe_mcp::requests::{
    check_request, describe_failure, route, tool_answer, tool_name_of, CallFailure, Route,
};
use codeloupe_mcp::security::rate_limiter::RateLimiter;
use codeloupe_mcp::sorted_map::SortedMap;
use codeloupe_mcp::tools::batch_tool_call::{
    extract_text_payload, flatten_tool_result, plan_batch, refused_text, FlatResult,
};
use codeloupe_mcp::tools::content_zones::{
    check_paths, content_status_for_paths, is_settled, plan_warming, wait_time, zones_by_state,
    zones_from_statuses, StatusPath,
};
use codeloupe_mcp::tools::registry::{called_tool, find_tool, list_tools, Tool};
use codeloupe_mcp::tools::resolve_path::resolve_path;
use codeloupe_mcp::tools::server_health::{primary_runtime, report_health};
use codeloupe_mcp::transport::{
    parse_content_length_header, read_body, read_step, write_response, ReadState, ReadStep,
    TransportMode,
};
use codeloupe_mcp::workspaces::{
    capture_roots, explicit_workspace_root, extract_index_roots,
    infer_workspace_roots_from_tool_arguments, start_targets, EnvRoot,
};

fn text(s: &str) -> Json {
    Json::Text(s.to_string())
}

fn object(fields: Vec<(&str, Json)>) -> Json {
    Json::Object(
        fields
            .into_iter()
            .map(|(key, value)| JsonField { key: key.to_string(), value })
            .collect(),
    )
}

fn fact(path: &str, is_dir: bool, markers: &[&str]) -> PathFact {
    PathFact {
        path: path.to_string(),
        is_dir,
        canonical: Some(path.to_string()),
        markers: markers.iter().map(|m| m.to_string()).collect(),
    }
}

fn folders(uris: &[&str]) -> Json {
    let list = uris.iter().map(|uri| object(vec![("uri", text(uri))])).collect();
    object(vec![("workspaceFolders", Json::Array(list))])
}

fn settings() -> IndexSettings {
    IndexSettings {
        storage_dir: "/cache/x".to_string(),
        map_size_bytes: 1,
        content_enabled: true,
        stale_after_secs: 3_600,
    }
}

fn start(state: &mut IndexState, facts: &[PathFact], init: &Json, current: &str) {
    let mut client = Vec::new();
    capture_roots(&mut client, extract_index_roots(init, facts, false));
    let targets = start_targets(facts, &client, &[], &Some(current.to_string()));
    for target in targets {
        ensure_workspace_index(
            state,
            &target.root,
            true,
            &target.source,
            &settings(),
            &StoredIndex::Missing,
            10,
        );
    }
}

#[test]
fn messages_are_read_in_both_modes() {
    let line = "{\"jsonrpc\":\"2.0\"}\n";
    match read_step(ReadState::Start, Some(line)) {
        ReadStep::Message { text, mode, bytes } => {
            assert_eq!(text, line);
            assert_eq!(mode, TransportMode::Line);
            assert_eq!(bytes, line.len());
        }
        _ => panic!("message"),
    }
    assert!(matches!(
        read_step(ReadState::Start, Some("\r\n")),
        ReadStep::Again(ReadState::Start)
    ));
    assert!(matches!(
        read_step(ReadState::Start, Some("hello\n")),
        ReadStep::Message { mode: TransportMode::Line, .. }
    ));
    assert!(matches!(read_step(ReadState::Start, None), ReadStep::End));
    let ReadStep::Again(headers) = read_step(ReadState::Start, Some("content-length : 5\r\n")) else {
        panic!("headers")
    };
    let ReadStep::Again(headers) = read_step(headers, Some("Content-Type: x\r\n")) else {
        panic!("headers")
    };
    match read_step(headers, Some("\r\n")) {
        ReadStep::Body { length, header_bytes } => {
            assert_eq!(length, 5);
            assert_eq!(header_bytes, 20 + 17 + 2);
        }
        _ => panic!("body"),
    }
    assert!(matches!(
        read_step(headers, None),
        ReadStep::Failed("Unexpected EOF while reading MCP framed headers")
    ));
    let ReadStep::Again(bare) = read_step(ReadState::Start, Some("X: y\n")) else {
        panic!("headers")
    };
    assert!(matches!(
        read_step(bare, Some("\n")),
        ReadStep::Failed("Missing Content-Length header in MCP frame")
    ));
    assert_eq!(read_body(b"hello", 39), Some(("hello".to_string(), 44)));
    assert_eq!(read_body(&[0xff], 1), None);
}

#[test]
fn what_is_written_is_read_back() {
    let (framed, bytes) = write_response("{\"a\":\"ü\"}", TransportMode::Framed);
    assert_eq!(framed, "Content-Length: 10\r\n\r\n{\"a\":\"ü\"}");
    assert_eq!(bytes, framed.len());
    let (head, rest) = framed.split_at(framed.find('\n').unwrap() + 1);
    let ReadStep::Again(state) = read_step(ReadState::Start, Some(head)) else {
        panic!("headers")
    };
    let ReadStep::Body { length, header_bytes } = read_step(state, Some("\r\n")) else {
        panic!("body")
    };
    let body = &rest.as_bytes()[2..];
    assert_eq!(length, body.len());
    assert_eq!(read_body(body, header_bytes).unwrap().0, "{\"a\":\"ü\"}");
    let (line, bytes) = write_response("{}", TransportMode::Line);
    assert_eq!((line.as_str(), bytes), ("{}\n", 3));
}

#[test]
fn lengths_of_headers() {
    assert_eq!(parse_content_length_header("Content-Length: 12\r\n"), Some(12));
    assert_eq!(parse_content_length_header("CONTENT-LENGTH:+7"), Some(7));
    assert_eq!(parse_content_length_header("Content-Length: x"), None);
    assert_eq!(parse_content_length_header("Length: 12"), None);
    assert_eq!(parse_content_length_header("Content-Length 12"), None);
}

#[test]
fn requests_are_routed_and_refused() {
    assert_eq!(route("initialize"), Route::Initialize);
    assert_eq!(route("notifications/initialized"), Route::Initialized);
    assert_eq!(route("tools/list"), Route::ListTools);
    assert_eq!(route("resources/templates/list"), Route::ListResourceTemplates);
    assert_eq!(route("tools/dance"), Route::Unknown);
    let mut limiter = RateLimiter::starting_at(2, 100);
    let code = |limiter: &mut RateLimiter, method: Option<&str>| {
        check_request(method, limiter, 100).map(|e| (e.code, e.message))
    };
    assert_eq!(code(&mut limiter, None), Some((-32700, "Parse error")));
    assert_eq!(code(&mut limiter, Some("nope")), Some((-32601, "Method not found")));
    assert_eq!(code(&mut limiter, Some("tools/call")), None);
    assert_eq!(code(&mut limiter, Some("tools/list")), None);
    assert_eq!(code(&mut limiter, Some("tools/call")), None);
    assert_eq!(
        code(&mut limiter, Some("tools/call")),
        Some((-32000, "Rate limit exceeded (max 50 req/s)"))
    );
    assert!(limiter.allow_at(101));
    assert_eq!(describe_failure("t", &CallFailure::Failed("no".to_string())), "Error: no");
    assert_eq!(
        describe_failure("t", &CallFailure::TimedOut),
        "Tool 't' timed out after 60s. Try narrowing the search scope or using includes/excludes filters."
    );
    assert_eq!(tool_name_of(&object(vec![])), "unknown");
    assert_eq!(tool_name_of(&object(vec![("name", text("x"))])), "x");
}

#[test]
fn the_limit_holds_within_a_second() {
    let mut limiter = RateLimiter::starting_at(3, 7);
    let allowed = (0..10).filter(|_| limiter.allow_at(7)).count();
    assert_eq!(allowed, 3);
    let allowed = (0..10).filter(|_| limiter.allow_at(8)).count();
    assert_eq!(allowed, 3);
    let mut none = RateLimiter::starting_at(0, 100);
    assert!(!none.allow_at(100));
    assert!(!none.allow_at(101));
    assert!(!none.allow_at(101));
    let mut now = RateLimiter::new(1_000_000);
    assert!(now.allow());
    assert!(unix_timestamp_secs() > 1_600_000_000);
}

#[test]
fn test_git_related_tools_are_not_exposed_or_dispatchable() {
    let removed_tools = [
        "git_status",
        "git_diff",
        "git_log",
        "git_blame",
        "get_semantic_diff",
        "markdown_outline",
        "read_markdown_section",
        "replace_markdown_section",
        "find_json_paths",
        "extract_json_schema",
        "sqlite_inspect",
        "diff_two_snippets",
        "history_status",
        "undo_last_change",
        "redo_last_change",
    ];
    let listed = list_tools();
    for removed in removed_tools {
        assert!(!listed.contains(&removed), "{removed} should not be exposed");
        let params = object(vec![("name", text(removed)), ("arguments", object(vec![]))]);
        assert!(called_tool(&params).is_err(), "{removed} should not dispatch");
    }
}

#[test]
fn test_compare_directories_is_exposed_and_dispatchable() {
    assert!(list_tools().contains(&"compare_directories"));
    let params = object(vec![("name", text("compare_directories"))]);
    assert_eq!(called_tool(&params), Ok(Tool::CompareDirectories));
    for name in list_tools() {
        assert!(find_tool(name).is_some());
    }
    let unknown = called_tool(&object(vec![("name", text("x"))]));
    assert_eq!(unknown, Err("Tool not found: x".to_string()));
}

#[test]
fn test_content_index_tools_are_exposed_and_report_path_status() {
    assert!(list_tools().contains(&"content_index_status"));
    assert!(list_tools().contains(&"warm_content_index"));
    let state = IndexState::new(false);
    let paths = [StatusPath { canonical: "/w".to_string(), is_file: false }];
    let statuses = content_status_for_paths(&state, &paths);
    assert_eq!(statuses.len(), 1);
    assert_eq!(statuses[0].status, "outside_workspace");
    assert_eq!(statuses[0].zone, None);
    assert!(is_settled(&statuses));
    assert!(zones_from_statuses(&statuses).is_empty());
    assert!(zones_by_state(&statuses, true).is_empty());
    assert!(plan_warming(&state, &paths, true).is_empty());
    assert_eq!(wait_time(Some(0)), 0);
    assert_eq!(wait_time(Some(99_999)), 30_000);
    assert_eq!(wait_time(None), 0);
    assert_eq!(check_paths(&None), Err("Missing paths"));
    assert_eq!(check_paths(&Some(vec![])), Err("paths must contain at least one path"));
    assert!(check_paths(&Some(vec!["/w".to_string()])).is_ok());
}

#[test]
fn test_batch_tool_call_flattens_inner_tool_payloads() {
    let args = object(vec![(
        "calls",
        Json::Array(vec![
            object(vec![
                ("tool", text("resolve_path")),
                ("args", object(vec![("path", text("/w/sample.txt"))])),
            ]),
            object(vec![("tool", text("batch_tool_call"))]),
        ]),
    )]);
    let calls = plan_batch(&args).ok().unwrap();
    assert_eq!(calls[0].tool, "resolve_path");
    assert!(!calls[0].refused);
    assert!(calls[0].args.is_some());
    assert!(calls[1].refused);
    assert_eq!(refused_text(), "Recursive batch_tool_call is not allowed");
    let payload = "{\"canonical_path\":\"/w/sample.txt\"}";
    let result = object(vec![(
        "content",
        Json::Array(vec![object(vec![("type", text("text")), ("text", text(payload))])]),
    )]);
    assert_eq!(extract_text_payload(&result).as_deref(), Some(payload));
    assert!(matches!(flatten_tool_result(&result), FlatResult::Text(t) if t == payload));
    let failed = object(vec![("isError", Json::Bool(true))]);
    assert!(matches!(
        flatten_tool_result(&failed),
        FlatResult::Failed(t) if t == "Unknown tool error"
    ));
    assert!(matches!(flatten_tool_result(&object(vec![])), FlatResult::Whole));
}

#[test]
fn batches_are_limited() {
    let many = (0..21).map(|_| object(vec![("tool", text("x"))])).collect();
    let args = object(vec![("calls", Json::Array(many))]);
    assert_eq!(
        plan_batch(&args).err(),
        Some("batch_tool_call accepts at most 20 calls per request")
    );
    assert_eq!(plan_batch(&object(vec![])).err(), Some("Missing 'calls' array"));
    let none = object(vec![("calls", Json::Array(Vec::new()))]);
    assert_eq!(plan_batch(&none).ok().unwrap().len(), 0);
}

#[test]
fn test_server_health_disables_index_when_process_cwd_is_not_a_workspace() {
    let mut state = IndexState::new(false);
    start(&mut state, &[fact("/cwd", true, &[])], &object(vec![]), "/cwd");
    let sizes: SortedMap<u64> = SortedMap::new();
    let runtimes = get_runtime_snapshots(&state, &sizes);
    let report = report_health(&runtimes, 5, 9);
    assert_eq!(report.index_status, "disabled");
    assert_eq!(report.uptime_seconds, 4);
    let active = get_active_runtime_snapshot(&state, &sizes);
    assert!(primary_runtime(&active, &runtimes).is_none());
}

#[test]
fn test_server_health_can_fallback_to_project_like_process_cwd() {
    let mut state = IndexState::new(false);
    start(&mut state, &[fact("/cwd", true, &["Cargo.toml"])], &object(vec![]), "/cwd");
    let sizes: SortedMap<u64> = SortedMap::new();
    let runtimes = get_runtime_snapshots(&state, &sizes);
    let report = report_health(&runtimes, 5, 5);
    assert!(matches!(report.index_status, "idle" | "active"));
    let active = get_active_runtime_snapshot(&state, &sizes);
    let primary = primary_runtime(&active, &runtimes).unwrap();
    assert_eq!(primary.workspace_source, "process_current_dir");
    assert_eq!(primary.workspace_root, "/cwd");
}

#[test]
fn test_server_health_uses_client_workspace_root() {
    let mut state = IndexState::new(false);
    let facts = [fact("/cwd", true, &[]), fact("/workspace", true, &[])];
    start(&mut state, &facts, &folders(&["file:////workspace"]), "/cwd");
    let sizes: SortedMap<u64> = SortedMap::new();
    let runtimes = get_runtime_snapshots(&state, &sizes);
    let active = get_active_runtime_snapshot(&state, &sizes);
    let primary = primary_runtime(&active, &runtimes).unwrap();
    assert_eq!(primary.workspace_source, "client_initialize");
    assert_eq!(primary.workspace_root, "/workspace");
}

#[test]
fn test_server_health_reports_multiple_client_workspaces() {
    let mut state = IndexState::new(false);
    let facts = [fact("/a", true, &[]), fact("/b", true, &[])];
    let init = folders(&["file:////a", "file:////b", "file:////a"]);
    start(&mut state, &facts, &init, "/cwd");
    let sizes: SortedMap<u64> = SortedMap::new();
    let runtimes = get_runtime_snapshots(&state, &sizes);
    assert_eq!(report_health(&runtimes, 0, 0).index_workspace_count, 2);
    assert!(runtimes.iter().all(|r| r.workspace_source == "client_initialize"));
    let mut roots: Vec<String> = runtimes.iter().map(|r| r.workspace_root.clone()).collect();
    roots.sort();
    assert_eq!(roots, vec!["/a".to_string(), "/b".to_string()]);
}

#[test]
fn test_tool_call_auto_indexes_workspace_from_request_path() {
    let mut state = IndexState::new(false);
    let facts = [
        fact("/workspace", true, &["Cargo.toml"]),
        fact("/workspace/src", true, &[]),
        fact("/workspace/src/lib.rs", false, &[]),
    ];
    let arguments = object(vec![("path", text("/workspace/src/lib.rs"))]);
    let roots = infer_workspace_roots_from_tool_arguments(&state, &facts, &[], &arguments);
    assert_eq!(roots, vec!["/workspace".to_string()]);
    ensure_workspace_index(
        &mut state,
        &roots[0],
        true,
        "tool_call:read_file_range",
        &settings(),
        &StoredIndex::Missing,
        10,
    );
    let sizes: SortedMap<u64> = SortedMap::new();
    let active = get_active_runtime_snapshot(&state, &sizes).unwrap();
    assert_eq!(active.workspace_root, "/workspace");
    assert_eq!(active.last_request_source.as_deref(), Some("tool_call:read_file_range"));
}

#[test]
fn test_tool_call_switches_active_workspace_context() {
    let mut state = IndexState::new(false);
    let facts = [
        fact("/a", true, &["Cargo.toml"]),
        fact("/b", true, &["Cargo.toml"]),
        fact("/b/src", true, &[]),
        fact("/b/src/lib.rs", false, &[]),
    ];
    start(&mut state, &facts, &folders(&["file:////a"]), "/cwd");
    let arguments = object(vec![("paths", Json::Array(vec![text("/b/src/lib.rs")]))]);
    for root in infer_workspace_roots_from_tool_arguments(&state, &facts, &[], &arguments) {
        ensure_workspace_index(
            &mut state,
            &root,
            true,
            "tool_call:read_file_range",
            &settings(),
            &StoredIndex::Missing,
            20,
        );
    }
    let sizes: SortedMap<u64> = SortedMap::new();
    assert_eq!(get_active_runtime_snapshot(&state, &sizes).unwrap().workspace_root, "/b");
    assert_eq!(get_runtime_snapshots(&state, &sizes).len(), 2);
}

#[test]
fn test_tool_calls_resolve_relative_paths_against_client_workspace_root() {
    let facts = [
        fact("/p/space root", true, &["Cargo.toml"]),
        fact("/p/space root/src", true, &[]),
        fact("/p/space root/src/lib.rs", false, &[]),
        fact("/cwd", true, &[]),
    ];
    let active = Some("/p/space root".to_string());
    let current = Some("/cwd".to_string());
    let roots = tool_roots(&facts, &active, &["/p/space root".to_string()], &current, false);
    assert_eq!(
        resolve_tool_path(&facts, &roots, "src/lib.rs"),
        "/p/space root/src/lib.rs"
    );
    let resolved = resolve_path(&facts, &active, &current, &roots, "src/lib.rs").ok().unwrap();
    assert_eq!(resolved.resolution_basis, "active_index_workspace");
    assert_eq!(resolved.repo_root.as_deref(), Some("/p/space root"));
    assert!(resolved.input_was_relative);
    assert!(resolved.exists);
    assert_eq!(default_tool_root(&facts, &active, &current), "/p/space root");
}

#[test]
fn test_tool_calls_resolve_relative_paths_against_client_workspace_root_only() {
    let facts = [
        fact("/tmp/workspace", true, &["Cargo.toml"]),
        fact("/tmp/workspace/src", true, &[]),
        fact("/tmp/workspace/src/lib.rs", false, &[]),
        fact("/tmp/current", true, &[]),
    ];
    let folder = folders(&["file:////tmp/workspace"]);
    let captured = extract_index_roots(&folder, &facts, false);
    assert_eq!(captured, vec!["/tmp/workspace"]);
    let active = Some(captured[0].clone());
    let current = Some("/tmp/current".to_string());
    let roots = tool_roots(&facts, &active, &captured, &current, false);
    let path = resolve_tool_path(&facts, &roots, "src/lib.rs");
    assert_eq!(path, "/tmp/workspace/src/lib.rs");
    let resolved = resolve_path(&facts, &active, &current, &roots, "src/lib.rs").ok().unwrap();
    assert_eq!(resolved.resolution_basis, "active_index_workspace");
    assert_eq!(resolved.repo_root.as_deref(), Some("/tmp/workspace"));
}

#[test]
fn paths_are_resolved_with_their_basis() {
    let facts = [fact("/w", true, &[".git"]), fact("/w/a.rs", false, &[])];
    let none = None;
    let empty = resolve_path(&facts, &none, &none, &[], "");
    assert_eq!(empty.err(), Some("Path cannot be empty"));
    let absolute = resolve_path(&facts, &none, &none, &[], "/w/./a.rs").ok().unwrap();
    assert_eq!(absolute.resolution_basis, "absolute_input");
    assert_eq!(absolute.canonical_path, "/w/a.rs");
    let uri = resolve_path(&facts, &none, &none, &[], "file:////w/a.rs").ok().unwrap();
    assert_eq!(uri.resolution_basis, "file_uri");
    assert!(!uri.input_was_relative);
    assert_eq!(uri.repo_root.as_deref(), Some("/w"));
}

#[test]
fn paths_and_roots() {
    assert_eq!(lexical_normalize("/a/./b/../c"), "/a/c");
    assert_eq!(lexical_normalize(""), ".");
    assert_eq!(lexical_normalize("a/.."), ".");
    assert_eq!(lexical_normalize("./a/./b/"), "a/b");
    assert_eq!(lexical_normalize("/"), "/");
    assert_eq!(lexical_normalize(&lexical_normalize("a/../../b")), lexical_normalize("a/../../b"));
    assert_eq!(parent_path("/a/b").as_deref(), Some("/a"));
    assert_eq!(uri_to_path("file:///C:/x%20y").as_deref(), Some("C:/x y"));
    assert_eq!(uri_to_path("http://x"), None);
    let facts = [fact("/w", true, &["go.mod"]), fact("/w/src", true, &[])];
    assert!(looks_like_workspace_root(&facts, "/w"));
    assert!(!looks_like_workspace_root(&facts, "/w/src"));
    assert_eq!(discover_workspace_root(&facts, "/w/src").as_deref(), Some("/w"));
    assert_eq!(canonicalize_if_exists(&facts, "/x/../y"), "/y");
    let mut list = vec!["/a".to_string()];
    push_unique_path(&mut list, "\\a".to_string(), false);
    push_unique_path(&mut list, "/A".to_string(), false);
    push_unique_path(&mut list, "/B".to_string(), true);
    assert_eq!(list, vec!["/a".to_string(), "/A".to_string(), "/B".to_string()]);
    assert_eq!(bounded_walk_threads(Some(99), None), 6);
    assert_eq!(bounded_walk_threads(None, Some(16)), 4);
    assert_eq!(bounded_walk_threads(None, None), 2);
}

#[test]
fn roots_of_the_client_and_the_environment() {
    let facts = [fact("/a", true, &[]), fact("/f.txt", false, &[]), fact("/b", true, &[])];
    let params = object(vec![
        ("clientInfo", object(vec![("workspaceRoot", text("/a"))])),
        (
            "roots",
            Json::Array(vec![
                object(vec![("uri", text("file:////f.txt"))]),
                object(vec![("uri", text("https://x/y"))]),
            ]),
        ),
        ("rootUri", text("/b")),
        ("version", Json::Number(JsonNumber { text: "1".to_string(), is_integer: true })),
    ]);
    assert_eq!(
        extract_index_roots(&params, &facts, false),
        vec!["/a".to_string(), "/b".to_string()]
    );
    let vars = [
        EnvRoot { name: "FIRST", value: None },
        EnvRoot { name: "SECOND", value: Some("/b".to_string()) },
    ];
    let named = explicit_workspace_root(&vars).unwrap();
    assert_eq!((named.root.as_str(), named.source.as_str()), ("/b", "env:SECOND"));
    let targets = start_targets(&facts, &[], &vars, &None);
    assert_eq!(targets[0].source, "env:SECOND");
    let mut kept = vec!["/a".to_string()];
    capture_roots(&mut kept, vec!["/b".to_string()]);
    assert_eq!(kept, vec!["/a".to_string()]);
}

#[test]
fn fields_are_set_once() {
    let mut value = text("no object");
    ensure_object(&mut value);
    assert!(matches!(&value, Json::Object(fields) if fields.is_empty()));
    insert_object_field(&mut value, "a", text("1"));
    insert_object_field(&mut value, "b", text("2"));
    insert_object_field(&mut value, "a", text("3"));
    assert_eq!(as_text(value.get("a")), Some("3"));
    assert_eq!(as_text(value.get("b")), Some("2"));
    assert!(matches!(&value, Json::Object(fields) if fields.len() == 2));
    let mut list = Json::Array(vec![text("x")]);
    insert_object_field(&mut list, "k", Json::Null);
    assert!(matches!(list.get("k"), Some(Json::Null)));
}

#[test]
fn answers_are_read_back_by_a_sequence() {
    let fine = tool_answer("{\"a\":1}", false);
    assert!(fine.get("isError").is_none());
    assert!(matches!(flatten_tool_result(&fine), FlatResult::Text(t) if t == "{\"a\":1}"));
    let failed = tool_answer("no such file", true);
    assert!(matches!(failed.get("isError"), Some(Json::Bool(true))));
    assert!(matches!(flatten_tool_result(&failed), FlatResult::Failed(t) if t == "no such file"));
}
