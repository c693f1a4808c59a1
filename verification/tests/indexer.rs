use codeloupe_mcp::indexer::candidates::{
    begin_content_refresh, finish_content_refresh, query_tantivy_content_candidates, ContentPath,
};
use codeloupe_mcp::indexer::content::{
    content_policy_allows, content_zone_for_path, indexable_text, is_tantivy_query_compatible,
    path_tokens_for_tantivy, plan_zone_refresh, ContentPolicy, ContentRefreshSummary, ZoneAction,
};
use codeloupe_mcp::indexer::path_index::{IndexedPathRecord, PathIndex};
use codeloupe_mcp::indexer::refresh::{
    check_meta, children_by_parent, collect_workspace_entries, indexed_entry_from_metadata, summarize_entries, FoundPath,
};
use codeloupe_mcp::indexer::runtime::{
    get_active_runtime_snapshot, get_runtime_snapshots, indexed_entries_under,
    indexed_workspace_root_for_path, is_path_index_available, is_path_index_ready,
    query_path_candidates, IndexState,
};
use codeloupe_mcp::indexer::settings::{
    hash_workspace_root, hex_of, index_map_size_bytes, index_storage_dir_for_workspace,
    normalize_path_for_identity, path_belongs_to_workspace, stale_index_after_secs,
    tantivy_enabled, StorageDirs,
};
use codeloupe_mcp::indexer::updates::{
    begin_refresh, ensure_runtime_loaded, ensure_workspace_index, finish_refresh, knows_workspace,
    persist_content_status, record_content_status, refresh_meta, should_refresh, IndexSettings,
    StoredIndex,
};
use codeloupe_mcp::sorted_map::SortedMap;

fn settings() -> IndexSettings {
    IndexSettings {
        storage_dir: "/cache/x".to_string(),
        map_size_bytes: 4_294_967_296,
        content_enabled: true,
        stale_after_secs: 3_600,
    }
}

fn file(path: &str, size: u64) -> FoundPath {
    FoundPath { path: path.to_string(), is_dir: false, size, modified_at: 7 }
}

fn directory(path: &str) -> FoundPath {
    FoundPath { path: path.to_string(), is_dir: true, size: 0, modified_at: 7 }
}

fn indexed_state(root: &str, found: &[FoundPath]) -> IndexState {
    let mut state = IndexState::new(false);
    let key = normalize_path_for_identity(root, false);
    ensure_runtime_loaded(&mut state, &key, root, "test", &settings(), &StoredIndex::Missing);
    assert!(begin_refresh(&mut state, &key, 100));
    let entries = collect_workspace_entries(root, found, 100);
    let summary = summarize_entries(&entries, 110);
    finish_refresh(&mut state, &key, root, &Ok((summary, entries)));
    state
}

#[test]
fn workspace_hash_is_stable() {
    let root = "C:/browser/chromium/src";
    assert_eq!(hash_workspace_root(root, false), hash_workspace_root(root, false));
}

#[test]
fn workspace_hash_tells_roots_apart() {
    assert_ne!(hash_workspace_root("/a", false), hash_workspace_root("/b", false));
    assert_eq!(hash_workspace_root("/A", true), hash_workspace_root("/a", true));
    assert_eq!(hash_workspace_root("/a", false).len(), 16);
}

#[test]
fn children_records_store_names_only() {
    let found = vec![directory("/w/src"), file("/w/src/lib.rs", 13)];
    let entries = collect_workspace_entries("/w", &found, 1);
    let children = children_by_parent(&entries);
    assert_eq!(children.get("src"), Some(&vec!["lib.rs".to_string()]));
}

#[test]
fn lmdb_upsert_load_delete_roundtrip() {
    let found = vec![file("/w/a.rs", 10)];
    let entries = collect_workspace_entries("/w", &found, 1);
    assert_eq!(summarize_entries(&entries, 2).files, 1);
    assert_eq!(PathIndex::from_entries("/w", &entries).live_entries(), 1);
    let none = collect_workspace_entries("/w", &[], 3);
    assert_eq!(summarize_entries(&none, 3).files, 0);
    assert_eq!(PathIndex::from_entries("/w", &none).live_entries(), 0);
}

#[test]
fn content_status_persists_to_lmdb_meta() {
    let root = "/w";
    let key = normalize_path_for_identity(root, false);
    let mut state = indexed_state(root, &[directory("/w/base"), file("/w/base/a.rs", 23)]);
    let entries = collect_workspace_entries(
        root,
        &[directory("/w/base"), file("/w/base/a.rs", 23)],
        100,
    );
    let summary = summarize_entries(&entries, 110);
    let mut meta = refresh_meta(&state, &key, root, &summary, true);
    let at = state.runtimes.find(&key).unwrap();
    record_content_status(
        &mut state.runtimes.values[at],
        "ready",
        &Some("base".to_string()),
        false,
        1,
        24,
    );
    persist_content_status(&mut meta, &state.runtimes.values[at], true, 120);
    assert_eq!(meta.content_index_status, "ready");
    assert_eq!(meta.content_index_zones, vec!["base".to_string()]);
    assert!(!meta.content_index_partial);
    assert_eq!(meta.indexed_content_files, 1);
    assert_eq!(meta.indexed_content_bytes, 24);
    assert!(check_meta(&meta, root, false).is_ok());
    assert!(check_meta(&meta, "/other", false).is_err());
}

#[test]
fn content_policy_respects_extension_size_and_third_party_scope() {
    let policy = ContentPolicy {
        max_file_bytes: 100,
        max_zone_bytes: 1_000,
        max_workspace_bytes: 1_000,
    };
    let mut record = IndexedPathRecord {
        path: "src/lib.rs".to_string(),
        relative_path: "src/lib.rs".to_string(),
        file_name: "lib.rs".to_string(),
        extension_lower: "rs".to_string(),
        is_dir: false,
        size: 50,
        modified_at: 1,
    };

    assert!(content_policy_allows(&record, &policy, false));
    record.size = 101;
    assert!(!content_policy_allows(&record, &policy, false));

    record.size = 50;
    record.extension_lower = "png".to_string();
    assert!(!content_policy_allows(&record, &policy, false));

    record.extension_lower = "cc".to_string();
    record.relative_path = "third_party/lib/a.cc".to_string();
    assert!(!content_policy_allows(&record, &policy, false));
    assert!(content_policy_allows(&record, &policy, true));
}

#[test]
fn settings_fall_back_to_defaults() {
    assert_eq!(stale_index_after_secs(&None), 3_600);
    assert_eq!(stale_index_after_secs(&Some("90".to_string())), 90);
    assert_eq!(stale_index_after_secs(&Some("0".to_string())), 3_600);
    assert_eq!(stale_index_after_secs(&Some("soon".to_string())), 3_600);
    assert_eq!(index_map_size_bytes(&Some("2".to_string())), 2 * 1024 * 1024);
    assert!(tantivy_enabled(&None));
    assert!(!tantivy_enabled(&Some("OFF".to_string())));
    assert!(tantivy_enabled(&Some("yes".to_string())));
    let policy = ContentPolicy::from_settings(&Some("5".to_string()), &None, &None);
    assert_eq!(policy.max_file_bytes, 5);
    assert_eq!(policy.max_zone_bytes, 1_073_741_824);
    assert_eq!(policy.max_workspace_bytes, 4_294_967_296);
}

#[test]
fn storage_lies_below_the_chosen_directory() {
    let dirs = StorageDirs {
        custom: None,
        local_app_data: None,
        cache_home: Some("/cache".to_string()),
        home: Some("/home/me".to_string()),
        temp: "/tmp".to_string(),
    };
    let place = index_storage_dir_for_workspace(&dirs, "/w", false);
    let hash = hash_workspace_root("/w", false);
    assert_eq!(place, format!("/cache/codeloupe-mcp/index-v2/{hash}"));
    assert_eq!(hex_of(255), "00000000000000ff");
}

#[test]
fn workspaces_hold_what_lies_below_them() {
    assert!(path_belongs_to_workspace("/w", "/w/src/a.rs", false));
    assert!(path_belongs_to_workspace("/w", "/w", false));
    assert!(!path_belongs_to_workspace("/w", "/work", false));
}

#[test]
fn an_indexed_path_is_found_again() {
    let state = indexed_state(
        "/w",
        &[directory("/w/src"), file("/w/src/main.rs", 12), file("/w/readme.md", 3)],
    );
    assert!(is_path_index_ready(&state, "/w/src"));
    assert!(is_path_index_available(&state, "/w"));
    assert!(!is_path_index_available(&state, "/elsewhere"));
    assert_eq!(
        indexed_workspace_root_for_path(&state, "/w/src/main.rs").as_deref(),
        Some("/w")
    );
    assert_eq!(indexed_workspace_root_for_path(&state, "/x"), None);
    let below = indexed_entries_under(&state, "/w/src").unwrap();
    let names: Vec<String> = below.iter().map(|r| r.relative_path.clone()).collect();
    assert!(names.contains(&"src/main.rs".to_string()));
    assert!(!names.contains(&"readme.md".to_string()));
    let offers = query_path_candidates(&state, "/w", "main", 10).unwrap();
    assert!(offers.iter().any(|c| c.path == "/w/src/main.rs"));
    assert!(offers.iter().all(|c| c.path != "/w/readme.md"));
}

#[test]
fn snapshots_tell_what_is_known() {
    let mut state = indexed_state("/w", &[file("/w/a.rs", 1)]);
    let mut sizes: SortedMap<u64> = SortedMap::new();
    sizes.insert("/cache/x", 77);
    let all = get_runtime_snapshots(&state, &sizes);
    assert_eq!(all.len(), 1);
    assert_eq!(all[0].workspace_root, "/w");
    assert_eq!(all[0].indexed_files_count, 1);
    assert_eq!(all[0].metadata_index_status, "complete");
    assert_eq!(all[0].index_size_bytes, 77);
    assert!(get_active_runtime_snapshot(&state, &sizes).is_none());
    let asked = ensure_workspace_index(
        &mut state,
        "/w",
        true,
        "tool_call:text_search",
        &settings(),
        &StoredIndex::Missing,
        200,
    );
    assert!(!asked);
    let active = get_active_runtime_snapshot(&state, &sizes).unwrap();
    assert_eq!(active.last_request_source.as_deref(), Some("tool_call:text_search"));
}

#[test]
fn a_new_workspace_is_scanned_and_a_missing_one_is_not() {
    let mut state = IndexState::new(false);
    assert!(ensure_workspace_index(
        &mut state,
        "/w",
        true,
        "client_initialize",
        &settings(),
        &StoredIndex::Missing,
        10,
    ));
    assert!(knows_workspace(&state, "/w"));
    assert!(!ensure_workspace_index(
        &mut state,
        "/gone",
        false,
        "client_initialize",
        &settings(),
        &StoredIndex::Missing,
        10,
    ));
    assert!(!knows_workspace(&state, "/gone"));
}

#[test]
fn a_stale_index_is_refreshed() {
    let state = indexed_state("/w", &[file("/w/a.rs", 1)]);
    let runtime = &state.runtimes.values[0];
    assert!(!should_refresh(runtime, 120, 3_600));
    assert!(should_refresh(runtime, 120 + 3_600, 3_600));
}

#[test]
fn a_warm_zone_answers_a_query() {
    let mut state = indexed_state(
        "/w",
        &[directory("/w/base"), file("/w/base/a.rs", 23)],
    );
    let key = normalize_path_for_identity("/w", false);
    let cold = query_tantivy_content_candidates(
        &state,
        true,
        &[ContentPath { canonical: "/w/base".to_string(), is_file: false, hits: None }],
        "indexed_symbol",
        10,
    );
    assert!(!cold.content_index_used);
    assert!(cold.content_index_partial);
    assert_eq!(cold.warming.len(), 1);
    assert_eq!(cold.warming[0].zone, "base");
    assert!(begin_content_refresh(&mut state, true, &key, "base"));
    assert!(!begin_content_refresh(&mut state, true, &key, "base"));
    let done = ContentRefreshSummary { files: 1, bytes: 23, partial: false };
    finish_content_refresh(&mut state, &key, "base", &Ok(done));
    let warm = query_tantivy_content_candidates(
        &state,
        true,
        &[ContentPath {
            canonical: "/w/base".to_string(),
            is_file: false,
            hits: Some(vec!["/w/base/b.rs".to_string(), "/w/base/a.rs".to_string()]),
        }],
        "indexed_symbol",
        10,
    );
    assert!(warm.content_index_used);
    assert_eq!(warm.zones, vec!["base".to_string()]);
    assert_eq!(
        warm.paths,
        vec!["/w/base/a.rs".to_string(), "/w/base/b.rs".to_string()]
    );
    let off = query_tantivy_content_candidates(&state, false, &[], "indexed_symbol", 10);
    assert!(!off.content_index_used);
}

#[test]
fn zones_are_limited_in_bytes() {
    let policy = ContentPolicy {
        max_file_bytes: 100,
        max_zone_bytes: 60,
        max_workspace_bytes: 1_000,
    };
    let entries: Vec<IndexedPathRecord> = ["a.rs", "b.rs", "c.png"]
        .iter()
        .map(|name| IndexedPathRecord {
            path: format!("/w/src/{name}"),
            relative_path: format!("src/{name}"),
            file_name: name.to_string(),
            extension_lower: name[2..].to_string(),
            is_dir: false,
            size: 50,
            modified_at: 1,
        })
        .collect();
    let plan = plan_zone_refresh(&entries, &policy, "src");
    assert!(matches!(plan.actions[0], ZoneAction::Add));
    assert_eq!(plan.summary.files, 1);
    assert_eq!(plan.summary.bytes, 50);
    assert!(plan.summary.partial);
}

#[test]
fn content_helpers() {
    assert_eq!(content_zone_for_path("/w", "/w/src/a/b.rs", true), "src/a");
    assert_eq!(content_zone_for_path("/w", "/w", false), "");
    assert_eq!(path_tokens_for_tantivy("src/lib.rs"), "src lib rs");
    assert!(is_tantivy_query_compatible("indexed_symbol"));
    assert!(!is_tantivy_query_compatible("  "));
    assert_eq!(indexable_text(b"fn a() {}", 100), "fn a() {}");
    assert_eq!(indexable_text(b"a\0b", 100), "");
}

#[test]
fn a_root_has_one_index() {
    let mut state = IndexState::new(true);
    for root in ["/w/One", "/w/one", "/w/two", "/w/One"] {
        ensure_workspace_index(&mut state, root, true, "test", &settings(), &StoredIndex::Missing, 5);
    }
    assert_eq!(state.runtimes.keys, vec!["/w/one", "/w/two"]);
    for (key, runtime) in state.runtimes.keys.iter().zip(state.runtimes.values.iter()) {
        assert_eq!(*key, normalize_path_for_identity(&runtime.workspace_root, true));
    }
}

#[test]
fn what_is_kept_of_a_file_names_its_extension() {
    let found = |path: &str, is_dir: bool| FoundPath {
        path: path.to_string(),
        is_dir,
        size: 3,
        modified_at: 1,
    };
    let file = indexed_entry_from_metadata("/w", &found("/w/src/Main.RS", false), 9).unwrap();
    assert_eq!(file.relative_path, "src/Main.RS");
    assert_eq!(file.extension_lower, "rs");
    let dir = indexed_entry_from_metadata("/w", &found("/w/src.d", true), 9).unwrap();
    assert_eq!(dir.extension_lower, "");
    assert!(indexed_entry_from_metadata("/w", &found("/w", true), 9).is_none());
}
