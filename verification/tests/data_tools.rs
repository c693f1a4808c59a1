use codeloupe_mcp::json::{Json, JsonField, JsonNumber};
use codeloupe_mcp::tools::extract_json_schema::{infer_schema, merge_schemas, Schema, TypeName};
use codeloupe_mcp::tools::find_json_paths::{choose_source, find_json_paths, JsonSource, Sample};
use codeloupe_mcp::tools::markdown_sections::{
    check_section_args, find_section, outline_headings, SectionArgs,
};
use codeloupe_mcp::tools::markdown_support::{
    load_markdown_file, match_heading, parse_headings, section_end_line, slugify_heading,
    SectionSpanMode,
};
use codeloupe_mcp::tools::peek_archive::{
    archive_kind, find_entry, normalize_archive_entry_path, read_entry, ArchiveKind,
};
use codeloupe_mcp::tools::fuzzy_find::{
    process_walk, Candidate, FuzzySearch, SearchRoot, WalkedEntry,
};
use codeloupe_mcp::tools::glob_find::{plan_search, FuzzyArgs};
use codeloupe_mcp::tools::project_map::{
    build_project_map, map_options, MapArgs, MapEntry, MapSource, MAX_TOTAL_ENTRIES,
};
use codeloupe_mcp::tools::sqlite_inspect::{
    blob_text, ensure_read_only_sql, sample_rows_query, table_columns_query,
};
use codeloupe_mcp::tools::workspace_stats::{
    collect_stats, get_lang_from_ext, languages_breakdown, line_count_limit, pick_largest,
    should_count_lines, LineCounter, SizedFile, StatsAccumulator, StatsFile,
};

fn number(text: &str) -> Json {
    Json::Number(JsonNumber { text: text.to_string(), is_integer: !text.contains('.') })
}

fn object(fields: Vec<(&str, Json)>) -> Json {
    Json::Object(
        fields
            .into_iter()
            .map(|(key, value)| JsonField { key: key.to_string(), value })
            .collect(),
    )
}

fn one(schema: &Schema) -> &'static str {
    match schema {
        Schema::Typed(TypeName::One(name)) => name,
        _ => panic!("one type"),
    }
}

#[test]
fn schemas_follow_their_values() {
    assert_eq!(one(&infer_schema(&Json::Null)), "null");
    assert_eq!(one(&infer_schema(&Json::Bool(true))), "boolean");
    assert_eq!(one(&infer_schema(&number("1"))), "integer");
    assert_eq!(one(&infer_schema(&number("1.5"))), "number");
    assert!(matches!(
        infer_schema(&Json::Array(Vec::new())),
        Schema::Array(items) if matches!(*items, Schema::Any)
    ));
    let list = Json::Array(vec![
        object(vec![("a", number("1")), ("b", Json::Null)]),
        object(vec![("a", Json::Text("x".to_string())), ("c", Json::Null)]),
    ]);
    match infer_schema(&list) {
        Schema::Array(items) => match *items {
            Schema::Object { properties, required } => {
                assert_eq!(required, vec!["a".to_string()]);
                let names: Vec<&str> = properties.iter().map(|p| p.name.as_str()).collect();
                assert_eq!(names, vec!["a", "b", "c"]);
                assert!(matches!(
                    properties[0].schema,
                    Schema::Typed(TypeName::Pair(_, _))
                ));
            }
            _ => panic!("object"),
        },
        _ => panic!("array"),
    }
    let same = merge_schemas(&infer_schema(&number("1")), &infer_schema(&number("2")));
    assert_eq!(one(&same), "integer");
    let any = merge_schemas(&Schema::Any, &infer_schema(&number("2")));
    assert!(matches!(any, Schema::Any));
}

#[test]
fn paths_into_a_value() {
    let value = object(vec![
        ("a", Json::Array(vec![number("1"), number("2")])),
        ("b", Json::Text("x".to_string())),
    ]);
    let (paths, cut) = find_json_paths(&value, true, 100);
    assert!(!cut);
    let last = paths.last().unwrap();
    assert_eq!(last.value_type, "string");
    assert!(matches!(&last.sample_value, Sample::Text(s) if s == "x"));
    let (few, cut) = find_json_paths(&value, true, 1);
    assert!(cut);
    assert_eq!(few.len(), 1);
    assert_eq!(few[0].path, paths[0].path);
    assert!(matches!(
        choose_source(&Some("{}".to_string()), &Some("/a".to_string())),
        Ok(JsonSource::Inline(_))
    ));
    assert!(choose_source(&None, &None).is_err());
}

#[test]
fn statements_only_read() {
    assert!(ensure_read_only_sql("  SELECT 1").is_ok());
    assert!(ensure_read_only_sql("with x as (select 1) select * from x").is_ok());
    assert!(ensure_read_only_sql("DROP TABLE a").is_err());
    assert!(ensure_read_only_sql("selection").is_err());
    assert_eq!(table_columns_query("a\"b"), "PRAGMA table_info(\"a\"\"b\")");
    assert_eq!(sample_rows_query("t", 10), "SELECT * FROM \"t\" LIMIT 10");
    assert_eq!(blob_text(3), "blob(3 bytes)");
}

#[test]
fn test_peek_archive_accepts_forward_slash_inner_path() {
    assert_eq!(archive_kind("/w/sample.zip", "sample.zip"), Ok(ArchiveKind::Zip));
    let names = ["nested\\inside.txt".to_string()];
    assert_eq!(normalize_archive_entry_path(&names[0]), "nested/inside.txt");
    assert_eq!(find_entry(ArchiveKind::Zip, &names, "nested/inside.txt"), Ok(0));
    let (content, encoding) = read_entry(b"nested archive payload\n").ok().unwrap();
    assert_eq!(content, "nested archive payload\n");
    assert_eq!(encoding, "UTF-8");
}

#[test]
fn archives_and_their_entries() {
    assert_eq!(archive_kind("/w/a.JAR", "a.JAR"), Ok(ArchiveKind::Zip));
    assert_eq!(archive_kind("/w/a.tar.gz", "a.tar.gz"), Ok(ArchiveKind::TarGz));
    assert_eq!(archive_kind("/w/a.tgz", "a.tgz"), Ok(ArchiveKind::TarGz));
    assert_eq!(archive_kind("/w/a.tar", "a.tar"), Ok(ArchiveKind::Tar));
    assert!(archive_kind("/w/a.rar", "a.rar").is_err());
    assert_eq!(normalize_archive_entry_path("././a\\b"), "a/b");
    let names = ["./a".to_string(), "a".to_string()];
    assert_eq!(find_entry(ArchiveKind::Zip, &names, "a"), Ok(1));
    assert_eq!(find_entry(ArchiveKind::Tar, &names, "a"), Ok(0));
    assert_eq!(
        find_entry(ArchiveKind::Tar, &names, "b"),
        Err("File b not found inside archive".to_string())
    );
    let large = vec![b'x'; 10 * 1024 * 1024 + 1];
    assert_eq!(read_entry(&large), Err("Inner file is too large (> 10MB)"));
}

#[test]
fn headings_and_sections() {
    let content = "# Top\ntext\n## One\na\n```\n# code\n```\n## Two\nb\n";
    let headings = parse_headings(content);
    let titles: Vec<&str> = headings.iter().map(|h| h.title.as_str()).collect();
    assert_eq!(titles, vec!["Top", "One", "Two"]);
    assert_eq!(headings[1].path, vec!["Top".to_string(), "One".to_string()]);
    assert_eq!(slugify_heading("Hello World"), "hello-world");
    let (_, total) = load_markdown_file(content.as_bytes());
    assert_eq!(section_end_line(&headings, 1, total, SectionSpanMode::IncludeSubsections), 7);
    assert_eq!(match_heading(&headings, &Some("two".to_string()), &None, false), Ok(2));
    assert!(match_heading(&headings, &Some("two".to_string()), &None, true).is_err());
    let args = SectionArgs {
        path: Some("a.md".to_string()),
        heading: Some("One".to_string()),
        heading_path: None,
        exact: None,
        include_heading: None,
        include_subsections: None,
    };
    assert!(check_section_args(&args).is_ok());
    let span = find_section(content, total, &args).ok().unwrap();
    assert_eq!((span.start_line, span.end_line), (3, 7));
    let (items, _) = outline_headings(content, total, Some(1));
    assert_eq!(items.len(), 1);
}

#[test]
fn test_workspace_stats_reports_total_and_per_language_lines() {
    let mut rust = LineCounter::new();
    rust.feed(b"fn one() {}\nfn two() {}\n");
    let mut python = LineCounter::new();
    python.feed(b"print('a')\nprint('b')\n");
    python.feed(b"print('c')\n");
    let file = |path: &str, ext: &str, lines: u64| StatsFile {
        path: path.to_string(),
        extension: ext.to_string(),
        is_dir: false,
        size: 24,
        lines: Some(lines),
    };
    let files = [
        file("/w/lib.rs", "rs", rust.total()),
        file("/w/main.py", "py", python.total()),
    ];
    let stats = collect_stats(&files, "/w", &[], &[]);
    assert_eq!(stats.total_lines, 5);
    let breakdown = languages_breakdown(&stats);
    assert!(breakdown.iter().any(|l| l.language == "Rust" && l.lines == 2));
    assert!(breakdown.iter().any(|l| l.language == "Python" && l.lines == 3));
}

#[test]
fn statistics_in_parts() {
    assert_eq!(get_lang_from_ext("rs"), "Rust");
    assert!(should_count_lines("Rust", 10, 100));
    assert!(!should_count_lines("Rust", 101, 100));
    assert_eq!(line_count_limit(None), 2_097_152);
    assert_eq!(line_count_limit(Some(u64::MAX)), 20_971_520);
    let mut open = LineCounter::new();
    open.feed(b"a\nb");
    assert_eq!(open.total(), 2);
    let files: Vec<SizedFile> = (0..12)
        .map(|i| SizedFile { path: format!("f{i}"), size: i })
        .collect();
    let largest = pick_largest(&files);
    assert_eq!(largest.len(), 10);
    assert_eq!(largest[0].size, 11);
}

fn map_args(children: Option<u64>) -> MapArgs {
    MapArgs {
        path: Some("/w".to_string()),
        max_depth: None,
        show_sizes: Some(false),
        max_children_per_dir: children,
        includes: None,
        excludes: None,
    }
}

fn entry(path: &str, name: &str, is_dir: bool) -> MapEntry {
    MapEntry { path: path.to_string(), name: name.to_string(), is_dir, size: 2 }
}

#[test]
fn test_project_map_and_fuzzy_find_return_polished_fields() {
    let options = map_options(&map_args(None), true).ok().unwrap();
    let source = MapSource { root: "/w".to_string(), canonical: "/w".to_string(), by_index: false };
    let entries = [entry("/w/src", "src", true), entry("/w/src/main.rs", "main.rs", false)];
    let map = build_project_map(&options, &source, &entries);
    let root_entries = map.tree.get("/w").unwrap();
    let src_entry = root_entries.iter().find(|item| item.name == "src").unwrap();
    assert_eq!(src_entry.kind, "dir");
    assert!(src_entry.size.is_none());
    assert!(map_options(&map_args(None), false).is_err());

    let plan = plan_search(&FuzzyArgs {
        pattern: Some("main".to_string()),
        target_type: None,
        extensions: Some(vec!["rs".to_string()]),
        max_depth: None,
        max_results: None,
    })
    .ok()
    .unwrap();
    let roots = [SearchRoot { path: "/w".to_string(), is_dir: true, is_file: false }];
    let mut search = FuzzySearch::new();
    let walked: Vec<WalkedEntry> = entries
        .iter()
        .map(|entry| WalkedEntry {
            candidate: Candidate {
                path: entry.path.clone(),
                is_dir: entry.is_dir,
                size: entry.size,
                modified_at: 1,
            },
            is_file: !entry.is_dir,
        })
        .collect();
    process_walk(&mut search, &plan.query, &walked, walked.len(), &roots);
    let first_match = &search.ranked[0];
    assert_eq!(first_match.relative_path, "src/main.rs");
    assert!(first_match.score > 0);
}

#[test]
fn a_full_map_stops_looking() {
    let options = map_options(&map_args(Some(5_000)), true).ok().unwrap();
    let source = MapSource { root: "/w".to_string(), canonical: "/w".to_string(), by_index: true };
    let entries: Vec<MapEntry> = (0..MAX_TOTAL_ENTRIES + 5)
        .map(|i| entry(&format!("/w/d{}/f{i}", i / 4_000), &format!("f{i}"), false))
        .collect();
    let map = build_project_map(&options, &source, &entries);
    assert_eq!(map.entries_returned, MAX_TOTAL_ENTRIES);
    assert_eq!(map.entries_visited, MAX_TOTAL_ENTRIES + 1);
    assert_eq!(map.limit_reason, Some("max_total_entries"));
}

#[test]
fn test_project_map_reports_output_child_truncation() {
    let options = map_options(&map_args(Some(1)), true).ok().unwrap();
    let source = MapSource { root: "/w".to_string(), canonical: "/w".to_string(), by_index: false };
    let entries = [entry("/w/a.txt", "a.txt", false), entry("/w/b.txt", "b.txt", false)];
    let map = build_project_map(&options, &source, &entries);
    assert!(map.limit_reached);
    assert_eq!(map.limit_reason, Some("max_children_per_dir"));
    assert_eq!(map.truncated_directory_count, 1);
}

#[test]
fn counts_made_apart_add_up() {
    let mut first = StatsAccumulator::new();
    first.record_matched_file("/w/a.rs", 10, "Rust", 3, true);
    first.record_skipped_file();
    let mut second = StatsAccumulator::new();
    second.record_matched_file("/w/b.rs", 20, "Rust", 4, true);
    second.record_matched_file("/w/c.bin", 5, "Other", 0, false);
    first.merge(&second);
    assert_eq!(first.total_files, 3);
    assert_eq!(first.files_seen, 4);
    assert_eq!(first.files_skipped_by_patterns, 1);
    assert_eq!(first.total_size, 35);
    assert_eq!(first.total_lines, 7);
    assert_eq!(first.line_counted_files, 2);
    assert_eq!(first.line_count_skipped_files, 1);
    let rust = first.languages.get("Rust").unwrap();
    assert_eq!((rust.files, rust.lines, rust.size), (2, 7, 30));
    assert_eq!(pick_largest(&first.largest_files)[0].path, "/w/b.rs");
}

#[test]
fn headings_stand_below_the_nearest_larger_one() {
    let headings = parse_headings("# A\n### B\n## C\n### D\n# E\n## F\n");
    let paths: Vec<String> = headings.iter().map(|h| h.path.join("/")).collect();
    assert_eq!(paths, ["A", "A/B", "A/C", "A/C/D", "E", "E/F"]);
}
