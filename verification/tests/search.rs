use codeloupe_mcp::globs::matches_any;
use codeloupe_mcp::line_search::Hit;
use codeloupe_mcp::tools::fuzzy_find::{
    consider_candidate, process_search_root, process_walk, push_ranked_match, score_candidate,
    Candidate, FuzzyQuery, FuzzySearch, RankedMatch,
    RootFacts, SearchRoot, WalkedEntry,
};
use codeloupe_mcp::tools::glob_find::{
    clean_extensions, compile_glob_pattern, extension_override_globs, glob_anchor_terms,
    glob_note, hits, indexed_shortlist_limit, match_glob, plan_search, report_search, FuzzyArgs,
};
use codeloupe_mcp::tools::path_filters::{
    compile_patterns, escape_leading_bang, parse_pattern_strings, walk_overrides,
};
use codeloupe_mcp::tools::symbol_search::{
    definition_matcher, definition_search_pattern, reference_matcher, reference_search_pattern,
    FileStep, SymbolSearch, MAX_DEFINITIONS,
};
use codeloupe_mcp::tools::text_matches::{
    accept_size, consider_file, describe_hit, is_limit_reached, list_matches, no_results_reason,
    plan_matcher, process_input_path, search_file, take_hits, truncate_text, InputStep, PathTally,
    SearchState,
};
use codeloupe_mcp::tools::text_search::{
    candidate_limit, choose_route, default_fallback_excludes, engine_for_strategy, parse_case_mode,
    parse_mode, plan_text_search, resolve_case_sensitive, search_scope_warnings,
    suggested_next_query, verification_engine, CaseMode, IndexAnswer, InputPath, SearchMode, SearchTelemetry, TextArgs,
    TextPlan,
};

fn text_args(query: &str) -> TextArgs {
    TextArgs {
        query: Some(query.to_string()),
        mode: None,
        case_mode: None,
        case_sensitive: None,
        max_results: None,
        context_lines: None,
        max_line_length: None,
        explain_no_results: Some(true),
        allow_expensive_fallback: None,
        includes: None,
        excludes: None,
    }
}

fn input(path: &str, is_dir: bool) -> InputPath {
    InputPath {
        path: path.to_string(),
        canonical: path.to_string(),
        exists: true,
        is_file: !is_dir,
        is_dir,
        indexed_root: None,
    }
}

fn plan(args: &TextArgs, inputs: &[InputPath]) -> TextPlan {
    plan_text_search(args, inputs).ok().unwrap()
}

fn hit(line: u64, text: &str) -> Hit {
    Hit { line, text: text.to_string() }
}

/// Searches one file by a plan.
fn search_one(plan: &TextPlan, path: &str, relative: &str, bytes: &[u8]) -> SearchState {
    let mut state = SearchState::new();
    if consider_file(&mut state, plan, path, relative)
        && accept_size(&mut state, Some(bytes.len() as u64))
    {
        let matcher = plan_matcher(plan).unwrap();
        let hits = search_file(plan, &matcher, &Some(bytes.to_vec()));
        take_hits(&mut state, plan, path, &hits);
    }
    state
}

#[test]
fn test_text_search_supports_explicit_modes_and_preserves_raw_line_text() {
    let inputs = [input("/w/sample.rs", false)];
    let bytes = b"    TODO\nFIXME\n";
    let literal = plan(&text_args("TODO|FIXME"), &inputs);
    assert!(matches!(literal.mode, SearchMode::Literal));
    assert_eq!(literal.pattern, "TODO\\|FIXME");
    let state = search_one(&literal, "/w/sample.rs", "sample.rs", bytes);
    assert_eq!(state.matches.len(), 0);
    assert_eq!(no_results_reason(1, state.files_searched), "no_match_found");

    let mut args = text_args("TODO|FIXME");
    args.mode = Some("regex".to_string());
    let regex = plan(&args, &inputs);
    assert_eq!(regex.pattern, "TODO|FIXME");
    let state = search_one(&regex, "/w/sample.rs", "sample.rs", bytes);
    assert_eq!(state.matches.len(), 2);
    assert_eq!(list_matches(&state.matches)[1].line, 2);

    let raw_line = plan(&text_args("TODO"), &inputs);
    let state = search_one(&raw_line, "/w/sample.rs", "sample.rs", bytes);
    let first = &list_matches(&state.matches)[0];
    assert_eq!(first.line, 1);
    assert_eq!(first.snippet, "TODO");
    assert_eq!(first.line_text, "    TODO");
}

#[test]
fn lines_are_searched_as_the_plan_says() {
    let inputs = [input("/w/a.txt", false)];
    let mut args = text_args("needle");
    let bytes = b"Needle\nhay\nneedle needle\nNEEDLE";
    let loose = plan(&args, &inputs);
    let matcher = plan_matcher(&loose).unwrap();
    let found = search_file(&loose, &matcher, &Some(bytes.to_vec())).unwrap();
    let lines: Vec<u64> = found.iter().map(|hit| hit.line).collect();
    assert_eq!(lines, vec![1, 3, 4]);
    assert_eq!(found[1].text, "needle needle\n");
    args.case_mode = Some("sensitive".to_string());
    args.max_results = Some(1);
    let strict = plan(&args, &inputs);
    let matcher = plan_matcher(&strict).unwrap();
    let found = search_file(&strict, &matcher, &Some(bytes.to_vec())).unwrap();
    assert_eq!(found.len(), 1);
    assert_eq!(found[0].line, 3);
    assert!(search_file(&strict, &matcher, &None).is_none());
    let broken = b"ok\nneedle \xff\xfe\n".to_vec();
    assert!(search_file(&strict, &matcher, &Some(broken)).is_none());
}

#[test]
fn test_text_search_applies_excludes_to_explicit_file_paths() {
    let inputs = [input("/w/target.rs", false)];
    let mut args = text_args("needle");
    args.excludes = Some(vec!["target.rs".to_string()]);
    let plan = plan(&args, &inputs);
    let state = search_one(&plan, "/w/target.rs", "target.rs", b"needle\n");
    assert_eq!(state.matches.len(), 0);
    assert_eq!(no_results_reason(1, state.files_searched), "no_candidate_files");
}

#[test]
fn test_text_search_reports_fallback_diagnostics_for_regex() {
    let inputs = [input("/w/sample.rs", false)];
    let mut args = text_args("TODO|FIXME");
    args.mode = Some("regex".to_string());
    let plan = plan(&args, &inputs);
    assert_eq!(candidate_limit(&plan), None);
    let route = choose_route(&plan, &inputs, &None);
    assert_eq!(route.strategy, "grep_fallback");
    assert!(route.fallback_reasons.contains(&"regex_mode_requires_grep".to_string()));
    assert_eq!(verification_engine(), "grep_searcher");
    assert_eq!(engine_for_strategy(route.strategy), "grep_searcher/ignore");
}

#[test]
fn test_text_search_applies_default_fallback_excludes_but_allows_direct_scope() {
    let root = [input("/w", true)];
    let plan_root = plan(&text_args("needle"), &root);
    assert!(!plan_root.default_excludes.is_empty());
    let vendor = "/w/third_party/lib.rs";
    let state = search_one(&plan_root, vendor, "third_party/lib.rs", b"needle\n");
    assert_eq!(state.matches.len(), 0);

    let direct = [input("/w/third_party", true)];
    assert!(default_fallback_excludes(&direct, &[]).is_empty());
    let plan_direct = plan(&text_args("needle"), &direct);
    assert!(plan_direct.default_excludes.is_empty());
    let state = search_one(&plan_direct, vendor, "lib.rs", b"needle\n");
    assert_eq!(state.matches.len(), 1);
}

#[test]
fn arguments_of_a_search_are_checked() {
    let inputs = [input("/w/a.rs", false)];
    assert!(plan_text_search(&text_args("  "), &inputs).is_err());
    let mut bad = text_args("(");
    bad.mode = Some("regex".to_string());
    assert!(plan_text_search(&bad, &inputs).is_err());
    assert!(parse_mode(&Some("exact".to_string())).is_err());
    assert!(parse_case_mode(&Some("loud".to_string()), None).is_err());
    assert!(matches!(
        parse_case_mode(&Some("insensitive".to_string()), Some(true)),
        Ok(CaseMode::Sensitive)
    ));
    assert!(resolve_case_sensitive(CaseMode::Smart, "Needle"));
    assert!(!resolve_case_sensitive(CaseMode::Smart, "needle"));
    assert!(resolve_case_sensitive(CaseMode::Smart, "Ärger"));
}

#[test]
fn a_large_scope_is_refused_unless_it_is_asked_for() {
    let mut scope = input("/w", true);
    scope.indexed_root = Some("/w".to_string());
    let inputs = [scope];
    let mut args = text_args("needle");
    let answer = Some(IndexAnswer { used: false, partial: true, fallback_reasons: Vec::new() });
    let refused = choose_route(&plan(&args, &inputs), &inputs, &answer);
    assert_eq!(refused.strategy, "refused_large_scope");
    assert!(!refused.grep);
    assert!(!search_scope_warnings(&inputs, refused.strategy).is_empty());
    assert!(suggested_next_query(&inputs, refused.strategy).is_some());
    args.allow_expensive_fallback = Some(true);
    let allowed = choose_route(&plan(&args, &inputs), &inputs, &answer);
    assert_eq!(allowed.strategy, "grep_fallback");
    let served = Some(IndexAnswer { used: true, partial: false, fallback_reasons: Vec::new() });
    assert_eq!(choose_route(&plan(&args, &inputs), &inputs, &served).strategy, "tantivy");

    let mut telemetry = SearchTelemetry::new();
    telemetry.note_search();
    telemetry.note_route(&refused);
    telemetry.note_duration(12);
    assert_eq!(telemetry.total_text_searches, 1);
    assert_eq!(telemetry.total_refused_large_scope, 1);
    assert_eq!(telemetry.total_grep_fallbacks, 0);
    assert_eq!(telemetry.last_search_duration_ms, 12);
    telemetry.note_route(&allowed);
    assert_eq!(telemetry.total_grep_fallbacks, 1);
}

#[test]
fn a_search_stops_at_its_limit_and_reads_a_file_once() {
    let inputs = [input("/w", true)];
    let mut args = text_args("x");
    args.max_results = Some(2);
    let plan = plan(&args, &inputs);
    let mut state = SearchState::new();
    let mut tally = PathTally::new();
    assert!(matches!(
        process_input_path(&mut state, &mut tally, &plan, &inputs[0]),
        InputStep::Walk
    ));
    assert!(consider_file(&mut state, &plan, "/w/a.rs", "a.rs"));
    assert!(!consider_file(&mut state, &plan, "/w/a.rs", "a.rs"));
    let many = vec![hit(1, "x"), hit(2, "x"), hit(3, "x")];
    take_hits(&mut state, &plan, "/w/a.rs", &Some(many));
    assert_eq!(state.matches.len(), 2);
    assert!(!accept_size(&mut state, Some(6 * 1024 * 1024)));
    assert_eq!(state.files_skipped_large, 1);
    assert!(matches!(
        process_input_path(&mut state, &mut tally, &plan, &inputs[0]),
        InputStep::Stop
    ));
}

#[test]
fn long_lines_are_cut() {
    assert_eq!(truncate_text("abcdef", 10), ("abcdef".to_string(), false));
    let (cut, was_cut) = truncate_text("abcdef", 3);
    assert!(was_cut);
    assert!(cut.starts_with("abc"));
    let shown = describe_hit("/w/a.rs", &hit(4, "  long line\r\n"), 200);
    assert_eq!(shown.line, 4);
    assert_eq!(shown.snippet, "long line");
    assert!(!shown.line_truncated);
}

fn candidate(path: &str) -> Candidate {
    Candidate { path: path.to_string(), is_dir: false, size: 12, modified_at: 3 }
}

fn root(path: &str) -> SearchRoot {
    SearchRoot { path: path.to_string(), is_dir: true, is_file: false }
}

fn fuzzy(pattern: &str) -> FuzzyQuery {
    plan_search(&FuzzyArgs {
        pattern: Some(pattern.to_string()),
        target_type: None,
        extensions: Some(vec!["rs".to_string()]),
        max_depth: None,
        max_results: Some(5),
    })
    .ok()
    .unwrap()
    .query
}

#[test]
fn fuzzy_find_names_the_file_below_its_root() {
    let query = fuzzy("main");
    let roots = [root("/w")];
    let mut search = FuzzySearch::new();
    let facts = RootFacts::Directory {
        own: Candidate { path: "/w".to_string(), is_dir: true, size: 0, modified_at: 1 },
        index_complete: false,
        candidates: None,
    };
    assert!(process_search_root(&mut search, &query, &facts, &roots));
    let entries = [
        WalkedEntry { candidate: candidate("/w/src/main.rs"), is_file: true },
        WalkedEntry { candidate: candidate("/w/src/zzz.py"), is_file: true },
    ];
    process_walk(&mut search, &query, &entries, 2, &roots);
    assert_eq!(search.ranked.len(), 1);
    assert_eq!(search.ranked[0].relative_path, "src/main.rs");
    let report = report_search(&search, query.max_results);
    assert_eq!(report.total_returned, 1);
    assert!(!report.limit_reached);
}

#[test]
fn fuzzy_matches_are_ranked_and_listed_once() {
    let query = fuzzy("main");
    let roots = [root("/w")];
    let mut search = FuzzySearch::new();
    consider_candidate(&mut search, &query, &candidate("/w/domain_list.rs"), &roots, None);
    consider_candidate(&mut search, &query, &candidate("/w/main.rs"), &roots, None);
    consider_candidate(&mut search, &query, &candidate("/w/main.rs"), &roots, None);
    assert_eq!(search.ranked.len(), 2);
    assert!(search.ranked[0].score >= search.ranked[1].score);
    assert_eq!(search.ranked[0].relative_path, "main.rs");
    assert!(score_candidate(&query, &candidate("/w/xyz.rs"), &roots, None).is_none());
}

#[test]
fn a_full_list_keeps_the_best() {
    let ranked = |path: &str, score: i64| RankedMatch {
        path: path.to_string(),
        relative_path: path.to_string(),
        score,
        entry_type: "file",
        size: 0,
        modified_at: 0,
    };
    let mut list = Vec::new();
    push_ranked_match(&mut list, ranked("a", 1), 2);
    push_ranked_match(&mut list, ranked("b", 5), 2);
    push_ranked_match(&mut list, ranked("c", 9), 2);
    let names: Vec<String> = list.iter().map(|m| m.path.clone()).collect();
    assert_eq!(names.len(), 2);
    assert!(names.contains(&"b".to_string()));
    assert_eq!(names, ["c", "b"]);
    push_ranked_match(&mut list, ranked("d", 4), 2);
    push_ranked_match(&mut list, ranked("a", 5), 2);
    let names: Vec<String> = list.iter().map(|m| m.path.clone()).collect();
    assert_eq!(names, ["c", "a"]);
    push_ranked_match(&mut list, ranked("e", 99), 0);
    assert_eq!(list.len(), 2);
}

#[test]
fn globs_are_told_from_patterns() {
    assert_eq!(compile_glob_pattern("main"), None);
    let glob = compile_glob_pattern("**/*.rs").unwrap();
    assert!(hits(&glob, "src/main.rs"));
    assert!(!hits(&glob, "src/main.py"));
    assert!(glob_anchor_terms("src/**/handler_*.rs").contains(&"handler".to_string()));
    let query = fuzzy("*.rs");
    let found = match_glob(&query, &glob, &candidate("/w/src/main.rs"), &[root("/w")]);
    assert_eq!(found.unwrap().relative_path, "src/main.rs");
    assert!(!glob_note("*.rs").is_empty());
    assert!(plan_search(&FuzzyArgs {
        pattern: None,
        target_type: None,
        extensions: None,
        max_depth: None,
        max_results: None,
    })
    .is_err());
    assert!(indexed_shortlist_limit(10) >= 10);
}

#[test]
fn filters_of_paths() {
    assert_eq!(
        parse_pattern_strings(&Some(vec![" a ".to_string(), "".to_string()])),
        vec!["a".to_string()]
    );
    assert!(compile_patterns(&["[".to_string()]).is_err());
    assert!(compile_patterns(&["**/*.rs".to_string()]).is_ok());
    assert_eq!(escape_leading_bang("!a"), "\\!a");
    let overrides = walk_overrides(&["src/**".to_string()], &["target/**".to_string()]);
    assert_eq!(overrides, vec!["src/**".to_string(), "!target/**".to_string()]);
    assert!(matches_any(&["*.rs".to_string()], "a.rs"));
    assert_eq!(
        clean_extensions(&[".RS".to_string(), "py".to_string()]),
        vec!["rs".to_string(), "py".to_string()]
    );
    assert!(!extension_override_globs("file", &["rs".to_string()]).is_empty());
}

#[test]
fn symbols_are_searched_up_to_a_limit() {
    let mut search = SymbolSearch::for_definitions();
    assert_eq!(search.next_file(None), FileStep::Skip);
    assert_eq!(search.next_file(Some(3 * 1024 * 1024)), FileStep::Skip);
    assert_eq!(search.next_file(Some(100)), FileStep::Search);
    for i in 0..MAX_DEFINITIONS {
        let more = search.push_line("/w/a.rs", i as u64 + 1, "  fn run() {\n");
        assert_eq!(more, i + 1 < MAX_DEFINITIONS);
    }
    assert!(!search.push_line("/w/a.rs", 99, "fn run()"));
    assert_eq!(search.next_file(Some(100)), FileStep::Stop);
    assert_eq!(search.found.len(), 20);
    assert_eq!(search.found[0].snippet, "fn run() {");
    assert_eq!(search.files_scanned, 1);
    assert_eq!(search.files_skipped, 2);
    search.note_failure();
    assert_eq!(search.files_skipped, 3);
    assert_eq!(SymbolSearch::for_references().max_results, 200);
    assert_eq!(reference_search_pattern("a.b"), "\\ba\\.b\\b");
    assert!(definition_search_pattern("run").contains("protocol)\\s+run\\b)"));
}

#[test]
fn symbols_are_found_in_the_bytes_of_files() {
    let text = b"fn run() {}\nlet x = run();\nstruct RUN;\n@interface run\nrunner();\n".to_vec();
    let mut definitions = SymbolSearch::for_definitions();
    assert_eq!(definitions.next_file(Some(text.len() as u64)), FileStep::Search);
    let matcher = definition_matcher("run").unwrap();
    assert!(definitions.search_file("/w/a.rs", &matcher, &Some(text.clone())));
    let lines: Vec<u64> = definitions.found.iter().map(|found| found.line).collect();
    assert_eq!(lines, vec![1, 3, 4]);
    let mut references = SymbolSearch::for_references();
    let matcher = reference_matcher("run").unwrap();
    assert!(references.search_file("/w/a.rs", &matcher, &Some(text)));
    let lines: Vec<u64> = references.found.iter().map(|found| found.line).collect();
    assert_eq!(lines, vec![1, 2, 4]);
    assert_eq!(references.found[1].snippet, "let x = run();");
    assert!(references.search_file("/w/b.rs", &matcher, &None));
    assert_eq!(references.files_skipped, 1);
    let many = "run\n".repeat(300).into_bytes();
    assert!(!references.search_file("/w/c.rs", &matcher, &Some(many)));
    assert_eq!(references.found.len(), 200);
    assert_eq!(references.next_file(Some(1)), FileStep::Stop);
}

#[test]
fn a_limit_of_none_is_never_reached() {
    assert!(!is_limit_reached(0, 0));
    assert!(!is_limit_reached(4, 5));
    assert!(is_limit_reached(5, 5));
}
