use std::path::Path;

use codeloupe_mcp::fractions::{is_at_least, parse_fraction, Fraction};
use codeloupe_mcp::tools::compare_directories::{
    arg_usize, collect_files, compare, default_excludes, rename_threshold, similarity, Comparison,
    FileInfo, Options, Side, SkippedFile, WalkEntry, DEFAULT_MAX_DIFF_BYTES, DEFAULT_MAX_FILE_SIZE,
};
use codeloupe_mcp::tools::compare_report::{
    ensure_dir, parse_output_format, render_markdown_report, OutputFormat,
};
use codeloupe_mcp::tools::compare_summary::{
    affected_symbols, extension_key, risk_category, symbol_from_line, top_counts, top_directory,
};
use codeloupe_mcp::tools::path_filters::walk_overrides;
use ignore::overrides::OverrideBuilder;

/// The files that a walk comes to under the patterns.
fn walked<'a>(
    files: &[(&'a str, &'a [u8])],
    includes: &[&str],
    excludes: &[&str],
) -> Vec<(&'a str, &'a [u8])> {
    let includes: Vec<String> = includes.iter().map(|p| p.to_string()).collect();
    let mut all = default_excludes();
    all.extend(excludes.iter().map(|p| p.to_string()));
    let mut builder = OverrideBuilder::new("/w");
    for pattern in walk_overrides(&includes, &all) {
        builder.add(&pattern).unwrap();
    }
    let overrides = builder.build().unwrap();
    files
        .iter()
        .filter(|(path, _)| !overrides.matched(Path::new(path), false).is_ignore())
        .copied()
        .collect()
}

fn side(files: &[(&str, &[u8])], name: &'static str) -> (Side, Vec<SkippedFile>) {
    let entries: Vec<WalkEntry> = files
        .iter()
        .map(|(path, bytes)| WalkEntry {
            relative: path.to_string(),
            is_symlink: false,
            is_file: true,
            info: Ok(FileInfo { size: bytes.len() as u64, modified_at: 1 }),
        })
        .collect();
    let mut collected = collect_files(&entries, 20_000, name).ok().unwrap();
    let reads = collected
        .paths
        .iter()
        .map(|path| {
            let (_, bytes) = files.iter().find(|(own, _)| own == path).unwrap();
            Ok(bytes.to_vec())
        })
        .collect();
    let skipped = std::mem::take(&mut collected.skipped);
    (Side::new(collected, reads), skipped)
}

fn options() -> Options {
    Options {
        max_file_size: DEFAULT_MAX_FILE_SIZE as u64,
        max_diff_bytes: DEFAULT_MAX_DIFF_BYTES,
        max_files: 20_000,
        include_content_diff: true,
        summary_only: false,
        detect_renames: true,
        rename_similarity_threshold: rename_threshold(&None),
    }
}

fn run(left: &[(&str, &[u8])], right: &[(&str, &[u8])], options: &Options) -> Comparison {
    let (left, mut skipped) = side(left, "left");
    let (right, mut more) = side(right, "right");
    skipped.append(&mut more);
    compare(&left, &right, skipped, options)
}

#[test]
fn test_compare_directories_reports_added_deleted_modified_and_ignored() {
    let left: [(&str, &[u8]); 2] = [
        ("src/common.rs", b"fn shared() {\n    println!(\"old\");\n}\n"),
        ("src/removed.rs", b"fn removed() {}\n"),
    ];
    let right: [(&str, &[u8]); 3] = [
        ("src/common.rs", b"fn shared() {\n    println!(\"new\");\n}\n"),
        ("src/added.rs", b"fn added() {}\n"),
        ("target/generated.rs", b"ignored\n"),
    ];
    assert!(default_excludes().iter().any(|p| p.contains("target")));
    let res = run(&walked(&left, &[], &[]), &walked(&right, &[], &[]), &options());
    assert_eq!(res.added, vec!["src/added.rs".to_string()]);
    assert_eq!(res.deleted, vec!["src/removed.rs".to_string()]);
    assert_eq!(res.common.modified.len(), 1);
    let modified = &res.common.modified[0];
    assert_eq!(modified.path, "src/common.rs");
    let (diff, _) = modified.unified_diff.as_ref().unwrap();
    assert!(diff.contains("println!(\"new\")"));
    assert_eq!(modified.inserted_lines, 1);
    assert_eq!(modified.deleted_lines, 1);
}

#[test]
fn test_compare_directories_summary_truncation_binary_large_and_rename() {
    let big_left = "a".repeat(64);
    let big_right = "b".repeat(64);
    let left: [(&str, &[u8]); 4] = [
        ("docs/old.md", b"same rename content\n"),
        ("src/auth/login.rs", b"fn login() {\n    old();\n}\n"),
        ("src/blob.bin", &[0x01u8, 0x00, 0x02]),
        ("src/big.txt", big_left.as_bytes()),
    ];
    let right: [(&str, &[u8]); 4] = [
        ("docs/new.md", b"same rename content\n"),
        ("src/auth/login.rs", b"fn login() {\n    new();\n}\n"),
        ("src/blob.bin", &[0x01u8, 0x00, 0x03]),
        ("src/big.txt", big_right.as_bytes()),
    ];
    let mut options = options();
    options.max_file_size = 32;
    options.max_diff_bytes = 12;
    options.summary_only = true;
    let res = run(&left, &right, &options);
    assert_eq!(res.renamed.len(), 1);
    assert_eq!(res.common.binary.len(), 1);
    assert_eq!(res.skipped.len(), 1);
    assert_eq!(res.common.diff_bytes_used, 0);
    let modified = &res.common.modified[0];
    assert!(modified.unified_diff.is_none());
    assert_eq!(modified.risk_category, "auth/security");
    assert!(res.top_changed_directories.iter().any(|item| item.name == "src"));
    assert!(res.extensions_summary.iter().any(|item| item.name == ".rs"));
    assert!(res.risk_hints.iter().any(|item| item.name == "auth/security"));
}

#[test]
fn test_compare_directories_markdown_output() {
    let right: [(&str, &[u8]); 1] = [("added.rs", b"fn added() {}\n")];
    let res = run(&[], &right, &options());
    let text = render_markdown_report("left-md", "right-md", &res);
    assert!(text.contains("# Directory Compare Report"));
    assert!(text.contains("`added.rs`"));
    assert!(matches!(
        parse_output_format(&Some("markdown".to_string())),
        Ok(OutputFormat::Markdown)
    ));
}

#[test]
fn test_compare_directories_edge_options() {
    let left: [(&str, &[u8]); 2] = [
        ("docs/a.md", b"same\n"),
        ("src/main.rs", b"fn main() {\n    old();\n}\n"),
    ];
    let right: [(&str, &[u8]); 3] = [
        ("docs/b.md", b"same\n"),
        ("src/main.rs", b"fn main() {\n    new();\n}\n"),
        ("src/ignored.rs", b"fn ignored() {}\n"),
    ];
    let mut plain = options();
    plain.detect_renames = false;
    plain.include_content_diff = false;
    let excludes = ["src/ignored.rs"];
    let no_rename = run(&walked(&left, &[], &excludes), &walked(&right, &[], &excludes), &plain);
    assert_eq!(no_rename.renamed.len(), 0);
    assert_eq!(no_rename.added.len(), 1);
    assert_eq!(no_rename.deleted.len(), 1);
    let modified = &no_rename.common.modified[0];
    assert!(modified.unified_diff.is_none());
    assert_eq!(modified.affected_symbols[0], "main");

    let includes = ["docs/**"];
    let docs = run(&walked(&left, &includes, &[]), &walked(&right, &includes, &[]), &options());
    assert_eq!(docs.renamed.len(), 1);
    assert!(!docs.renamed[0].is_modified());
    assert_eq!(docs.common.modified.len(), 0);

    let invalid = parse_output_format(&Some("html".to_string())).err().unwrap();
    assert!(invalid.contains("Unsupported output_format"));
}

#[test]
fn test_compare_directories_truncates_diff_and_detects_fuzzy_rename() {
    let left: [(&str, &[u8]); 2] = [
        ("src/old_name.rs", b"fn same() {\n    alpha();\n    beta();\n}\n"),
        ("src/changed.rs", b"fn changed() {\n    old_line_one();\n    old_line_two();\n}\n"),
    ];
    let right: [(&str, &[u8]); 2] = [
        ("src/new_name.rs", b"fn same() {\n    alpha();\n    gamma();\n}\n"),
        ("src/changed.rs", b"fn changed() {\n    new_line_one();\n    new_line_two();\n}\n"),
    ];
    let mut options = options();
    options.rename_similarity_threshold = parse_fraction("0.5").unwrap();
    options.max_diff_bytes = 24;
    let res = run(&left, &right, &options);
    assert_eq!(res.renamed.len(), 1);
    let rename = &res.renamed[0];
    assert!(rename.equal < rename.total);
    assert!(rename.is_modified());
    let modified = &res.common.modified[0];
    let (diff, truncated) = modified.unified_diff.as_ref().unwrap();
    assert!(truncated);
    assert!(diff.len() <= 24);
    assert!(modified.affected_symbols.contains(&"changed".to_string()));
    assert!(!res.warnings.is_empty());
}

#[test]
fn every_file_is_in_one_class() {
    let left: [(&str, &[u8]); 3] = [("a", b"1\n"), ("b", b"2\n"), ("c", b"3\n")];
    let right: [(&str, &[u8]); 3] = [("b", b"2\n"), ("c", b"4\n"), ("d", b"5\n")];
    let mut options = options();
    options.detect_renames = false;
    let res = run(&left, &right, &options);
    assert_eq!(res.deleted, vec!["a".to_string()]);
    assert_eq!(res.added, vec!["d".to_string()]);
    assert_eq!(res.common.unchanged, 1);
    assert_eq!(res.common.modified.len(), 1);
    assert_eq!(
        res.changed_paths,
        vec!["a".to_string(), "c".to_string(), "d".to_string()]
    );
}

#[test]
fn limits_and_names() {
    assert_eq!(arg_usize(None, 5, 1, 10), 5);
    assert_eq!(arg_usize(Some(99), 5, 1, 10), 10);
    assert_eq!(arg_usize(Some(0), 5, 1, 10), 1);
    assert!(ensure_dir(true, "x").is_ok());
    assert!(ensure_dir(false, "x").is_err());
    assert_eq!(top_directory("src/a/b.rs"), "src");
    assert_eq!(extension_key("a/b.rs"), ".rs");
    assert_eq!(risk_category("src/auth/x.rs"), "auth/security");
    assert_eq!(symbol_from_line("pub fn run() {").as_deref(), Some("run"));
    assert_eq!(affected_symbols("fn a() {}\n", "fn b() {}\n"), vec![
        "a".to_string(),
        "b".to_string()
    ]);
    let counts = top_counts(&["x".to_string(), "y".to_string(), "x".to_string()]);
    assert_eq!((counts[0].name.as_str(), counts[0].count), ("x", 2));
    assert!(is_at_least(1, 2, Fraction { num: 1, den: 2 }));
    let (equal, total) = similarity(b"a\nb\n", b"a\nb\n");
    assert_eq!(equal, total);
}

#[test]
fn no_file_is_renamed_twice() {
    let left: [(&str, &[u8]); 2] = [("a.md", b"same\n"), ("b.md", b"same\n")];
    let right: [(&str, &[u8]); 1] = [("c.md", b"same\n")];
    let res = run(&left, &right, &options());
    assert_eq!(res.renamed.len(), 1);
    assert_eq!(res.deleted.len(), 1);
    assert_eq!(res.added.len(), 0);
}

#[test]
fn thresholds_are_read_as_decimals() {
    let of = |text: &str| {
        let f = rename_threshold(&Some(text.to_string()));
        (f.num, f.den)
    };
    assert_eq!(rename_threshold(&None), Fraction { num: 85, den: 100 });
    assert_eq!(of("0.5"), (5, 10));
    assert_eq!(of("7"), (1, 1));
    assert_eq!(of("-0.5"), (0, 1));
    assert_eq!(of("0.000000000000000000000001"), (1, 1_000_000_000_000_000_000));
    assert_eq!(of("0.500000000000000000000"), (500_000_000_000_000_000, 1_000_000_000_000_000_000));
    assert_eq!(of("NaN"), (85, 100));
}
