use codeloupe_mcp::common::path_from_input;
use codeloupe_mcp::encoding::{decode_fuzzy, encode_utf16be_with_bom, has_utf16_bom, is_probably_binary};
use codeloupe_mcp::line_endings::{line_ending_metadata, to_crlf, to_lf};
use codeloupe_mcp::lines::{str_join, str_lines, str_split};
use codeloupe_mcp::tools::convert_file_format::{
    encode_utf16le_with_bom, parse_target_encoding, plan_convert, TargetEncoding,
};
use codeloupe_mcp::tools::count_file_lines::{count_lines, LineCount};
use codeloupe_mcp::tools::file_summary::{detect_language, summarize, FileContent};
use codeloupe_mcp::tools::read_file::{
    apply_limits, check_read, count_text_lines, execute_sync, render_line, ReadError, ReadRequest, ReadResponse,
};
use codeloupe_mcp::tools::read_snippets::{
    build_truncation_continuation, read_snippets, rest_reason, SnippetRequest, SnippetResult,
};

fn range(start: Option<usize>, end: Option<usize>) -> ReadRequest {
    ReadRequest {
        start_line: start,
        end_line: end,
        max_lines: None,
        max_bytes: None,
        include_line_numbers: None,
    }
}

fn read(bytes: &[u8], request: &ReadRequest) -> ReadResponse {
    execute_sync(&Some("a.txt".to_string()), true, bytes.len() as u64, bytes, request)
        .ok()
        .unwrap()
}

fn snippet(path: &str, text: &str, request: ReadRequest) -> SnippetRequest {
    SnippetRequest {
        path: Some(path.to_string()),
        is_file: true,
        len: text.len() as u64,
        bytes: text.as_bytes().to_vec(),
        failure: None,
        request,
    }
}

#[test]
fn test_read_file_range_with_encoding() {
    let utf8 = "Line 1\nLine 2\nTiếng Việt\nLine 4\nLine 5\n".as_bytes();
    let res1 = read(utf8, &range(Some(2), Some(4)));
    assert_eq!(res1.limited.content, "Line 2\nTiếng Việt\nLine 4");
    assert_eq!(res1.encoding, "UTF-8");

    let res2 = read(utf8, &range(Some(4), Some(100)));
    assert_eq!(res2.limited.content, "Line 4\nLine 5\n");
    assert_eq!(res2.total_lines, 5);

    assert_eq!(path_from_input("file:////tmp/uri%20file.txt"), "/tmp/uri file.txt");
    let uri_res = read(b"uri payload\n", &range(None, None));
    assert_eq!(uri_res.limited.content, "uri payload\n");

    let res3 = read(b"\xC7a va\nline 2", &range(None, None));
    assert_eq!(res3.encoding, "windows-1252");
    assert_eq!(res3.limited.content, "Ça va\nline 2");
}

#[test]
fn test_read_file_size_limit() {
    let path = Some("big.bin".to_string());
    let error = check_read(&path, true, 12 * 1024 * 1024, &range(None, None)).err().unwrap();
    assert!(error.message().contains("too large"));
}

#[test]
fn reading_refuses_what_cannot_be_read() {
    let path = Some("a.txt".to_string());
    assert!(matches!(
        check_read(&None, true, 1, &range(None, None)),
        Err(ReadError::MissingPath)
    ));
    assert!(matches!(
        check_read(&path, false, 1, &range(None, None)),
        Err(ReadError::NotAFile(_))
    ));
    assert!(matches!(
        check_read(&path, true, 1, &range(Some(0), None)),
        Err(ReadError::ZeroStartLine)
    ));
    assert!(matches!(
        execute_sync(&path, true, 4, b"a\nb\n", &range(Some(3), Some(1))),
        Err(ReadError::InvalidRange)
    ));
}

#[test]
fn test_count_file_lines_handles_empty_plain_utf16_and_binary_files() {
    match count_lines(b"") {
        LineCount::Text { encoding, line_count, .. } => {
            assert_eq!(line_count, 0);
            assert_eq!(encoding, "UTF-8");
        }
        LineCount::Binary => panic!("text"),
    }
    match count_lines(b"alpha\nbeta\ngamma") {
        LineCount::Text { line_count, ends_with_newline, .. } => {
            assert_eq!(line_count, 3);
            assert!(!ends_with_newline);
        }
        LineCount::Binary => panic!("text"),
    }
    let mut utf16 = vec![0xFF, 0xFE];
    for unit in "first\nsecond\n".encode_utf16() {
        utf16.extend_from_slice(&unit.to_le_bytes());
    }
    match count_lines(&utf16) {
        LineCount::Text { encoding, line_count, ends_with_newline } => {
            assert_eq!(line_count, 2);
            assert_eq!(encoding, "UTF-16LE");
            assert!(ends_with_newline);
        }
        LineCount::Binary => panic!("text"),
    }
    assert!(matches!(count_lines(&[0x01u8, 0x00, 0x02, 0x03]), LineCount::Binary));
}

#[test]
fn test_read_file_range_and_snippets_report_truncation_metadata() {
    let text = "alpha\nbeta\ngamma\ndelta\nepsilon";
    let request = ReadRequest {
        start_line: Some(1),
        end_line: Some(5),
        max_lines: Some(2),
        max_bytes: None,
        include_line_numbers: Some(true),
    };
    let res = read(text.as_bytes(), &request);
    assert_eq!(res.limited.content, "1: alpha\n2: beta");
    assert!(res.limited.truncated);
    assert_eq!(res.limited.returned_lines, 2);
    assert_eq!(res.limited.omitted_lines, 3);
    assert_eq!(res.limited.next_start_line, Some(3));
    assert_eq!(res.limited.end_line, 2);

    let request = ReadRequest {
        start_line: Some(1),
        end_line: Some(5),
        max_lines: Some(2),
        max_bytes: None,
        include_line_numbers: None,
    };
    let batch = read_snippets(&[snippet("lines.txt", text, request)], None);
    match &batch.results[0] {
        SnippetResult::Read { response, .. } => {
            assert!(response.limited.truncated);
            assert_eq!(response.limited.next_start_line, Some(3));
        }
        _ => panic!("read"),
    }
}

#[test]
fn test_read_snippets_reports_batch_continuations_and_skipped_requests() {
    let requests = [
        snippet("first.txt", "alpha\nbeta\ngamma\ndelta\n", range(Some(1), Some(4))),
        snippet("second.txt", "epsilon\nzeta\neta\ntheta\n", range(Some(1), Some(4))),
    ];
    let batch = read_snippets(&requests, Some(12));
    assert!(batch.has_more);
    assert_eq!(batch.results.len(), 2);
    match &batch.results[0] {
        SnippetResult::Read { response, .. } => assert!(response.limited.truncated),
        _ => panic!("read"),
    }
    let next = build_truncation_continuation(&batch.results[0]).unwrap();
    assert_eq!(next.next_start_line, 3);
    assert!(matches!(batch.results[1], SnippetResult::Skipped));
    assert_eq!(batch.skipped_requests, 1);
    assert!(batch.total_content_bytes <= 12);
    let continuations: Vec<&str> = batch.results.iter().filter_map(rest_reason).collect();
    assert_eq!(continuations, ["snippet_truncated", "batch_total_byte_limit_reached"]);
}

#[test]
fn the_closing_line_feed_counts_toward_the_limit() {
    let mut request = range(None, None);
    request.max_bytes = Some(2);
    assert_eq!(read(b"ab\n", &request).limited.content, "ab");
    assert!(!read(b"ab\n", &request).limited.truncated);
    request.max_bytes = Some(3);
    assert_eq!(read(b"ab\n", &request).limited.content, "ab\n");
    let lines = ["ab".to_string()];
    assert_eq!(apply_limits(&lines, 1, false, None, Some(2), true).content, "ab");
    assert_eq!(apply_limits(&lines, 1, false, None, None, true).content, "ab\n");

    let requests = [
        snippet("a.txt", "ab\n", range(None, None)),
        snippet("b.txt", "cd\n", range(None, None)),
    ];
    let batch = read_snippets(&requests, Some(5));
    assert_eq!(batch.total_content_bytes, 5);
    match &batch.results[1] {
        SnippetResult::Read { response, .. } => {
            assert_eq!(response.limited.content, "cd");
            assert_eq!(response.encoding, "UTF-8");
            assert_eq!(response.file_size_bytes, 3);
        }
        _ => panic!("read"),
    }
    let mut nothing = range(None, None);
    nothing.max_bytes = Some(0);
    let batch = read_snippets(&[snippet("a.txt", "a\n", nothing)], Some(5));
    assert_eq!(batch.total_content_bytes, 0);
}

#[test]
fn a_snippet_that_fails_does_not_stop_the_others() {
    let mut bad = snippet("gone.txt", "", range(None, None));
    bad.is_file = false;
    let good = snippet("here.txt", "x\n", range(None, None));
    let batch = read_snippets(&[bad, good], None);
    assert!(matches!(batch.results[0], SnippetResult::Failed(_)));
    assert!(matches!(batch.results[1], SnippetResult::Read { .. }));
    assert_eq!(batch.errored_requests, 1);
    assert_eq!(batch.completed_requests, 1);
}

#[test]
fn test_convert_file_format_writes_real_utf16le() {
    let plan = plan_convert(
        b"line-a\nline-b\n",
        &Some("UTF-16LE".to_string()),
        &Some("crlf".to_string()),
    )
    .ok()
    .unwrap();
    assert_eq!(plan.target.canonical_name(), "UTF-16LE");
    assert!(plan.bytes.starts_with(&[0xFF, 0xFE]));
    let (text, encoding) = decode_fuzzy(&plan.bytes);
    assert_eq!(text, "line-a\r\nline-b\r\n");
    assert_eq!(encoding, "UTF-16LE");
}

#[test]
fn conversion_knows_its_encodings() {
    assert!(matches!(parse_target_encoding("utf-8"), Ok(TargetEncoding::Utf8)));
    assert!(parse_target_encoding("koi8-r").is_err());
    assert_eq!(encode_utf16le_with_bom("a\u{1F600}"), vec![
        0xFF, 0xFE, 0x61, 0x00, 0x3D, 0xD8, 0x00, 0xDE
    ]);
    let narrow = plan_convert("Ça va".as_bytes(), &Some("windows-1252".to_string()), &None);
    assert_eq!(narrow.ok().unwrap().bytes, b"\xC7a va".to_vec());
    let wide = plan_convert("漢".as_bytes(), &Some("windows-1252".to_string()), &None);
    assert!(wide.is_err());
}

#[test]
fn test_trailing_newline_line_counts_are_not_off_by_one() {
    let bytes = b"first\nsecond\nthird\n";
    let res = read(bytes, &range(None, None));
    assert_eq!(res.total_lines, 3);
    assert_eq!(res.limited.returned_lines, 3);
    assert_eq!(res.limited.content, "first\nsecond\nthird\n");
    let text = "first\nsecond\nthird\n";
    let batch = read_snippets(&[snippet("multi.txt", text, range(None, None))], None);
    match &batch.results[0] {
        SnippetResult::Read { response, .. } => assert_eq!(response.total_lines, 3),
        _ => panic!("read"),
    }
    match summarize(bytes, bytes.len() as u64, &Some(bytes.to_vec())) {
        FileContent::Text { lines, .. } => assert_eq!(lines, Some(3)),
        FileContent::Binary => panic!("text"),
    }
}

#[test]
fn pages_of_a_file_continue_each_other() {
    let bytes = b"a\nb\nc\nd\ne\n";
    let mut request = range(None, None);
    request.max_lines = Some(2);
    let mut seen = String::new();
    loop {
        let page = read(bytes, &request);
        seen.push_str(&page.limited.content);
        match page.limited.next_start_line {
            Some(next) => {
                seen.push('\n');
                request.start_line = Some(next);
            }
            None => break,
        }
    }
    assert_eq!(seen, "a\nb\nc\nd\ne\n");
}

#[test]
fn encodings_are_told_apart() {
    assert_eq!(decode_fuzzy("grüße".as_bytes()), ("grüße".to_string(), "UTF-8"));
    assert_eq!(decode_fuzzy(b"\xFE\xFF\x00a\x00b"), ("ab".to_string(), "UTF-16BE"));
    let marked = encode_utf16be_with_bom("a\u{1F600}");
    assert_eq!(marked, [0xFE, 0xFF, 0x00, 0x61, 0xD8, 0x3D, 0xDE, 0x00]);
    assert_eq!(decode_fuzzy(&marked), ("a\u{1F600}".to_string(), "UTF-16BE"));
    assert!(has_utf16_bom(b"\xFF\xFEa\0"));
    assert!(!is_probably_binary(b"\xFF\xFEa\0"));
    assert!(is_probably_binary(b"a\0b"));
}

#[test]
fn line_endings_are_kept_and_changed() {
    assert_eq!(to_lf("a\r\nb\rc\n"), "a\nb\rc\n");
    assert_eq!(to_crlf("a\nb\r\n"), "a\r\nb\r\n");
    assert_eq!(to_crlf(&to_crlf("a\nb")), to_crlf("a\nb"));
    assert_eq!(to_lf(&to_crlf("a\nb\n")), "a\nb\n");
    assert_eq!(line_ending_metadata("a\nb").as_deref(), Some("lf"));
}

#[test]
fn lines_are_counted_and_numbered() {
    assert_eq!(count_text_lines(""), 0);
    assert_eq!(count_text_lines("a"), 1);
    assert_eq!(count_text_lines("a\n"), 1);
    assert_eq!(render_line(7, "x", true), "7: x");
    assert_eq!(render_line(7, "x", false), "x");
}

#[test]
fn summaries_name_the_language() {
    assert_eq!(detect_language("rs"), "Rust");
    assert_eq!(detect_language("m"), "Objective-C");
    assert!(matches!(summarize(b"\x01\0", 2, &None), FileContent::Binary));
}

#[test]
fn split_text_joins_again() {
    for text in ["a,b,,c", "", ",", "plain", "x,"] {
        let parts = str_split(text, ',');
        assert_eq!(str_join(&parts, ","), text);
    }
    assert_eq!(str_split("a,b,,c", ','), vec!["a", "b", "", "c"]);
    assert_eq!(str_lines("a\r\nb\nc"), vec!["a", "b", "c"]);
}
