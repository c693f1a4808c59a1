//! The body of a symbol: by the syntax of its file, or by the shape of its lines.

use vstd::prelude::*;

use crate::encoding::{decode_fuzzy, decoded};
use crate::lines::{join, split, str_join, str_split};
use crate::patterns::{compile_pattern, has_match, is_pattern, pattern_matches};
use crate::syntax::{field_position, role_position, SyntaxNode};
use crate::text::{chars_of, leading_whitespace, str_trim, trim, trim_start, views};
use crate::tools::ast_support::{declaration_in, find_named_node, line_number};
use crate::tools::text_search::{escape_regex, escaped};

verus! {

/// The largest file that is searched by the shape of its lines, in bytes.
pub const READ_FILE_SIZE_LIMIT: u64 = 10 * 1024 * 1024;

/// The lines that are shown where the end of a body is not found.
pub const HEURISTIC_WINDOW_LINES: usize = 80;

/// The body of a symbol, and the lines it stands on.
pub struct SymbolBody {
    pub content: String,
    pub start_line: usize,
    pub end_line: usize,
}

/// The body of a symbol in a node that declares it: all of it, or what it is made of.
pub open spec fn body_node(node: SyntaxNode, include_signature: bool) -> SyntaxNode {
    if include_signature {
        node
    } else {
        match role_position(node, "body"@, 0) {
            Some(i) => node.children@[i],
            None => node,
        }
    }
}

/// The body of a symbol by the syntax of its file, where it is declared there.
pub fn try_ast_match(root: &SyntaxNode, symbol: &str, include_signature: bool) -> (r: Option<
    SymbolBody,
>)
    ensures
        match declaration_in(*root, symbol@, false) {
            Some(node) => r matches Some(body) && {
                let shown = body_node(node, include_signature);
                &&& body.content@ == shown.text@
                &&& body.start_line == line_number(shown.start_row)
                &&& body.end_line == line_number(shown.end_row)
            },
            None => r is None,
        },
{
    match find_named_node(root, symbol, false) {
        None => None,
        Some(node) => {
            let mut shown: &SyntaxNode = node;
            if !include_signature {
                if let Some(i) = field_position(node, "body") {
                    shown = &node.children[i];
                }
            }
            Some(
                SymbolBody {
                    content: shown.text.clone(),
                    start_line: shown.start_row.saturating_add(1),
                    end_line: shown.end_row.saturating_add(1),
                },
            )
        },
    }
}

/// The expression that finds the line that declares a symbol.
pub open spec fn definition_pattern(symbol: Seq<char>) -> Seq<char> {
    "(?i)\\b(fn|pub\\s+fn|func|def|class|struct|enum|trait|interface|type|function|const|let|var|void|int|bool|auto|static)\\s+"@
        + escaped(symbol) + "\\b"@
}

/// The expression that finds the line that declares a symbol.
pub fn heuristic_pattern(symbol: &str) -> (r: String)
    ensures
        r@ == definition_pattern(symbol@),
{
    let mut out =
        "(?i)\\b(fn|pub\\s+fn|func|def|class|struct|enum|trait|interface|type|function|const|let|var|void|int|bool|auto|static)\\s+".to_owned();
    out.append(escape_regex(symbol).as_str());
    out.append("\\b");
    out
}

/// How many characters of white space a line begins with.
pub open spec fn indentation(line: Seq<char>) -> int {
    line.len() - trim_start(line).len()
}

/// How many characters of white space a line begins with.
pub fn indentation_width(line: &str) -> (r: usize)
    ensures
        r == indentation(line@),
{
    let chars = chars_of(line);
    leading_whitespace(chars.as_slice())
}

/// What is known of the braces read so far: how many are open, whether one was, and
/// whether the first was closed.
pub struct Braces {
    pub depth: nat,
    pub seen: bool,
    pub closed: bool,
}

/// What is known of the braces after one more character.
pub open spec fn braces_next(b: Braces, c: char) -> Braces {
    if b.closed {
        b
    } else if c == '{' {
        Braces { depth: b.depth + 1, seen: true, closed: false }
    } else if c == '}' && b.seen {
        Braces {
            depth: if b.depth > 0 {
                (b.depth - 1) as nat
            } else {
                0
            },
            seen: true,
            closed: b.depth <= 1,
        }
    } else {
        b
    }
}

/// What is known of the braces after the first `n` characters of a line.
pub open spec fn braces_after(b: Braces, line: Seq<char>, n: int) -> Braces
    decreases n,
{
    if n <= 0 {
        b
    } else {
        braces_next(braces_after(b, line, n - 1), line[n - 1])
    }
}

/// The line behind the one that closes the first brace opened from line `from` on.
pub open spec fn brace_end(lines: Seq<Seq<char>>, from: int, b: Braces) -> Option<int>
    decreases lines.len() - from,
{
    if from < 0 || from >= lines.len() {
        None
    } else {
        let after = braces_after(b, lines[from], lines[from].len() as int);
        if after.closed {
            Some(from + 1)
        } else {
            brace_end(lines, from + 1, after)
        }
    }
}

/// No brace was read.
pub open spec fn no_braces() -> Braces {
    Braces { depth: 0, seen: false, closed: false }
}

/// What was closed stays closed.
proof fn lemma_closed_stays(b: Braces, line: Seq<char>, i: int, n: int)
    requires
        0 <= i <= n,
        braces_after(b, line, i).closed,
    ensures
        braces_after(b, line, n) == braces_after(b, line, i),
    decreases n,
{
    if i < n {
        lemma_closed_stays(b, line, i, n - 1);
    }
}

/// A block that ends, ends in a line with a closing brace, behind an opening one.
pub proof fn law_brace_end(lines: Seq<Seq<char>>, from: int, b: Braces)
    requires
        0 <= from,
        !b.closed,
    ensures
        brace_end(lines, from, b) matches Some(end) ==> {
            &&& from < end <= lines.len()
            &&& lines[end - 1].contains('}')
            &&& b.seen || exists|k: int| from <= k < end && (#[trigger] lines[k]).contains('{')
        },
    decreases lines.len() - from,
{
    if from < lines.len() {
        let line = lines[from];
        lemma_line_braces(b, line, line.len() as int);
        let after = braces_after(b, line, line.len() as int);
        if !after.closed {
            law_brace_end(lines, from + 1, after);
        }
    }
}

/// A line closes a block, or opens the first, only where it holds the brace.
proof fn lemma_line_braces(b: Braces, line: Seq<char>, n: int)
    requires
        !b.closed,
        0 <= n <= line.len(),
    ensures
        braces_after(b, line, n).closed ==> line.contains('}') && braces_after(b, line, n).seen,
        braces_after(b, line, n).seen && !b.seen ==> line.contains('{'),
    decreases n,
{
    if n > 0 {
        lemma_line_braces(b, line, n - 1);
        assert(line.contains(line[n - 1]));
    }
}

/// The line behind the one that closes the first brace opened from a line on.
pub fn find_brace_delimited_end(lines: &[String], definition_index: usize) -> (r: Option<usize>)
    ensures
        (match r {
            Some(i) => Some(i as int),
            None => None,
        }) == brace_end(views(lines@), definition_index as int, no_braces()),
        r matches Some(i) ==> definition_index < i <= lines@.len(),
        r matches Some(i) ==> lines@[i - 1]@.contains('}') && exists|k: int|
            definition_index <= k < i && (#[trigger] lines@[k])@.contains('{'),
{
    let ghost all = views(lines@);
    let ghost goal = brace_end(all, definition_index as int, no_braces());
    let mut depth: u128 = 0;
    let mut seen: bool = false;
    let mut i: usize = definition_index;
    let count: usize = lines.len();
    let ghost mut b = no_braces();
    while i < count
        invariant
            all == views(lines@),
            count == lines@.len(),
            definition_index <= i,
            b == (Braces { depth: depth as nat, seen, closed: false }),
            depth <= (i - definition_index) * 0x1_0000_0000_0000_0000,
            goal == brace_end(all, i as int, b),
            goal == brace_end(views(lines@), definition_index as int, no_braces()),
        decreases lines@.len() - i,
    {
        let chars = chars_of(lines[i].as_str());
        let total: usize = chars.len();
        let ghost line = all[i as int];
        assert(line == lines@[i as int]@);
        let mut j: usize = 0;
        while j < total
            invariant
                all == views(lines@),
                i < count,
                count == lines@.len(),
                definition_index <= i,
                line == all[i as int],
                chars@ == line,
                total == chars@.len(),
                j <= total,
                braces_after(b, line, j as int) == (Braces {
                    depth: depth as nat,
                    seen,
                    closed: false,
                }),
                depth <= (i - definition_index) * 0x1_0000_0000_0000_0000 + j,
                goal == brace_end(all, i as int, b),
                goal == brace_end(views(lines@), definition_index as int, no_braces()),
            decreases total - j,
        {
            let c: char = chars[j];
            assert(braces_after(b, line, j + 1) == braces_next(braces_after(b, line, j as int), c));
            if c == '{' {
                assert(depth < u128::MAX) by {
                    assert(i - definition_index <= 0xffff_ffff_ffff_ffff);
                    assert(j <= 0xffff_ffff_ffff_fffe);
                }
                depth = depth + 1;
                seen = true;
            } else if c == '}' && seen {
                if depth <= 1 {
                    proof {
                        lemma_closed_stays(b, line, j + 1, total as int);
                        law_brace_end(all, definition_index as int, no_braces());
                        let k = choose|k: int|
                            definition_index <= k < i + 1 && (#[trigger] all[k]).contains('{');
                        assert(lines@[k]@.contains('{'));
                    }
                    return Some(i + 1);
                }
                depth = depth - 1;
            }
            j += 1;
        }
        proof {
            b = braces_after(b, line, total as int);
        }
        i += 1;
    }
    None
}

/// The line at which a body ends that is set in deeper than `indent`, read from line
/// `from` on; `found` says that its first line was read. There is none where the first
/// line that is not blank is not set in deeper.
pub open spec fn indent_end(
    lines: Seq<Seq<char>>,
    from: int,
    indent: int,
    found: bool,
) -> Option<int>
    decreases lines.len() - from,
{
    if from < 0 || from >= lines.len() {
        if found {
            Some(lines.len() as int)
        } else {
            None
        }
    } else if trim(lines[from]).len() == 0 {
        indent_end(lines, from + 1, indent, found)
    } else if indentation(lines[from]) <= indent {
        if found {
            Some(from)
        } else {
            None
        }
    } else {
        indent_end(lines, from + 1, indent, true)
    }
}

/// Whether a line is blank.
pub open spec fn is_blank(line: Seq<char>) -> bool {
    trim(line).len() == 0
}

/// A block by its indentation goes on over blank lines and those that stand further in,
/// of which there is one, up to a line that does not.
pub proof fn law_indent_end(lines: Seq<Seq<char>>, from: int, indent: int, found: bool)
    requires
        0 <= from <= lines.len(),
    ensures
        match indent_end(lines, from, indent, found) {
            Some(end) => {
                &&& from <= end <= lines.len()
                &&& forall|k: int|
                    from <= k < end ==> is_blank(#[trigger] lines[k]) || indentation(lines[k])
                        > indent
                &&& end < lines.len() ==> !is_blank(lines[end]) && indentation(lines[end])
                    <= indent
                &&& found || exists|k: int| from <= k < end && !is_blank(#[trigger] lines[k])
            },
            None => !found && (forall|k: int| from <= k < lines.len() ==> is_blank(#[trigger] lines[k]))
                || !found && exists|k: int|
                from <= k < lines.len() && !is_blank(#[trigger] lines[k]) && indentation(lines[k])
                    <= indent && forall|j: int| from <= j < k ==> is_blank(#[trigger] lines[j]),
        },
    decreases lines.len() - from,
{
    if from < lines.len() {
        if is_blank(lines[from]) {
            law_indent_end(lines, from + 1, indent, found);
        } else if indentation(lines[from]) > indent {
            law_indent_end(lines, from + 1, indent, true);
        }
    }
}

/// The line at which a body ends that is set in deeper than its first line.
pub fn find_indentation_delimited_end(
    lines: &[String],
    definition_index: usize,
    definition_indent: usize,
) -> (r: Option<usize>)
    requires
        definition_index < lines@.len(),
    ensures
        (match r {
            Some(i) => Some(i as int),
            None => None,
        }) == indent_end(
            views(lines@),
            definition_index + 1,
            definition_indent as int,
            false,
        ),
        r matches Some(i) ==> definition_index < i <= lines@.len(),
        r matches Some(i) ==> {
            &&& forall|k: int|
                definition_index < k < i ==> is_blank((#[trigger] lines@[k])@) || indentation(
                    lines@[k]@,
                ) > definition_indent
            &&& i < lines@.len() ==> !is_blank(lines@[i as int]@) && indentation(
                lines@[i as int]@,
            ) <= definition_indent
        },
{
    let ghost all = views(lines@);
    let ghost goal = indent_end(all, definition_index + 1, definition_indent as int, false);
    let total: usize = lines.len();
    let mut found: bool = false;
    let mut i: usize = definition_index + 1;
    while i < total
        invariant
            all == views(lines@),
            total == lines@.len(),
            definition_index < i <= total,
            goal == indent_end(all, i as int, definition_indent as int, found),
            goal == indent_end(
                views(lines@),
                definition_index + 1,
                definition_indent as int,
                false,
            ),
        decreases total - i,
    {
        assert(all[i as int] == lines@[i as int]@);
        if !str_trim(lines[i].as_str()).as_str().is_empty() {
            if indentation_width(lines[i].as_str()) <= definition_indent {
                proof {
                    law_indent_end(all, definition_index + 1, definition_indent as int, false);
                    assert forall|k: int| 0 <= k < lines@.len() implies all[k] == (
                    #[trigger] lines@[k])@ by {}
                }
                return if found {
                    Some(i)
                } else {
                    None
                };
            }
            found = true;
        }
        i += 1;
    }
    proof {
        law_indent_end(all, definition_index + 1, definition_indent as int, false);
        assert forall|k: int| 0 <= k < lines@.len() implies all[k] == (#[trigger] lines@[k])@ by {}
    }
    if found {
        Some(total)
    } else {
        None
    }
}

/// The body of a symbol by the shape of its lines, and how sure that is.
pub struct HeuristicBody {
    pub content: String,
    pub start_line: usize,
    pub end_line: usize,
    pub confidence: &'static str,
}

/// Where the body of a symbol ends that is declared on a line, and how sure that is: at
/// the brace that closes it, else where the lines are no longer set in, else after so
/// many lines.
pub open spec fn body_end(lines: Seq<Seq<char>>, at: int) -> (int, Seq<char>) {
    match brace_end(lines, at, no_braces()) {
        Some(end) => (end, "medium"@),
        None => match indent_end(lines, at + 1, indentation(lines[at]), false) {
            Some(end) => (end, "medium"@),
            None => (
                if at + HEURISTIC_WINDOW_LINES < lines.len() {
                    at + HEURISTIC_WINDOW_LINES
                } else {
                    lines.len() as int
                },
                "low"@,
            ),
        },
    }
}

/// The line that is shown first: the one that declares the symbol, or the next one where
/// there is one.
pub open spec fn body_start(at: int, end: int, include_signature: bool) -> int {
    if include_signature || at + 1 >= end {
        at
    } else {
        at + 1
    }
}

/// The body of a symbol that is declared on a line.
pub open spec fn is_heuristic_body(
    lines: Seq<Seq<char>>,
    at: int,
    include_signature: bool,
    body: HeuristicBody,
) -> bool {
    let (end, confidence) = body_end(lines, at);
    let start = body_start(at, end, include_signature);
    &&& body.content@ == join(lines.subrange(start, end), "\n"@)
    &&& body.start_line == start + 1
    &&& body.end_line == end
    &&& body.confidence@ == confidence
}

/// The body of a symbol that is declared on a line.
pub fn extract_heuristic_body(
    lines: &[String],
    definition_index: usize,
    include_signature: bool,
) -> (r: HeuristicBody)
    requires
        definition_index < lines@.len(),
    ensures
        is_heuristic_body(views(lines@), definition_index as int, include_signature, r),
        definition_index < r.start_line <= r.end_line <= lines@.len(),
        r.content@ == join(
            views(lines@).subrange(r.start_line - 1, r.end_line as int),
            "\n"@,
        ),
        include_signature ==> r.start_line == definition_index + 1,
        !include_signature && r.end_line > definition_index + 1 ==> r.start_line
            == definition_index + 2,
{
    let ghost all = views(lines@);
    let total: usize = lines.len();
    assert(all[definition_index as int] == lines@[definition_index as int]@);
    let indent: usize = indentation_width(lines[definition_index].as_str());
    let end: usize;
    let confidence: &'static str;
    match find_brace_delimited_end(lines, definition_index) {
        Some(i) => {
            end = i;
            confidence = "medium";
        },
        None => match find_indentation_delimited_end(lines, definition_index, indent) {
            Some(i) => {
                end = i;
                confidence = "medium";
            },
            None => {
                end = if total - definition_index > HEURISTIC_WINDOW_LINES {
                    definition_index + HEURISTIC_WINDOW_LINES
                } else {
                    total
                };
                confidence = "low";
            },
        },
    }
    let start: usize = if include_signature || definition_index + 1 >= end {
        definition_index
    } else {
        definition_index + 1
    };
    let part = vstd::slice::slice_subrange(lines, start, end);
    assert(views(part@) =~= all.subrange(start as int, end as int));
    HeuristicBody {
        content: str_join(part, "\n"),
        start_line: start + 1,
        end_line: end,
        confidence,
    }
}

/// The first line, from `from` on, in which the pattern is found.
pub open spec fn first_match(pattern: Seq<char>, lines: Seq<Seq<char>>, from: int) -> Option<int>
    decreases lines.len() - from,
{
    if from < 0 || from >= lines.len() {
        None
    } else if has_match(pattern, lines[from]) {
        Some(from)
    } else {
        first_match(pattern, lines, from + 1)
    }
}

/// The line that is found is the first in which the pattern matches.
pub proof fn law_first_match(pattern: Seq<char>, lines: Seq<Seq<char>>, from: int)
    requires
        0 <= from <= lines.len(),
    ensures
        match first_match(pattern, lines, from) {
            Some(k) => from <= k < lines.len() && has_match(pattern, lines[k]) && forall|j: int|
                from <= j < k ==> !has_match(pattern, #[trigger] lines[j]),
            None => forall|j: int|
                from <= j < lines.len() ==> !has_match(pattern, #[trigger] lines[j]),
        },
    decreases lines.len() - from,
{
    if from < lines.len() {
        law_first_match(pattern, lines, from + 1);
    }
}

/// The body of a symbol in the bytes of a file, by the shape of its lines; nothing where
/// no line declares it. The expression that finds the line is refused where it is too
/// large.
pub fn try_heuristic_match(bytes: &[u8], symbol: &str, include_signature: bool) -> (r: Result<
    Option<HeuristicBody>,
    &'static str,
>)
    ensures
        ({
            let pattern = definition_pattern(symbol@);
            let lines = split(decoded(bytes@).0, '\n');
            match r {
                Err(e) => !is_pattern(pattern) && e@ == "Invalid heuristic definition regex"@,
                Ok(None) => is_pattern(pattern) && first_match(pattern, lines, 0) is None,
                Ok(Some(body)) => {
                    &&& is_pattern(pattern)
                    &&& first_match(pattern, lines, 0) matches Some(at)
                    &&& is_heuristic_body(lines, at, include_signature, body)
                },
            }
        }),
        r matches Ok(None) ==> forall|j: int|
            0 <= j < split(decoded(bytes@).0, '\n').len() ==> !has_match(
                definition_pattern(symbol@),
                #[trigger] split(decoded(bytes@).0, '\n')[j],
            ),
        r is Ok && r->Ok_0 is Some && include_signature ==> has_match(
            definition_pattern(symbol@),
            split(decoded(bytes@).0, '\n')[r->Ok_0->0.start_line - 1],
        ),
{
    proof {
        law_first_match(definition_pattern(symbol@), split(decoded(bytes@).0, '\n'), 0);
    }
    let pattern = heuristic_pattern(symbol);
    let re: regex::Regex = match compile_pattern(pattern.as_str()) {
        Some(re) => re,
        None => {
            return Err("Invalid heuristic definition regex");
        },
    };
    let (text, _encoding) = decode_fuzzy(bytes);
    let lines = str_split(text.as_str(), '\n');
    let ghost all = split(decoded(bytes@).0, '\n');
    assert(views(lines@) == all);
    assert(all.len() == lines@.len());
    let mut i: usize = 0;
    while i < lines.len()
        invariant
            i <= lines@.len(),
            all == split(decoded(bytes@).0, '\n'),
            views(lines@) == all,
            is_pattern(pattern@),
            pattern@ == definition_pattern(symbol@),
            crate::patterns::pattern_of(re) == pattern@,
            first_match(pattern@, all, 0) == first_match(pattern@, all, i as int),
        decreases lines@.len() - i,
    {
        assert(views(lines@)[i as int] == lines@[i as int]@);
        if pattern_matches(&re, lines[i].as_str()) {
            return Ok(Some(extract_heuristic_body(lines.as_slice(), i, include_signature)));
        }
        i += 1;
    }
    assert(all.len() == lines@.len());
    Ok(None)
}

/// What a caller is told whose symbol was found in no file.
pub fn unresolved_text(symbol: &str) -> (r: String)
    ensures
        r@ == "Could not resolve symbol '"@ + symbol@ + "'"@,
{
    let mut text = "Could not resolve symbol '".to_owned();
    text.append(symbol);
    text.append("'");
    text
}

/// The body of a symbol with the file it was found in, by what it was found, and how
/// far that is to be trusted.
pub struct FoundSymbol {
    pub file: String,
    pub content: String,
    pub start_line: usize,
    pub end_line: usize,
    pub match_source: &'static str,
    pub confidence: &'static str,
}

/// The body of a symbol in a file, by the syntax of the file.
pub fn resolve_by_syntax(
    file: &str,
    root: &SyntaxNode,
    symbol: &str,
    include_signature: bool,
) -> (r: Option<FoundSymbol>)
    ensures
        match declaration_in(*root, symbol@, false) {
            Some(node) => r matches Some(found) && {
                let shown = body_node(node, include_signature);
                &&& found.file@ == file@
                &&& found.content@ == shown.text@
                &&& found.start_line == line_number(shown.start_row)
                &&& found.end_line == line_number(shown.end_row)
                &&& found.match_source@ == "ast"@
                &&& found.confidence@ == "high"@
            },
            None => r is None,
        },
{
    match try_ast_match(root, symbol, include_signature) {
        Some(body) => Some(
            FoundSymbol {
                file: file.to_owned(),
                content: body.content,
                start_line: body.start_line,
                end_line: body.end_line,
                match_source: "ast",
                confidence: "high",
            },
        ),
        None => None,
    }
}

/// The body of a symbol in the bytes of a file, by the shape of its lines.
pub fn resolve_by_lines(
    file: &str,
    bytes: &[u8],
    symbol: &str,
    include_signature: bool,
) -> (r: Result<Option<FoundSymbol>, &'static str>)
    ensures
        ({
            let pattern = definition_pattern(symbol@);
            let lines = split(decoded(bytes@).0, '\n');
            match r {
                Err(e) => !is_pattern(pattern) && e@ == "Invalid heuristic definition regex"@,
                Ok(None) => is_pattern(pattern) && first_match(pattern, lines, 0) is None,
                Ok(Some(found)) => {
                    &&& is_pattern(pattern)
                    &&& first_match(pattern, lines, 0) matches Some(at)
                    &&& is_heuristic_body(
                        lines,
                        at,
                        include_signature,
                        HeuristicBody {
                            content: found.content,
                            start_line: found.start_line,
                            end_line: found.end_line,
                            confidence: found.confidence,
                        },
                    )
                    &&& found.file@ == file@
                    &&& found.match_source@ == "heuristic"@
                },
            }
        }),
{
    match try_heuristic_match(bytes, symbol, include_signature) {
        Ok(Some(body)) => Ok(
            Some(
                FoundSymbol {
                    file: file.to_owned(),
                    content: body.content,
                    start_line: body.start_line,
                    end_line: body.end_line,
                    match_source: "heuristic",
                    confidence: body.confidence,
                },
            ),
        ),
        Ok(None) => Ok(None),
        Err(e) => Err(e),
    }
}

/// What a search for a symbol answers: what the syntax of a file shows comes before what
/// the lines of any file suggest.
pub fn choose_symbol(
    symbol: &str,
    by_syntax: Option<FoundSymbol>,
    by_lines: Option<FoundSymbol>,
) -> (r: Result<FoundSymbol, String>)
    ensures
        match (by_syntax, by_lines) {
            (Some(found), _) => r == Ok::<FoundSymbol, String>(found),
            (None, Some(found)) => r == Ok::<FoundSymbol, String>(found),
            (None, None) => r matches Err(e) && e@ == "Could not resolve symbol '"@ + symbol@
                + "'"@,
        },
{
    match by_syntax {
        Some(found) => Ok(found),
        None => match by_lines {
            Some(found) => Ok(found),
            None => Err(unresolved_text(symbol)),
        },
    }
}

} // verus!
