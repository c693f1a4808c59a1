//! What can be said of a file from its name and its first bytes.

use vstd::prelude::*;

use crate::encoding::{decode_fuzzy, decoded, is_probably_binary, looks_binary};
use crate::lines::{join, lines, str_join, str_lines};
use crate::text::{str_eq, views};
use crate::tools::read_file::{count_text_lines, text_lines};

verus! {

/// The largest file whose lines are counted, in bytes.
pub const MAX_COUNTED_BYTES: u64 = 50 * 1024 * 1024;

/// How many lines the preview has at most.
pub const PREVIEW_LINES: usize = 10;

/// The language that a file name extension stands for.
pub open spec fn language_of(ext: Seq<char>) -> Seq<char> {
    if ext == "rs"@ {
        "Rust"@
    } else if ext == "py"@ {
        "Python"@
    } else if ext == "js"@ {
        "JavaScript"@
    } else if ext == "ts"@ || ext == "tsx"@ {
        "TypeScript"@
    } else if ext == "jsx"@ {
        "JSX"@
    } else if ext == "java"@ {
        "Java"@
    } else if ext == "c"@ || ext == "h"@ {
        "C"@
    } else if ext == "cpp"@ || ext == "cc"@ || ext == "cxx"@ || ext == "hpp"@ {
        "C++"@
    } else if ext == "cs"@ {
        "C#"@
    } else if ext == "go"@ {
        "Go"@
    } else if ext == "rb"@ {
        "Ruby"@
    } else if ext == "php"@ {
        "PHP"@
    } else if ext == "swift"@ {
        "Swift"@
    } else if ext == "m"@ || ext == "mm"@ {
        "Objective-C"@
    } else if ext == "kt"@ || ext == "kts"@ {
        "Kotlin"@
    } else if ext == "scala"@ {
        "Scala"@
    } else if ext == "sh"@ || ext == "bash"@ {
        "Shell"@
    } else if ext == "ps1"@ {
        "PowerShell"@
    } else if ext == "sql"@ {
        "SQL"@
    } else if ext == "html"@ || ext == "htm"@ {
        "HTML"@
    } else if ext == "css"@ || ext == "scss"@ || ext == "sass"@ || ext == "less"@ {
        "CSS"@
    } else if ext == "json"@ {
        "JSON"@
    } else if ext == "yaml"@ || ext == "yml"@ {
        "YAML"@
    } else if ext == "toml"@ {
        "TOML"@
    } else if ext == "xml"@ {
        "XML"@
    } else if ext == "md"@ || ext == "markdown"@ {
        "Markdown"@
    } else if ext == "txt"@ {
        "Text"@
    } else if ext == "proto"@ {
        "Protobuf"@
    } else if ext == "lua"@ {
        "Lua"@
    } else if ext == "r"@ {
        "R"@
    } else if ext == "dart"@ {
        "Dart"@
    } else if ext == "ex"@ || ext == "exs"@ {
        "Elixir"@
    } else if ext == "zig"@ {
        "Zig"@
    } else {
        "Unknown"@
    }
}

/// The language that a file name extension stands for.
pub fn detect_language(ext: &str) -> (r: &'static str)
    ensures
        r@ == language_of(ext@),
{
    if str_eq(ext, "rs") {
        "Rust"
    } else if str_eq(ext, "py") {
        "Python"
    } else if str_eq(ext, "js") {
        "JavaScript"
    } else if str_eq(ext, "ts") || str_eq(ext, "tsx") {
        "TypeScript"
    } else if str_eq(ext, "jsx") {
        "JSX"
    } else if str_eq(ext, "java") {
        "Java"
    } else if str_eq(ext, "c") || str_eq(ext, "h") {
        "C"
    } else if str_eq(ext, "cpp") || str_eq(ext, "cc") || str_eq(ext, "cxx") || str_eq(ext, "hpp") {
        "C++"
    } else if str_eq(ext, "cs") {
        "C#"
    } else if str_eq(ext, "go") {
        "Go"
    } else if str_eq(ext, "rb") {
        "Ruby"
    } else if str_eq(ext, "php") {
        "PHP"
    } else if str_eq(ext, "swift") {
        "Swift"
    } else if str_eq(ext, "m") || str_eq(ext, "mm") {
        "Objective-C"
    } else if str_eq(ext, "kt") || str_eq(ext, "kts") {
        "Kotlin"
    } else if str_eq(ext, "scala") {
        "Scala"
    } else if str_eq(ext, "sh") || str_eq(ext, "bash") {
        "Shell"
    } else if str_eq(ext, "ps1") {
        "PowerShell"
    } else if str_eq(ext, "sql") {
        "SQL"
    } else if str_eq(ext, "html") || str_eq(ext, "htm") {
        "HTML"
    } else if str_eq(ext, "css") || str_eq(ext, "scss") || str_eq(ext, "sass") || str_eq(ext, "less") {
        "CSS"
    } else if str_eq(ext, "json") {
        "JSON"
    } else if str_eq(ext, "yaml") || str_eq(ext, "yml") {
        "YAML"
    } else if str_eq(ext, "toml") {
        "TOML"
    } else if str_eq(ext, "xml") {
        "XML"
    } else if str_eq(ext, "md") || str_eq(ext, "markdown") {
        "Markdown"
    } else if str_eq(ext, "txt") {
        "Text"
    } else if str_eq(ext, "proto") {
        "Protobuf"
    } else if str_eq(ext, "lua") {
        "Lua"
    } else if str_eq(ext, "r") {
        "R"
    } else if str_eq(ext, "dart") {
        "Dart"
    } else if str_eq(ext, "ex") || str_eq(ext, "exs") {
        "Elixir"
    } else if str_eq(ext, "zig") {
        "Zig"
    } else {
        "Unknown"
    }
}

/// What a file holds: bytes that are no text, or text with its encoding, the
/// first of its lines, and the number of all of them where that is known.
pub enum FileContent {
    Binary,
    Text { encoding: &'static str, outline_preview: String, lines: Option<usize> },
}

/// The first lines of a text, joined again.
pub open spec fn outline(text: Seq<char>) -> Seq<char> {
    let all = lines(text);
    if all.len() <= PREVIEW_LINES {
        join(all, "\n"@)
    } else {
        join(all.take(PREVIEW_LINES as int), "\n"@)
    }
}

/// The first lines of a text, joined again.
pub fn outline_preview(text: &str) -> (r: String)
    ensures
        r@ == outline(text@),
        r@ == join(
            lines(text@).take(
                if lines(text@).len() > 10 {
                    10
                } else {
                    lines(text@).len() as int
                },
            ),
            "\n"@,
        ),
{
    proof {
        assert(lines(text@).take(lines(text@).len() as int) =~= lines(text@));
    }
    let mut all = str_lines(text);
    let ghost found = all@;
    assert(views(found).len() == found.len());
    if all.len() > PREVIEW_LINES {
        all.truncate(PREVIEW_LINES);
        assert(views(all@) =~= views(found).take(PREVIEW_LINES as int));
    }
    str_join(all.as_slice(), "\n")
}

/// What a file holds: `buffer` are its first bytes, `total_size` its size, and
/// `full` all its bytes where they could be read.
pub fn summarize(buffer: &[u8], total_size: u64, full: &Option<Vec<u8>>) -> (r: FileContent)
    ensures
        if looks_binary(buffer@) {
            r is Binary
        } else {
            &&& r matches FileContent::Text { encoding, outline_preview, lines }
            &&& encoding@ == decoded(buffer@).1
            &&& outline_preview@ == outline(decoded(buffer@).0)
            &&& lines is Some == (total_size <= MAX_COUNTED_BYTES && full is Some)
            &&& lines is Some ==> lines->0 == text_lines(decoded(full->0@).0).len()
        },
        r matches FileContent::Text { lines: Some(n), .. } ==> total_size <= 50 * 1024 * 1024 && n
            == crate::lines::newlines(decoded((*full)->0@).0) + if decoded((*full)->0@).0.len() > 0
            && decoded((*full)->0@).0.last() != '\n' {
            1nat
        } else {
            0nat
        },
{
    if is_probably_binary(buffer) {
        return FileContent::Binary;
    }
    let (text, encoding) = decode_fuzzy(buffer);
    let preview = outline_preview(text.as_str());
    let lines: Option<usize> = if total_size > MAX_COUNTED_BYTES {
        None
    } else {
        match full {
            Some(bytes) => {
                let (content, _label) = decode_fuzzy(bytes.as_slice());
                Some(count_text_lines(content.as_str()))
            },
            None => None,
        }
    };
    FileContent::Text { encoding, outline_preview: preview, lines }
}

} // verus!
