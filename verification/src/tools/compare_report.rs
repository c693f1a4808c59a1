//! The comparison of two directories as a report for a reader.

use vstd::prelude::*;

use crate::lines::{join, str_join};
use crate::numbers::{decimal, usize_decimal};
use crate::text::views;
use crate::tools::compare_directories::{Comparison, RenamedFile, TextChange};
use crate::tools::compare_summary::{NamedCount, DEFAULT_TOP_LIMIT};

verus! {

/// How the comparison is returned.
#[derive(Clone, Copy, Debug, PartialEq, Eq, Structural)]
pub enum OutputFormat {
    Json,
    Markdown,
}

/// The format with that name; the first one stands for a name that is missing.
pub fn parse_output_format(value: &Option<String>) -> (r: Result<OutputFormat, String>)
    ensures
        ({
            let name = crate::tools::edit_file::arg_or(*value, "json"@);
            match r {
                Ok(OutputFormat::Json) => name == "json"@,
                Ok(OutputFormat::Markdown) => name == "markdown"@,
                Err(words) => name != "json"@ && name != "markdown"@ && words@
                    == "Unsupported output_format: "@ + name,
            }
        }),
{
    let name = crate::tools::edit_file::text_or(value, "json");
    if crate::text::str_eq(name.as_str(), "json") {
        return Ok(OutputFormat::Json);
    }
    if crate::text::str_eq(name.as_str(), "markdown") {
        proof {
            reveal_strlit("json");
            reveal_strlit("markdown");
        }
        return Ok(OutputFormat::Markdown);
    }
    let mut words = "Unsupported output_format: ".to_owned();
    words.append(name.as_str());
    Err(words)
}

/// That a path is no directory, where it is none.
pub fn ensure_dir(is_dir: bool, raw: &str) -> (r: Result<(), String>)
    ensures
        r is Ok == is_dir,
        r matches Err(words) ==> words@ == "Path is not a valid directory: "@ + raw@,
{
    if !is_dir {
        let mut words = "Path is not a valid directory: ".to_owned();
        words.append(raw);
        return Err(words);
    }
    Ok(())
}

/// A heading, the lines under it, and an empty line; nothing where there are no
/// lines.
pub open spec fn section(title: Seq<char>, items: Seq<Seq<char>>) -> Seq<Seq<char>> {
    if items.len() == 0 {
        Seq::empty()
    } else {
        seq!["## "@ + title] + items + seq![Seq::<char>::empty()]
    }
}

/// Appends a heading and the lines under it.
fn push_section(lines: &mut Vec<String>, title: &str, items: Vec<String>)
    ensures
        views(final(lines)@) == views(old(lines)@) + section(title@, views(items@)),
{
    let ghost before = lines@;
    let ghost found = items@;
    assert(views(found).len() == found.len());
    if items.len() == 0 {
        assert(views(lines@) =~= views(before) + section(title@, views(found)));
        return ;
    }
    let mut heading = "## ".to_owned();
    heading.append(title);
    let ghost first = heading@;
    lines.push(heading);
    let mut rest = items;
    lines.append(&mut rest);
    lines.push(String::new());
    assert(views(lines@) =~= views(before) + (seq![first] + views(found) + seq![
        Seq::<char>::empty(),
    ]));
}

/// How many of `n` entries a section shows.
pub open spec fn shown(n: nat) -> nat {
    if n <= DEFAULT_TOP_LIMIT {
        n
    } else {
        DEFAULT_TOP_LIMIT as nat
    }
}

/// The lines for names and their counts.
pub open spec fn count_lines(items: Seq<NamedCount>) -> Seq<Seq<char>> {
    Seq::new(
        items.len(),
        |i: int| "- `"@ + items[i].name@ + "`: "@ + decimal(items[i].count as nat),
    )
}

/// The lines for the first of the paths.
pub open spec fn path_lines(items: Seq<String>) -> Seq<Seq<char>> {
    Seq::new(shown(items.len()), |i: int| "- `"@ + items[i]@ + "`"@)
}

/// The lines for the first of the renames.
pub open spec fn rename_lines(items: Seq<RenamedFile>) -> Seq<Seq<char>> {
    Seq::new(
        shown(items.len()),
        |i: int| "- `"@ + items[i].old_path@ + "` → `"@ + items[i].new_path@ + "`"@,
    )
}

/// The lines for the first of the changed files.
pub open spec fn change_lines(items: Seq<TextChange>) -> Seq<Seq<char>> {
    Seq::new(
        shown(items.len()),
        |i: int|
            "- `"@ + items[i].path@ + "` (+"@ + decimal(items[i].inserted_lines as nat) + ", -"@
                + decimal(items[i].deleted_lines as nat) + ")"@,
    )
}

/// The lines at the top of the report.
pub open spec fn head_lines(
    left_path: Seq<char>,
    right_path: Seq<char>,
    c: Comparison,
) -> Seq<Seq<char>> {
    seq![
        "# Directory Compare Report"@,
        Seq::<char>::empty(),
        "- Left: `"@ + left_path + "`"@,
        "- Right: `"@ + right_path + "`"@,
        "- Changed files: "@ + decimal(c.changed_paths@.len()),
        "- Added / deleted / renamed: "@ + decimal(c.added@.len()) + " / "@ + decimal(
            c.deleted@.len(),
        ) + " / "@ + decimal(c.renamed@.len()),
        "- Modified text / binary: "@ + decimal(c.common.modified@.len()) + " / "@ + decimal(
            c.common.binary@.len(),
        ),
        "- Inserted / deleted lines: "@ + decimal(c.common.inserted_lines as nat) + " / "@
            + decimal(c.common.deleted_lines as nat),
        Seq::<char>::empty(),
    ]
}

/// The lines of the report.
pub open spec fn report_lines(
    left_path: Seq<char>,
    right_path: Seq<char>,
    c: Comparison,
) -> Seq<Seq<char>> {
    head_lines(left_path, right_path, c) + section(
        "Top Changed Directories"@,
        count_lines(c.top_changed_directories@),
    ) + section("Extensions"@, count_lines(c.extensions_summary@)) + section(
        "Added Files"@,
        path_lines(c.added@),
    ) + section("Deleted Files"@, path_lines(c.deleted@)) + section(
        "Renamed Files"@,
        rename_lines(c.renamed@),
    ) + section("Modified Files"@, change_lines(c.common.modified@))
}

/// `n`, or the number of entries that a section shows where it is less.
fn shown_of(n: usize) -> (r: usize)
    ensures
        r == shown(n as nat),
        r <= n,
{
    if n <= DEFAULT_TOP_LIMIT {
        n
    } else {
        DEFAULT_TOP_LIMIT
    }
}

/// The lines for names and their counts.
fn lines_of_counts(items: &[NamedCount]) -> (r: Vec<String>)
    ensures
        views(r@) == count_lines(items@),
{
    let mut out: Vec<String> = Vec::new();
    for i in 0..items.len()
        invariant
            out@.len() == i,
            forall|k: int| 0 <= k < i ==> (#[trigger] out@[k])@ == count_lines(items@)[k],
    {
        let mut line = "- `".to_owned();
        line.append(items[i].name.as_str());
        line.append("`: ");
        line.append(usize_decimal(items[i].count).as_str());
        out.push(line);
    }
    assert(views(out@) =~= count_lines(items@));
    out
}

/// The lines for the first of the paths.
fn lines_of_paths(items: &[String]) -> (r: Vec<String>)
    ensures
        views(r@) == path_lines(items@),
{
    let n: usize = shown_of(items.len());
    let mut out: Vec<String> = Vec::new();
    for i in 0..n
        invariant
            n <= items@.len(),
            n == shown(items@.len()),
            out@.len() == i,
            forall|k: int| 0 <= k < i ==> (#[trigger] out@[k])@ == path_lines(items@)[k],
    {
        let mut line = "- `".to_owned();
        line.append(items[i].as_str());
        line.append("`");
        out.push(line);
    }
    assert(views(out@) =~= path_lines(items@));
    out
}

/// The lines for the first of the renames.
fn lines_of_renames(items: &[RenamedFile]) -> (r: Vec<String>)
    ensures
        views(r@) == rename_lines(items@),
{
    let n: usize = shown_of(items.len());
    let mut out: Vec<String> = Vec::new();
    for i in 0..n
        invariant
            n <= items@.len(),
            n == shown(items@.len()),
            out@.len() == i,
            forall|k: int| 0 <= k < i ==> (#[trigger] out@[k])@ == rename_lines(items@)[k],
    {
        let mut line = "- `".to_owned();
        line.append(items[i].old_path.as_str());
        line.append("` → `");
        line.append(items[i].new_path.as_str());
        line.append("`");
        out.push(line);
    }
    assert(views(out@) =~= rename_lines(items@));
    out
}

/// The lines for the first of the changed files.
fn lines_of_changes(items: &[TextChange]) -> (r: Vec<String>)
    ensures
        views(r@) == change_lines(items@),
        forall|i: int|
            0 <= i < r@.len() ==> (#[trigger] r@[i])@ == "- `"@ + items@[i].path@ + "` (+"@
                + decimal(items@[i].inserted_lines as nat) + ", -"@ + decimal(
                items@[i].deleted_lines as nat,
            ) + ")"@,
{
    let n: usize = shown_of(items.len());
    let mut out: Vec<String> = Vec::new();
    for i in 0..n
        invariant
            n <= items@.len(),
            n == shown(items@.len()),
            out@.len() == i,
            forall|k: int| 0 <= k < i ==> (#[trigger] out@[k])@ == change_lines(items@)[k],
    {
        let mut line = "- `".to_owned();
        line.append(items[i].path.as_str());
        line.append("` (+");
        line.append(usize_decimal(items[i].inserted_lines).as_str());
        line.append(", -");
        line.append(usize_decimal(items[i].deleted_lines).as_str());
        line.append(")");
        out.push(line);
    }
    assert(views(out@) =~= change_lines(items@));
    assert forall|i: int| 0 <= i < out@.len() implies (#[trigger] out@[i])@ == "- `"@
        + items@[i].path@ + "` (+"@ + decimal(items@[i].inserted_lines as nat) + ", -"@ + decimal(
        items@[i].deleted_lines as nat,
    ) + ")"@ by {
        assert(views(out@)[i] == change_lines(items@)[i]);
    }
    out
}

/// `prefix`, `text` and `suffix` one after the other.
fn wrapped(prefix: &str, text: &str, suffix: &str) -> (r: String)
    ensures
        r@ == prefix@ + text@ + suffix@,
{
    let mut out = prefix.to_owned();
    out.append(text);
    out.append(suffix);
    out
}

/// The report on the comparison of two directories.
pub fn render_markdown_report(left_path: &str, right_path: &str, c: &Comparison) -> (r: String)
    ensures
        r@ == join(report_lines(left_path@, right_path@, *c), "\n"@),
{
    let mut lines: Vec<String> = Vec::new();
    lines.push("# Directory Compare Report".to_owned());
    lines.push(String::new());
    lines.push(wrapped("- Left: `", left_path, "`"));
    lines.push(wrapped("- Right: `", right_path, "`"));
    let mut changed = "- Changed files: ".to_owned();
    changed.append(usize_decimal(c.changed_paths.len()).as_str());
    lines.push(changed);
    let mut moved = "- Added / deleted / renamed: ".to_owned();
    moved.append(usize_decimal(c.added.len()).as_str());
    moved.append(" / ");
    moved.append(usize_decimal(c.deleted.len()).as_str());
    moved.append(" / ");
    moved.append(usize_decimal(c.renamed.len()).as_str());
    lines.push(moved);
    let mut modified = "- Modified text / binary: ".to_owned();
    modified.append(usize_decimal(c.common.modified.len()).as_str());
    modified.append(" / ");
    modified.append(usize_decimal(c.common.binary.len()).as_str());
    lines.push(modified);
    let mut counted = "- Inserted / deleted lines: ".to_owned();
    counted.append(usize_decimal(c.common.inserted_lines).as_str());
    counted.append(" / ");
    counted.append(usize_decimal(c.common.deleted_lines).as_str());
    lines.push(counted);
    lines.push(String::new());
    assert(views(lines@) =~= head_lines(left_path@, right_path@, *c));
    push_section(
        &mut lines,
        "Top Changed Directories",
        lines_of_counts(c.top_changed_directories.as_slice()),
    );
    push_section(&mut lines, "Extensions", lines_of_counts(c.extensions_summary.as_slice()));
    push_section(&mut lines, "Added Files", lines_of_paths(c.added.as_slice()));
    push_section(&mut lines, "Deleted Files", lines_of_paths(c.deleted.as_slice()));
    push_section(&mut lines, "Renamed Files", lines_of_renames(c.renamed.as_slice()));
    push_section(&mut lines, "Modified Files", lines_of_changes(c.common.modified.as_slice()));
    str_join(lines.as_slice(), "\n")
}

} // verus!
