//! Listing the headings of a Markdown file, and reading one of its sections.

use vstd::prelude::*;

use crate::text::{opt_view, views};
use crate::tools::compare_directories::capped_sum;
use crate::tools::markdown_support::{
    answers_to, heading_views, headings_of, match_heading, matched, parse_headings, section_end,
    section_end_line, Heading, MarkdownHeading, SectionSpanMode,
};

verus! {

/// What a caller asks for of a section.
pub struct SectionArgs {
    pub path: Option<String>,
    pub heading: Option<String>,
    pub heading_path: Option<Vec<String>>,
    pub exact: Option<bool>,
    pub include_heading: Option<bool>,
    pub include_subsections: Option<bool>,
}

/// The path by which a heading is asked for.
pub open spec fn path_asked(args: SectionArgs) -> Option<Seq<Seq<char>>> {
    match args.heading_path {
        Some(p) => Some(views(p@)),
        None => None,
    }
}

/// What is wrong with what is asked for, before the file is read.
pub open spec fn section_args_error(args: SectionArgs) -> Option<Seq<char>> {
    if args.path is None {
        Some("Missing path"@)
    } else if args.heading is None && args.heading_path is None {
        Some("Either heading or heading_path is required"@)
    } else {
        None
    }
}

/// Checks what is asked for before the file is read.
pub fn check_section_args(args: &SectionArgs) -> (r: Result<(), &'static str>)
    ensures
        (match r {
            Ok(_) => None,
            Err(e) => Some(e@),
        }) == section_args_error(*args),
{
    if args.path.is_none() {
        return Err("Missing path");
    }
    if args.heading.is_none() && args.heading_path.is_none() {
        return Err("Either heading or heading_path is required");
    }
    Ok(())
}

/// The lines of a section: from `start_line` to `end_line`, none where the first
/// is behind the last.
pub struct SectionSpan {
    pub heading: MarkdownHeading,
    pub start_line: usize,
    pub end_line: usize,
    pub include_heading: bool,
    pub include_subsections: bool,
}

/// The yes or no that is given, or else the default.
pub open spec fn flag_or(flag: Option<bool>, default: bool) -> bool {
    match flag {
        Some(b) => b,
        None => default,
    }
}

/// The lines of the section are those asked for.
pub open spec fn is_section(
    headings: Seq<Heading>,
    total_lines: nat,
    args: SectionArgs,
    index: int,
    r: SectionSpan,
) -> bool {
    let mode = if flag_or(args.include_subsections, true) {
        SectionSpanMode::IncludeSubsections
    } else {
        SectionSpanMode::HeadingBodyOnly
    };
    &&& r.heading@ == headings[index]
    &&& r.include_heading == flag_or(args.include_heading, true)
    &&& r.include_subsections == flag_or(args.include_subsections, true)
    &&& r.end_line == section_end(headings, index, index + 1, total_lines, mode)
    &&& r.start_line == if r.include_heading {
        headings[index].line
    } else {
        capped_sum(headings[index].line, 1)
    }
}

/// Finds the section that is asked for in a text of so many lines.
pub fn find_section(content: &str, total_lines: usize, args: &SectionArgs) -> (r: Result<
    SectionSpan,
    String,
>)
    ensures
        match matched(
            headings_of(content@),
            opt_view(args.heading),
            path_asked(*args),
            flag_or(args.exact, false),
        ) {
            Err(words) => r matches Err(e) && e@ == words,
            Ok(index) => r matches Ok(span) && is_section(
                headings_of(content@),
                total_lines as nat,
                *args,
                index,
                span,
            ),
        },
        r matches Ok(span) ==> {
            &&& answers_to(
                span.heading@,
                opt_view(args.heading),
                path_asked(*args),
                args.exact == Some(true),
            )
            &&& headings_of(content@).contains(span.heading@)
            &&& args.include_heading != Some(false) ==> span.start_line == span.heading.line
            &&& args.include_heading == Some(false) && span.heading.line < usize::MAX
                ==> span.start_line == span.heading.line + 1
            &&& span.include_heading == (args.include_heading != Some(false))
            &&& span.include_subsections == (args.include_subsections != Some(false))
        },
{
    let mut headings = parse_headings(content);
    let ghost all = headings_of(content@);
    assert(all.len() == headings@.len());
    let exact = match args.exact {
        Some(b) => b,
        None => false,
    };
    let include_heading = match args.include_heading {
        Some(b) => b,
        None => true,
    };
    let include_subsections = match args.include_subsections {
        Some(b) => b,
        None => true,
    };
    let index: usize = match match_heading(
        headings.as_slice(),
        &args.heading,
        &args.heading_path,
        exact,
    ) {
        Ok(i) => i,
        Err(e) => return Err(e),
    };
    let mode = if include_subsections {
        SectionSpanMode::IncludeSubsections
    } else {
        SectionSpanMode::HeadingBodyOnly
    };
    let end_line: usize = section_end_line(headings.as_slice(), index, total_lines, mode);
    assert(all[index as int] == headings@[index as int]@);
    let line: usize = headings[index].line;
    let start_line: usize = if include_heading {
        line
    } else {
        line.saturating_add(1)
    };
    assert(answers_to(
        headings@[index as int]@,
        opt_view(args.heading),
        path_asked(*args),
        exact,
    ));
    let heading = headings.remove(index);
    Ok(SectionSpan { heading, start_line, end_line, include_heading, include_subsections })
}

/// A heading with the last line of its section.
pub struct OutlineItem {
    pub heading: MarkdownHeading,
    pub section_end_line: usize,
}

/// A heading with the last line of its section.
pub struct Entry {
    pub heading: Heading,
    pub end: int,
}

/// The headings with the last lines of their sections.
pub open spec fn entry_views(items: Seq<OutlineItem>) -> Seq<Entry> {
    Seq::new(
        items.len(),
        |i: int| Entry { heading: items[i].heading@, end: items[i].section_end_line as int },
    )
}

/// The headings, of the first `n`, that are no deeper than asked for, with the
/// last lines of their sections.
pub open spec fn outlined(
    headings: Seq<Heading>,
    total_lines: nat,
    max_depth: Option<usize>,
    n: int,
) -> Seq<Entry>
    decreases n,
{
    if n <= 0 {
        Seq::empty()
    } else {
        let before = outlined(headings, total_lines, max_depth, n - 1);
        if max_depth is None || headings[n - 1].level <= max_depth->0 {
            before.push(
                Entry {
                    heading: headings[n - 1],
                    end: section_end(
                        headings,
                        n - 1,
                        n,
                        total_lines,
                        SectionSpanMode::IncludeSubsections,
                    ),
                },
            )
        } else {
            before
        }
    }
}

/// A copy of a heading.
fn copy_heading(h: &MarkdownHeading) -> (r: MarkdownHeading)
    ensures
        r@ == h@,
{
    MarkdownHeading {
        title: h.title.clone(),
        level: h.level,
        line: h.line,
        path: crate::indexer::runtime::copy_texts(h.path.as_slice()),
        slug: h.slug.clone(),
    }
}

/// An outline shows the headings that are not too deep, in their order.
pub proof fn law_outline_shown(
    headings: Seq<Heading>,
    total_lines: nat,
    max_depth: Option<usize>,
    n: int,
)
    requires
        0 <= n <= headings.len(),
    ensures
        ({
            let shown = headings.take(n).filter(
                |h: Heading| max_depth is None || h.level <= max_depth->0,
            );
            let entries = outlined(headings, total_lines, max_depth, n);
            &&& entries.len() == shown.len()
            &&& forall|i: int| 0 <= i < shown.len() ==> (#[trigger] entries[i]).heading == shown[i]
        }),
    decreases n,
{
    reveal(Seq::filter);
    if n > 0 {
        law_outline_shown(headings, total_lines, max_depth, n - 1);
        assert(headings.take(n).drop_last() =~= headings.take(n - 1));
        assert(headings.take(n).last() == headings[n - 1]);
    }
}

/// The headings of a text of so many lines that are no deeper than asked for,
/// and how many there are in all.
pub fn outline_headings(content: &str, total_lines: usize, max_depth: Option<usize>) -> (r: (
    Vec<OutlineItem>,
    usize,
))
    ensures
        ({
            let all = headings_of(content@);
            &&& entry_views(r.0@) == outlined(
                all,
                total_lines as nat,
                max_depth,
                all.len() as int,
            )
            &&& r.1 == all.len()
        }),
        ({
            let shown = headings_of(content@).filter(
                |h: Heading| max_depth is None || h.level <= max_depth->0,
            );
            &&& r.0@.len() == shown.len()
            &&& forall|i: int| 0 <= i < r.0@.len() ==> (#[trigger] r.0@[i]).heading@ == shown[i]
        }),
{
    let headings = parse_headings(content);
    let ghost all = heading_views(headings@);
    let mut out: Vec<OutlineItem> = Vec::new();
    assert(entry_views(out@) =~= Seq::<Entry>::empty());
    for i in 0..headings.len()
        invariant
            all == heading_views(headings@),
            entry_views(out@) == outlined(all, total_lines as nat, max_depth, i as int),
    {
        assert(all[i as int] == headings@[i as int]@);
        let shown = match max_depth {
            Some(depth) => headings[i].level <= depth,
            None => true,
        };
        if shown {
            let ghost before = entry_views(out@);
            let end: usize = section_end_line(
                headings.as_slice(),
                i,
                total_lines,
                SectionSpanMode::IncludeSubsections,
            );
            out.push(OutlineItem { heading: copy_heading(&headings[i]), section_end_line: end });
            assert(entry_views(out@) =~= before.push(
                Entry { heading: all[i as int], end: end as int },
            ));
        }
    }
    let count: usize = headings.len();
    proof {
        law_outline_shown(all, total_lines as nat, max_depth, all.len() as int);
        assert(all.take(all.len() as int) =~= all);
        let shown = all.filter(|h: Heading| max_depth is None || h.level <= max_depth->0);
        let entries = outlined(all, total_lines as nat, max_depth, all.len() as int);
        assert forall|i: int| 0 <= i < out@.len() implies (#[trigger] out@[i]).heading@
            == shown[i] by {
            assert(entry_views(out@)[i] == entries[i]);
        }
    }
    (out, count)
}

} // verus!
