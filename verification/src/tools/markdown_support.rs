//! The headings of Markdown texts, and the sections below them.

use vstd::prelude::*;

use crate::encoding::{decode_fuzzy, decoded};
use crate::lines::{join, split, str_join, str_split};
use crate::numbers::{decimal, u64_decimal, usize_decimal};
use crate::text::{
    ascii_lower, ascii_lower_char, chars_of, contains, occurs_at, opt_view, slice_of, str_eq, str_eq_ignore_case,
    str_take, str_trim, str_trim_start, string_of, trim, trim_start, views,
};
use crate::tools::read_file::{count_text_lines, text_lines};
use crate::words::{char_is_alphanumeric, is_alphanumeric};

verus! {

/// The bytes of a Markdown file that is read, at most.
pub const MAX_MARKDOWN_BYTES: u64 = 10_485_760;

/// A heading: `path` are the titles of the headings it stands below and its own.
pub struct MarkdownHeading {
    pub title: String,
    pub level: usize,
    pub line: usize,
    pub path: Vec<String>,
    pub slug: String,
}

/// A heading.
pub struct Heading {
    pub title: Seq<char>,
    pub level: nat,
    pub line: nat,
    pub path: Seq<Seq<char>>,
    pub slug: Seq<char>,
}

impl View for MarkdownHeading {
    type V = Heading;

    open spec fn view(&self) -> Heading {
        Heading {
            title: self.title@,
            level: self.level as nat,
            line: self.line as nat,
            path: views(self.path@),
            slug: self.slug@,
        }
    }
}

/// The headings.
pub open spec fn heading_views(items: Seq<MarkdownHeading>) -> Seq<Heading> {
    Seq::new(items.len(), |i: int| items[i]@)
}

/// How much a section holds: what stands below its subheadings as well, or only
/// what stands before them.
#[derive(Clone, Copy, Debug, PartialEq, Eq, Structural)]
pub enum SectionSpanMode {
    IncludeSubsections,
    HeadingBodyOnly,
}

/// What is wrong with a Markdown file: it is no file, or too large.
pub open spec fn markdown_error(path: Seq<char>, is_file: bool, len: u64) -> Option<Seq<char>> {
    if !is_file {
        Some("Markdown file does not exist or is not a file: "@ + path)
    } else if len > MAX_MARKDOWN_BYTES {
        Some(
            "Markdown file is too large ("@ + decimal(len as nat) + " bytes > "@ + decimal(
                MAX_MARKDOWN_BYTES as nat,
            ) + " bytes)"@,
        )
    } else {
        None
    }
}

/// Checks that a Markdown file can be read.
pub fn check_markdown_file(path: &str, is_file: bool, len: u64) -> (r: Result<(), String>)
    ensures
        (match r {
            Ok(_) => None,
            Err(e) => Some(e@),
        }) == markdown_error(path@, is_file, len),
{
    if !is_file {
        let mut text = "Markdown file does not exist or is not a file: ".to_owned();
        text.append(path);
        return Err(text);
    }
    if len > MAX_MARKDOWN_BYTES {
        let mut text = "Markdown file is too large (".to_owned();
        let have = u64_decimal(len);
        let most = u64_decimal(MAX_MARKDOWN_BYTES);
        text.append(have.as_str());
        text.append(" bytes > ");
        text.append(most.as_str());
        text.append(" bytes)");
        return Err(text);
    }
    Ok(())
}

/// The text of a Markdown file, and how many lines it has.
pub fn load_markdown_file(bytes: &[u8]) -> (r: (String, usize))
    ensures
        r.0@ == decoded(bytes@).0,
        r.1 == text_lines(r.0@).len(),
{
    let (content, _encoding) = decode_fuzzy(bytes);
    let total: usize = count_text_lines(content.as_str());
    (content, total)
}

/// The line without the carriage returns at its end.
pub open spec fn without_returns(s: Seq<char>) -> Seq<char>
    decreases s.len(),
{
    if s.len() > 0 && s.last() == '\r' {
        without_returns(s.drop_last())
    } else {
        s
    }
}

/// The line without the carriage returns at its end.
fn strip_returns(s: &str) -> (r: String)
    ensures
        r@ == without_returns(s@),
{
    let chars = chars_of(s);
    let mut n: usize = chars.len();
    assert(s@.take(n as int) =~= s@);
    while n > 0 && chars[n - 1] == '\r'
        invariant
            chars@ == s@,
            n <= s@.len(),
            without_returns(s@) == without_returns(s@.take(n as int)),
        ensures
            n <= s@.len(),
            without_returns(s@) == s@.take(n as int),
        decreases n,
    {
        assert(s@.take(n as int).last() == chars@[n - 1]);
        assert(s@.take(n as int).drop_last() =~= s@.take(n - 1));
        n -= 1;
    }
    str_take(s, n)
}

/// The line is indented so far that it is code.
pub open spec fn is_indented(line: Seq<char>) -> bool {
    (line.len() > 0 && line[0] == '\t') || (line.len() >= 4 && line[0] == ' ' && line[1] == ' '
        && line[2] == ' ' && line[3] == ' ')
}

/// Whether a line is indented so far that it is code.
fn indented(line: &[char]) -> (r: bool)
    ensures
        r == is_indented(line@),
{
    (line.len() > 0 && line[0] == '\t') || (line.len() >= 4 && line[0] == ' ' && line[1] == ' '
        && line[2] == ' ' && line[3] == ' ')
}

/// How many characters at the start of the text, from `from` on, are among the
/// two.
pub open spec fn run_of(s: Seq<char>, a: char, b: char, from: int) -> nat
    decreases s.len() - from,
{
    if 0 <= from < s.len() && (s[from] == a || s[from] == b) {
        1 + run_of(s, a, b, from + 1)
    } else {
        0
    }
}

/// How many characters from `from` on are among the two.
fn count_run(s: &[char], a: char, b: char, from: usize) -> (r: usize)
    requires
        from <= s@.len(),
    ensures
        r == run_of(s@, a, b, from as int),
        from + r <= s@.len(),
{
    let mut i: usize = from;
    while i < s.len() && (s[i] == a || s[i] == b)
        invariant
            from <= i <= s@.len(),
            run_of(s@, a, b, from as int) == (i - from) + run_of(s@, a, b, i as int),
        ensures
            from <= i <= s@.len(),
            run_of(s@, a, b, from as int) == i - from,
        decreases s@.len() - i,
    {
        i += 1;
    }
    i - from
}

/// The fence that a line begins with: its mark and its length, where it has
/// three marks at least.
pub open spec fn fence_of(trimmed: Seq<char>) -> Option<(char, nat)> {
    let n = run_of(trimmed, '`', '~', 0);
    if n >= 3 {
        Some((trimmed[0], n))
    } else {
        None
    }
}

/// From `from` on nothing follows, or only blanks, signs of a heading and blanks
/// again: what may close a heading.
pub open spec fn closes(s: Seq<char>, from: int) -> bool {
    let blanks = run_of(s, ' ', '\t', from);
    let signs = run_of(s, '#', '#', (from + blanks) as int);
    let tail = run_of(s, ' ', '\t', (from + blanks + signs) as int);
    from == s.len() || (blanks > 0 && signs > 0 && from + blanks + signs + tail == s.len())
}

/// The first place from `from` on behind which the text may close.
pub open spec fn first_close(s: Seq<char>, from: int) -> int
    decreases s.len() - from,
{
    if from >= s.len() || closes(s, from) {
        from
    } else {
        first_close(s, from + 1)
    }
}

/// The level and the title of the heading that a line is: one to six signs, a
/// blank, and a title, which signs may close. A title of blanks is empty.
pub open spec fn heading_of(trimmed: Seq<char>) -> Option<(nat, Seq<char>)> {
    let level = run_of(trimmed, '#', '#', 0);
    let blanks = run_of(trimmed, ' ', '\t', level as int);
    let from = (level + blanks) as int;
    if !(1 <= level <= 6) || blanks == 0 {
        None
    } else if from >= trimmed.len() {
        if blanks >= 2 {
            Some((level, Seq::empty()))
        } else {
            None
        }
    } else {
        Some((level, trim(trimmed.subrange(from, first_close(trimmed, from + 1)))))
    }
}

/// Whether what follows may close a heading.
fn may_close(s: &[char], from: usize) -> (r: bool)
    requires
        from <= s@.len(),
    ensures
        r == closes(s@, from as int),
{
    if from == s.len() {
        return true;
    }
    let blanks: usize = count_run(s, ' ', '\t', from);
    let signs: usize = count_run(s, '#', '#', from + blanks);
    let tail: usize = count_run(s, ' ', '\t', from + blanks + signs);
    blanks > 0 && signs > 0 && from + blanks + signs + tail == s.len()
}

/// The level and the title of the heading that a line is.
fn parse_heading(trimmed: &[char]) -> (r: Option<(usize, String)>)
    ensures
        (match r {
            Some((level, title)) => Some((level as nat, title@)),
            None => None,
        }) == heading_of(trimmed@),
{
    let size: usize = trimmed.len();
    let level: usize = count_run(trimmed, '#', '#', 0);
    if level < 1 || level > 6 {
        return None;
    }
    let blanks: usize = count_run(trimmed, ' ', '\t', level);
    if blanks == 0 {
        return None;
    }
    let from: usize = level + blanks;
    if from >= size {
        if blanks >= 2 {
            let none = String::new();
            assert(none@ =~= Seq::<char>::empty());
            return Some((level, none));
        }
        return None;
    }
    let mut end: usize = from + 1;
    while end < trimmed.len() && !may_close(trimmed, end)
        invariant
            from + 1 <= end <= trimmed@.len(),
            first_close(trimmed@, from + 1) == first_close(trimmed@, end as int),
        ensures
            from + 1 <= end <= trimmed@.len(),
            end == first_close(trimmed@, from + 1),
        decreases trimmed@.len() - end,
    {
        end += 1;
    }
    let body = slice_of(trimmed, from, end);
    let text = string_of(body.as_slice());
    Some((level, str_trim(text.as_str())))
}

/// The letters and digits of a title in lower case, one dash for all that stands
/// between them.
pub open spec fn dashed(title: Seq<char>) -> Seq<char>
    decreases title.len(),
{
    if title.len() == 0 {
        Seq::empty()
    } else {
        let before = dashed(title.drop_last());
        let c = ascii_lower_char(title.last());
        if is_alphanumeric(c) {
            before.push(c)
        } else if before.len() > 0 && before.last() == '-' {
            before
        } else {
            before.push('-')
        }
    }
}

/// The text without the dashes around it.
pub open spec fn without_dashes(s: Seq<char>) -> Seq<char>
    decreases s.len(),
{
    if s.len() > 0 && s.last() == '-' {
        without_dashes(s.drop_last())
    } else if s.len() > 0 && s[0] == '-' {
        without_dashes(s.skip(1))
    } else {
        s
    }
}

/// The name of a heading for links.
pub open spec fn slug_of(title: Seq<char>) -> Seq<char> {
    without_dashes(dashed(title))
}

/// The name of a heading for links.
pub fn slugify_heading(title: &str) -> (r: String)
    ensures
        r@ == slug_of(title@),
{
    let chars = chars_of(title);
    let mut out: Vec<char> = Vec::new();
    assert(chars@.take(0) =~= Seq::<char>::empty());
    for i in 0..chars.len()
        invariant
            chars@ == title@,
            out@ == dashed(chars@.take(i as int)),
    {
        assert(chars@.take(i + 1).drop_last() =~= chars@.take(i as int));
        assert(chars@.take(i + 1).last() == chars@[i as int]);
        let c: char = chars[i];
        let lower: char = if 'A' <= c && c <= 'Z' {
            ((c as u8) + 32) as char
        } else {
            c
        };
        assert(lower == ascii_lower_char(c));
        if char_is_alphanumeric(lower) {
            out.push(lower);
        } else if !(out.len() > 0 && out[out.len() - 1] == '-') {
            out.push('-');
        }
    }
    assert(chars@.take(chars@.len() as int) =~= chars@);
    let mut end: usize = out.len();
    let mut start: usize = 0;
    assert(out@.subrange(0, out@.len() as int) =~= out@);
    while end > 0 && out[end - 1] == '-'
        invariant
            end <= out@.len(),
            without_dashes(out@) == without_dashes(out@.subrange(0, end as int)),
        ensures
            end <= out@.len(),
            without_dashes(out@) == without_dashes(out@.subrange(0, end as int)),
            end > 0 ==> out@[end - 1] != '-',
        decreases end,
    {
        assert(out@.subrange(0, end as int).drop_last() =~= out@.subrange(0, end - 1));
        end -= 1;
    }
    while start < end && out[start] == '-'
        invariant
            start <= end <= out@.len(),
            without_dashes(out@) == without_dashes(out@.subrange(start as int, end as int)),
            end > 0 ==> out@[end - 1] != '-',
        ensures
            start <= end <= out@.len(),
            without_dashes(out@) == out@.subrange(start as int, end as int),
        decreases end - start,
    {
        let ghost rest = out@.subrange(start as int, end as int);
        assert(rest.last() == out@[end - 1]);
        assert(rest[0] == '-');
        assert(rest.skip(1) =~= out@.subrange(start + 1, end as int));
        start += 1;
    }
    let slug = slice_of(out.as_slice(), start, end);
    string_of(slug.as_slice())
}

/// How far the headings of a text were read: those found, those that the next
/// line stands below, and the fence that is open.
pub struct Outline {
    pub headings: Seq<Heading>,
    pub stack: Seq<(nat, Seq<char>)>,
    pub fence: Option<(char, nat)>,
}

/// The headings that a heading of this level stands below.
pub open spec fn above(stack: Seq<(nat, Seq<char>)>, level: nat) -> Seq<(nat, Seq<char>)>
    decreases stack.len(),
{
    if stack.len() > 0 && stack.last().0 >= level {
        above(stack.drop_last(), level)
    } else {
        stack
    }
}

/// The titles of the headings.
pub open spec fn titles(stack: Seq<(nat, Seq<char>)>) -> Seq<Seq<char>> {
    Seq::new(stack.len(), |i: int| stack[i].1)
}

/// How far the headings were read after the next line, whose number is `number`.
pub open spec fn outline_next(o: Outline, raw: Seq<char>, number: nat) -> Outline {
    let line = without_returns(raw);
    let trimmed = trim_start(line);
    if is_indented(line) {
        o
    } else if fence_of(trimmed) is Some {
        let (mark, length) = fence_of(trimmed)->0;
        match o.fence {
            Some((open, size)) => if open == mark && length >= size {
                Outline { fence: None, ..o }
            } else {
                o
            },
            None => Outline { fence: Some((mark, length)), ..o },
        }
    } else if o.fence is Some || heading_of(trimmed) is None {
        o
    } else {
        let (level, title) = heading_of(trimmed)->0;
        let stack = above(o.stack, level).push((level, title));
        Outline {
            headings: o.headings.push(
                Heading { title, level, line: number, path: titles(stack), slug: slug_of(title) },
            ),
            stack,
            ..o
        }
    }
}

/// How far the headings were read after the first `n` lines.
pub open spec fn outline(lines: Seq<Seq<char>>, n: int) -> Outline
    decreases n,
{
    if n <= 0 {
        Outline { headings: Seq::empty(), stack: Seq::empty(), fence: None }
    } else {
        outline_next(outline(lines, n - 1), lines[n - 1], n as nat)
    }
}

/// The headings of a text.
pub open spec fn headings_of(content: Seq<char>) -> Seq<Heading> {
    let lines = split(content, '\n');
    outline(lines, lines.len() as int).headings
}

/// The headings that stand open, by their levels and titles.
pub open spec fn open_views(levels: Seq<usize>, names: Seq<String>) -> Seq<(nat, Seq<char>)> {
    Seq::new(levels.len(), |i: int| (levels[i] as nat, names[i]@))
}

/// A run goes on as long as the characters are of the two.
proof fn lemma_run(s: Seq<char>, a: char, b: char, from: int)
    requires
        0 <= from <= s.len(),
    ensures
        from + run_of(s, a, b, from) <= s.len(),
        forall|k: int| from <= k < from + run_of(s, a, b, from) ==> s[k] == a || s[k] == b,
        from + run_of(s, a, b, from) < s.len() ==> s[(from + run_of(s, a, b, from)) as int] != a
            && s[(from + run_of(s, a, b, from)) as int] != b,
    decreases s.len() - from,
{
    if from < s.len() && (s[from] == a || s[from] == b) {
        lemma_run(s, a, b, from + 1);
    }
}

/// Where the title may close is in the line.
proof fn lemma_first_close(s: Seq<char>, from: int)
    requires
        0 <= from <= s.len(),
    ensures
        from <= first_close(s, from) <= s.len(),
        !s.skip(from).contains('#') ==> first_close(s, from) == s.len(),
    decreases s.len() - from,
{
    if from < s.len() {
        lemma_first_close(s, from + 1);
        if !s.skip(from).contains('#') {
            let at = (from + run_of(s, ' ', '\t', from)) as int;
            lemma_run(s, ' ', '\t', from);
            lemma_run(s, '#', '#', at);
            if run_of(s, '#', '#', at) > 0 {
                assert(s.skip(from)[at - from] == '#');
            }
            assert(!closes(s, from));
            assert(!s.skip(from + 1).contains('#')) by {
                if s.skip(from + 1).contains('#') {
                    let i = s.skip(from + 1).index_of('#');
                    assert(s.skip(from)[i + 1] == '#');
                }
            }
        }
    }
}

/// The line is a heading of the level, and its title stands in it: so many number signs,
/// then a blank.
pub open spec fn heads(line: Seq<char>, level: nat, title: Seq<char>) -> bool {
    let s = trim_start(without_returns(line));
    &&& 1 <= level <= 6
    &&& level < s.len()
    &&& forall|k: int| 0 <= k < level ==> #[trigger] s[k] == '#'
    &&& s[level as int] == ' ' || s[level as int] == '\t'
    &&& contains(s.skip(level as int), title)
    &&& trim(title) == title
    &&& !is_indented(without_returns(line))
}

/// Between where and where a text stands when it is trimmed.
proof fn lemma_trim_bounds(s: Seq<char>) -> (r: (int, int))
    ensures
        0 <= r.0 <= r.1 <= s.len(),
        trim(s) == s.subrange(r.0, r.1),
{
    crate::text::law_trim(s);
    choose|a: int, b: int| #[trigger]
        crate::text::is_trimmed_to(s, a, b) && trim(s) == s.subrange(a, b)
}

/// A part of a text, trimmed, stands in the text, and nothing more is trimmed from it.
proof fn lemma_trimmed_part(s: Seq<char>, skipped: int, from: int, to: int)
    requires
        0 <= skipped <= from <= to <= s.len(),
    ensures
        contains(s.skip(skipped), trim(s.subrange(from, to))),
        trim(trim(s.subrange(from, to))) == trim(s.subrange(from, to)),
{
    let whole = s.subrange(from, to);
    let part = trim(whole);
    let rest = s.skip(skipped);
    assert(trim(part) == part) by {
        crate::text::law_trim(whole);
        crate::text::law_trim(part);
    }
    let (a, b) = lemma_trim_bounds(whole);
    let at = from - skipped + a;
    assert(rest.subrange(at, at + part.len()) =~= part);
    assert(occurs_at(rest, part, at));
}

/// What is read as a heading is one.
proof fn lemma_heading_read(s: Seq<char>)
    ensures
        heading_of(s) matches Some((level, title)) ==> {
            &&& 1 <= level <= 6
            &&& level < s.len()
            &&& forall|k: int| 0 <= k < level ==> #[trigger] s[k] == '#'
            &&& s[level as int] == ' ' || s[level as int] == '\t'
            &&& contains(s.skip(level as int), title)
            &&& trim(title) == title
        },
{
    if let Some((level, title)) = heading_of(s) {
        lemma_run(s, '#', '#', 0);
        lemma_run(s, ' ', '\t', level as int);
        let from = (level + run_of(s, ' ', '\t', level as int)) as int;
        let rest = s.skip(level as int);
        if from >= s.len() {
            assert(rest.subrange(0, 0) =~= title);
            assert(occurs_at(rest, title, 0));
            crate::text::law_trim(title);
        } else {
            lemma_first_close(s, from + 1);
            lemma_trimmed_part(s, level as int, from, first_close(s, from + 1));
        }
    }
}

/// A heading that is written is read: its level is the number of signs, and its title is
/// what follows.
pub proof fn law_heading_written(level: nat, title: Seq<char>)
    requires
        1 <= level <= 6,
        title.len() > 0,
        !title.contains('#'),
        !crate::text::is_whitespace(title[0]),
        !crate::text::is_whitespace(title.last()),
    ensures
        heading_of(Seq::new(level, |i: int| '#') + seq![' '] + title) == Some((level, title)),
{
    let s = Seq::new(level, |i: int| '#') + seq![' '] + title;
    let at = level as int;
    lemma_run(s, '#', '#', 0);
    let n = run_of(s, '#', '#', 0);
    assert(s[at] == ' ');
    assert(n <= level) by {
        if n > level {
            assert(s[at] == '#');
        }
    }
    assert(n >= level) by {
        if n < level {
            assert(s[n as int] == '#');
        }
    }
    lemma_run(s, ' ', '\t', at);
    let m = run_of(s, ' ', '\t', at);
    assert(s[at + 1] == title[0]);
    assert(m == 1) by {
        if m > 1 {
            assert(s[at + 1] == ' ' || s[at + 1] == '\t');
        }
    }
    let from = at + 1;
    lemma_first_close(s, from + 1);
    assert(!s.skip(from + 1).contains('#')) by {
        if s.skip(from + 1).contains('#') {
            let i = s.skip(from + 1).index_of('#');
            assert(title[i + 1] == '#');
        }
    }
    assert(s.subrange(from, s.len() as int) =~= title);
    crate::text::law_trim(title);
}

/// Each heading stands in its line.
pub proof fn law_heading_lines(lines: Seq<Seq<char>>, n: int)
    requires
        0 <= n <= lines.len(),
    ensures
        forall|i: int|
            #![trigger outline(lines, n).headings[i]]
            0 <= i < outline(lines, n).headings.len() ==> {
                let h = outline(lines, n).headings[i];
                1 <= h.line <= n && heads(lines[h.line - 1], h.level, h.title) && h.slug == slug_of(
                    h.title,
                )
            },
    decreases n,
{
    if n > 0 {
        law_heading_lines(lines, n - 1);
        let before = outline(lines, n - 1).headings;
        let now = outline(lines, n).headings;
        lemma_heading_read(trim_start(without_returns(lines[n - 1])));
        assert forall|i: int| #![trigger now[i]] 0 <= i < now.len() implies {
            let h = now[i];
            1 <= h.line <= n && heads(lines[h.line - 1], h.level, h.title) && h.slug == slug_of(
                h.title,
            )
        } by {
            if i < before.len() {
                assert(now[i] == before[i]);
            }
        }
    }
}

/// Where nothing is fenced, every line that is a heading is listed.
pub proof fn law_headings_complete(lines: Seq<Seq<char>>, n: int, k: int)
    requires
        0 <= k < n <= lines.len(),
        forall|j: int|
            0 <= j < n ==> fence_of(trim_start(without_returns(#[trigger] lines[j]))) is None,
        !is_indented(without_returns(lines[k])),
        heading_of(trim_start(without_returns(lines[k]))) is Some,
    ensures
        exists|i: int|
            0 <= i < outline(lines, n).headings.len() && (#[trigger] outline(
                lines,
                n,
            ).headings[i]).line == k + 1,
    decreases n,
{
    lemma_unfenced(lines, n - 1);
    let before = outline(lines, n - 1).headings;
    let now = outline(lines, n).headings;
    assert(fence_of(trim_start(without_returns(lines[n - 1]))) is None);
    if k == n - 1 {
        assert(now[before.len() as int].line == k + 1);
    } else {
        law_headings_complete(lines, n - 1, k);
        let i = choose|i: int| 0 <= i < before.len() && (#[trigger] before[i]).line == k + 1;
        assert(now[i] == before[i]);
    }
}

/// No fence is open where none was opened.
proof fn lemma_unfenced(lines: Seq<Seq<char>>, n: int)
    requires
        0 <= n <= lines.len(),
        forall|j: int|
            0 <= j < n ==> fence_of(trim_start(without_returns(#[trigger] lines[j]))) is None,
    ensures
        outline(lines, n).fence is None,
    decreases n,
{
    if n > 0 {
        lemma_unfenced(lines, n - 1);
        assert(fence_of(trim_start(without_returns(lines[n - 1]))) is None);
    }
}

/// The headings of a Markdown text. Lines that are code do not count.
pub fn parse_headings(content: &str) -> (r: Vec<MarkdownHeading>)
    ensures
        heading_views(r@) == headings_of(content@),
        forall|i: int|
            0 <= i < r@.len() ==> 1 <= (#[trigger] r@[i]).line <= split(content@, '\n').len() && heads(
                split(content@, '\n')[r@[i].line - 1],
                r@[i].level as nat,
                r@[i].title@,
            ),
{
    let lines = str_split(content, '\n');
    let ghost all = split(content@, '\n');
    let mut headings: Vec<MarkdownHeading> = Vec::new();
    let mut levels: Vec<usize> = Vec::new();
    let mut names: Vec<String> = Vec::new();
    let mut fence: Option<(char, usize)> = None;
    assert(heading_views(headings@) =~= Seq::<Heading>::empty());
    assert(open_views(levels@, names@) =~= Seq::<(nat, Seq<char>)>::empty());
    for i in 0..lines.len()
        invariant
            views(lines@) == all,
            levels@.len() == names@.len(),
            outline(all, i as int) == (Outline {
                headings: heading_views(headings@),
                stack: open_views(levels@, names@),
                fence: match fence {
                    Some((c, n)) => Some((c, n as nat)),
                    None => None,
                },
            }),
    {
        assert(all[i as int] == lines@[i as int]@);
        let line = strip_returns(lines[i].as_str());
        let whole = chars_of(line.as_str());
        if !indented(whole.as_slice()) {
            let trimmed = str_trim_start(line.as_str());
            let chars = chars_of(trimmed.as_str());
            let length: usize = count_run(chars.as_slice(), '`', '~', 0);
            if length >= 3 {
                let mark: char = chars[0];
                match fence {
                    Some((open, size)) => {
                        if open == mark && length >= size {
                            fence = None;
                        }
                    },
                    None => {
                        fence = Some((mark, length));
                    },
                }
            } else if fence.is_none() {
                if let Some((level, title)) = parse_heading(chars.as_slice()) {
                    let ghost before = heading_views(headings@);
                    let ghost stack = open_views(levels@, names@);
                    while levels.len() > 0 && levels[levels.len() - 1] >= level
                        invariant
                            levels@.len() == names@.len(),
                            above(stack, level as nat) == above(
                                open_views(levels@, names@),
                                level as nat,
                            ),
                        ensures
                            levels@.len() == names@.len(),
                            above(stack, level as nat) == open_views(levels@, names@),
                        decreases levels@.len(),
                    {
                        let ghost held = open_views(levels@, names@);
                        let _level = levels.pop();
                        let _name = names.pop();
                        assert(open_views(levels@, names@) =~= held.drop_last());
                    }
                    let ghost kept = open_views(levels@, names@);
                    levels.push(level);
                    names.push(title.clone());
                    assert(open_views(levels@, names@) =~= kept.push((level as nat, title@)));
                    let path = crate::indexer::runtime::copy_texts(names.as_slice());
                    assert(views(path@) =~= titles(open_views(levels@, names@)));
                    let heading = MarkdownHeading {
                        slug: slugify_heading(title.as_str()),
                        title,
                        level,
                        line: i + 1,
                        path,
                    };
                    let ghost shown = heading@;
                    headings.push(heading);
                    assert(heading_views(headings@) =~= before.push(shown));
                }
            }
        }
    }
    assert(views(lines@).len() == lines@.len());
    proof {
        let parts = split(content@, '\n');
        law_heading_lines(parts, parts.len() as int);
        let all = headings_of(content@);
        assert forall|i: int| 0 <= i < headings@.len() implies 1 <= (
        #[trigger] headings@[i]).line <= parts.len() && heads(
            parts[headings@[i].line - 1],
            headings@[i].level as nat,
            headings@[i].title@,
        ) by {
            assert(all[i] == headings@[i]@);
        }
    }
    headings
}

/// The levels of the open headings rise.
pub open spec fn levels_rise(stack: Seq<(nat, Seq<char>)>) -> bool {
    forall|i: int, j: int| 0 <= i < j < stack.len() ==> (#[trigger] stack[i]).0 < (
    #[trigger] stack[j]).0
}

proof fn lemma_above(stack: Seq<(nat, Seq<char>)>, level: nat)
    requires
        levels_rise(stack),
    ensures
        above(stack, level).len() <= stack.len(),
        above(stack, level) == stack.take(above(stack, level).len() as int),
        forall|i: int| 0 <= i < above(stack, level).len() ==> (#[trigger] stack[i]).0 < level,
    decreases stack.len(),
{
    if stack.len() > 0 && stack.last().0 >= level {
        let init = stack.drop_last();
        assert forall|i: int, j: int| 0 <= i < j < init.len() implies (#[trigger] init[i]).0 < (
        #[trigger] init[j]).0 by {
            assert(stack[i].0 < stack[j].0);
        }
        lemma_above(init, level);
        let n = above(stack, level).len() as int;
        assert(init.take(n) =~= stack.take(n));
        assert forall|i: int| 0 <= i < n implies (#[trigger] stack[i]).0 < level by {
            assert(stack[i] == init[i]);
        }
    } else {
        assert(stack.take(stack.len() as int) =~= stack);
        if stack.len() > 0 {
            assert forall|i: int| 0 <= i < stack.len() implies (#[trigger] stack[i]).0
                < level by {
                if i < stack.len() - 1 {
                    assert(stack[i].0 < stack[stack.len() - 1].0);
                }
            }
        }
    }
}

/// The headings of a text have levels from one to six, stand in the order of
/// their lines, and end their own paths; the levels of the headings that one
/// stands below rise.
pub proof fn law_headings(lines: Seq<Seq<char>>, n: int)
    requires
        0 <= n <= lines.len(),
    ensures
        ({
            let o = outline(lines, n);
            &&& levels_rise(o.stack)
            &&& forall|i: int|
                #![trigger o.headings[i]]
                0 <= i < o.headings.len() ==> 1 <= o.headings[i].level <= 6 && 1
                    <= o.headings[i].line <= n && o.headings[i].path.len() >= 1
                    && o.headings[i].path.last() == o.headings[i].title
                    && o.headings[i].path.len() <= o.headings[i].level
            &&& forall|i: int, j: int|
                0 <= i < j < o.headings.len() ==> (#[trigger] o.headings[i]).line < (
                #[trigger] o.headings[j]).line
            &&& forall|i: int| 0 <= i < o.stack.len() ==> i < (#[trigger] o.stack[i]).0
        }),
    decreases n,
{
    if n > 0 {
        law_headings(lines, n - 1);
        let before = outline(lines, n - 1);
        let o = outline(lines, n);
        let trimmed = trim_start(without_returns(lines[n - 1]));
        if o.headings != before.headings {
            let (level, title) = heading_of(trimmed)->0;
            lemma_above(before.stack, level);
            let kept = above(before.stack, level);
            let stack = kept.push((level, title));
            assert(o.stack == stack);
            assert forall|i: int, j: int| 0 <= i < j < stack.len() implies (#[trigger] stack[i]).0
                < (#[trigger] stack[j]).0 by {
                assert(stack[i] == before.stack[i]);
                if j < kept.len() {
                    assert(stack[j] == before.stack[j]);
                }
            }
            assert forall|i: int| 0 <= i < stack.len() implies i < (#[trigger] stack[i]).0 by {
                if i < kept.len() {
                    assert(stack[i] == before.stack[i]);
                } else if i > 0 {
                    assert(stack[i - 1] == before.stack[i - 1]);
                    assert(before.stack[i - 1].0 < level);
                }
            }
            let last = o.headings[o.headings.len() - 1];
            assert(last.path.last() == title);
            assert(stack[stack.len() - 1].0 == level);
            assert forall|i: int| #![trigger o.headings[i]]
                0 <= i < o.headings.len() implies 1 <= o.headings[i].level <= 6 && 1
                <= o.headings[i].line <= n && o.headings[i].path.len() >= 1
                && o.headings[i].path.last() == o.headings[i].title && o.headings[i].path.len()
                <= o.headings[i].level by {
                if i < before.headings.len() {
                    assert(o.headings[i] == before.headings[i]);
                }
            }
            assert forall|i: int, j: int| 0 <= i < j < o.headings.len() implies (
            #[trigger] o.headings[i]).line < (#[trigger] o.headings[j]).line by {
                assert(o.headings[i] == before.headings[i]);
                if j < before.headings.len() {
                    assert(o.headings[j] == before.headings[j]);
                }
            }
        }
    }
}

/// The path of the nearest of the first `n` headings whose level is smaller; empty
/// where there is none.
pub open spec fn path_above(headings: Seq<Heading>, level: nat, n: int) -> Seq<Seq<char>>
    decreases n,
{
    if n <= 0 {
        Seq::empty()
    } else if headings[n - 1].level < level {
        headings[n - 1].path
    } else {
        path_above(headings, level, n - 1)
    }
}

/// A heading that comes later does not change what stands before it.
proof fn lemma_path_above_push(headings: Seq<Heading>, h: Heading, level: nat, n: int)
    requires
        0 <= n <= headings.len(),
    ensures
        path_above(headings.push(h), level, n) == path_above(headings, level, n),
    decreases n,
{
    if n > 0 {
        assert(headings.push(h)[n - 1] == headings[n - 1]);
        lemma_path_above_push(headings, h, level, n - 1);
    }
}

/// What is above a level is not changed by first leaving out what is not above a
/// larger one.
proof fn lemma_above_twice(stack: Seq<(nat, Seq<char>)>, low: nat, high: nat)
    requires
        low <= high,
    ensures
        above(above(stack, high), low) == above(stack, low),
    decreases stack.len(),
{
    if stack.len() > 0 && stack.last().0 >= high {
        lemma_above_twice(stack.drop_last(), low, high);
    }
}

/// The headings that stand open above a level are those on the path of the
/// nearest heading above it.
proof fn lemma_open_path(lines: Seq<Seq<char>>, n: int, level: nat)
    requires
        0 <= n <= lines.len(),
    ensures
        titles(above(outline(lines, n).stack, level)) == path_above(
            outline(lines, n).headings,
            level,
            outline(lines, n).headings.len() as int,
        ),
    decreases n,
{
    if n <= 0 {
        assert(titles(above(outline(lines, n).stack, level)) =~= Seq::<Seq<char>>::empty());
    } else {
        lemma_open_path(lines, n - 1, level);
        let before = outline(lines, n - 1);
        let o = outline(lines, n);
        if o.headings != before.headings {
            let h = o.headings.last();
            assert(o.headings =~= before.headings.push(h));
            let kept = above(before.stack, h.level);
            assert(o.stack == kept.push((h.level, h.title)));
            if level <= h.level {
                assert(o.stack.drop_last() =~= kept);
                lemma_above_twice(before.stack, level, h.level);
                lemma_path_above_push(
                    before.headings,
                    h,
                    level,
                    before.headings.len() as int,
                );
            }
        }
    }
}

/// A heading stands below the nearest heading before it whose level is smaller:
/// its path without its own title is the path of that one, and empty where there
/// is none.
pub proof fn law_heading_paths(lines: Seq<Seq<char>>, n: int)
    requires
        0 <= n <= lines.len(),
    ensures
        ({
            let headings = outline(lines, n).headings;
            forall|i: int|
                0 <= i < headings.len() ==> (#[trigger] headings[i]).path == path_above(
                    headings,
                    headings[i].level,
                    i,
                ).push(headings[i].title)
        }),
    decreases n,
{
    if n > 0 {
        law_heading_paths(lines, n - 1);
        let before = outline(lines, n - 1);
        let o = outline(lines, n);
        if o.headings != before.headings {
            let h = o.headings.last();
            assert(o.headings =~= before.headings.push(h));
            let headings = o.headings;
            assert forall|i: int| 0 <= i < headings.len() implies (#[trigger] headings[i]).path
                == path_above(headings, headings[i].level, i).push(headings[i].title) by {
                lemma_path_above_push(before.headings, h, headings[i].level, i);
                if i < before.headings.len() {
                    assert(headings[i] == before.headings[i]);
                } else {
                    lemma_open_path(lines, n - 1, h.level);
                    let kept = above(before.stack, h.level);
                    assert(h.path =~= titles(kept).push(h.title));
                }
            }
        }
    }
}

/// The last line of the section of a heading: before the next heading that ends
/// it, or the last line of the text.
pub open spec fn section_end(
    headings: Seq<Heading>,
    index: int,
    from: int,
    total_lines: nat,
    mode: SectionSpanMode,
) -> int
    decreases headings.len() - from,
{
    if from < 0 || from >= headings.len() {
        total_lines as int
    } else if mode == SectionSpanMode::HeadingBodyOnly || headings[from].level
        <= headings[index].level {
        if headings[from].line > 0 {
            headings[from].line - 1
        } else {
            0
        }
    } else {
        section_end(headings, index, from + 1, total_lines, mode)
    }
}

/// Whether the section of one heading stops at another.
pub open spec fn stops(
    headings: Seq<Heading>,
    index: int,
    k: int,
    mode: SectionSpanMode,
) -> bool {
    mode is HeadingBodyOnly || headings[k].level <= headings[index].level
}

/// A section goes on to the line before the first heading behind it at which it stops, or
/// to the last line.
pub proof fn law_section_end(
    headings: Seq<Heading>,
    index: int,
    from: int,
    total_lines: nat,
    mode: SectionSpanMode,
)
    requires
        0 <= from <= headings.len(),
    ensures
        ({
            let end = section_end(headings, index, from, total_lines, mode);
            &&& (forall|k: int|
                #![trigger headings[k]]
                from <= k < headings.len() ==> !stops(headings, index, k, mode)) ==> end
                == total_lines
            &&& forall|k: int|
                #![trigger headings[k]]
                from <= k < headings.len() && stops(headings, index, k, mode) && headings[k].line
                    > 0 && (forall|j: int|
                    #![trigger headings[j]]
                    from <= j < k ==> !stops(headings, index, j, mode)) ==> end
                    == headings[k].line - 1
        }),
    decreases headings.len() - from,
{
    let end = section_end(headings, index, from, total_lines, mode);
    if from < headings.len() {
        law_section_end(headings, index, from + 1, total_lines, mode);
        assert forall|k: int|
            #![trigger headings[k]]
            from <= k < headings.len() && stops(headings, index, k, mode) && headings[k].line > 0
            && (forall|j: int|
            #![trigger headings[j]]
            from <= j < k ==> !stops(headings, index, j, mode)) implies end == headings[k].line
            - 1 by {
            let first = headings[from];
            if k > from {
                assert(!stops(headings, index, from, mode));
            }
        }
        if (forall|k: int|
            #![trigger headings[k]]
            from <= k < headings.len() ==> !stops(headings, index, k, mode)) {
            let first = headings[from];
            assert(!stops(headings, index, from, mode));
        }
    }
}

/// Where a section ends, by the headings as they are held.
proof fn lemma_section_shown(
    headings: Seq<MarkdownHeading>,
    index: int,
    total_lines: nat,
    mode: SectionSpanMode,
)
    requires
        0 <= index < headings.len(),
    ensures
        ({
            let end = section_end(heading_views(headings), index, index + 1, total_lines, mode);
            &&& mode is HeadingBodyOnly && index + 1 < headings.len() && headings[index + 1].line
                > 0 ==> end == headings[index + 1].line - 1
            &&& mode is IncludeSubsections ==> forall|k: int|
                #![trigger headings[k]]
                index < k < headings.len() && headings[k].line > 0 && headings[k].level
                    <= headings[index].level && (forall|j: int|
                    #![trigger headings[j]]
                    index < j < k ==> headings[j].level > headings[index].level) ==> end
                    == headings[k].line - 1
            &&& (forall|j: int|
                #![trigger headings[j]]
                index < j < headings.len() ==> mode is IncludeSubsections && headings[j].level
                    > headings[index].level) ==> end == total_lines
        }),
{
    let all = heading_views(headings);
    let end = section_end(all, index, index + 1, total_lines, mode);
    law_section_end(all, index, index + 1, total_lines, mode);
    assert forall|k: int| 0 <= k < headings.len() implies (#[trigger] all[k]) == headings[k]@ by {}
    if mode is HeadingBodyOnly && index + 1 < headings.len() && headings[index + 1].line > 0 {
        assert(stops(all, index, index + 1, mode));
        assert(all[index + 1].line > 0);
    }
    if mode is IncludeSubsections {
        assert forall|k: int|
            #![trigger headings[k]]
            index < k < headings.len() && headings[k].line > 0 && headings[k].level
                <= headings[index].level && (forall|j: int|
                #![trigger headings[j]]
                index < j < k ==> headings[j].level > headings[index].level) implies end
            == headings[k].line - 1 by {
            assert(all[k].level <= all[index].level);
            assert forall|j: int|
                #![trigger all[j]]
                index + 1 <= j < k implies !stops(all, index, j, mode) by {
                assert(headings[j].level > headings[index].level);
            }
        }
    }
    if (forall|j: int|
        #![trigger headings[j]]
        index < j < headings.len() ==> mode is IncludeSubsections && headings[j].level
            > headings[index].level) {
        assert forall|j: int|
            #![trigger all[j]]
            index + 1 <= j < all.len() implies !stops(all, index, j, mode) by {
            assert(headings[j].level > headings[index].level);
        }
    }
}

/// The last line of the section of a heading.
pub fn section_end_line(
    headings: &[MarkdownHeading],
    heading_index: usize,
    total_lines: usize,
    mode: SectionSpanMode,
) -> (r: usize)
    requires
        heading_index < headings@.len(),
    ensures
        r == section_end(
            heading_views(headings@),
            heading_index as int,
            heading_index + 1,
            total_lines as nat,
            mode,
        ),
        mode is HeadingBodyOnly && heading_index + 1 < headings@.len() && headings@[heading_index
            + 1].line > 0 ==> r == headings@[heading_index + 1].line - 1,
        mode is IncludeSubsections ==> forall|k: int|
            #![trigger headings@[k]]
            heading_index < k < headings@.len() && headings@[k].line > 0 && headings@[k].level
                <= headings@[heading_index as int].level && (forall|j: int|
                #![trigger headings@[j]]
                heading_index < j < k ==> headings@[j].level
                    > headings@[heading_index as int].level) ==> r == headings@[k].line - 1,
        (forall|j: int|
            #![trigger headings@[j]]
            heading_index < j < headings@.len() ==> mode is IncludeSubsections && headings@[j].level
                > headings@[heading_index as int].level) ==> r == total_lines,
{
    let ghost all = heading_views(headings@);
    let level: usize = headings[heading_index].level;
    let mut i: usize = heading_index + 1;
    while i < headings.len()
        invariant
            heading_index < i <= headings@.len(),
            all == heading_views(headings@),
            level == all[heading_index as int].level,
            section_end(
                all,
                heading_index as int,
                heading_index + 1,
                total_lines as nat,
                mode,
            ) == section_end(all, heading_index as int, i as int, total_lines as nat, mode),
        decreases headings@.len() - i,
    {
        assert(all[i as int] == headings@[i as int]@);
        let stops = match mode {
            SectionSpanMode::IncludeSubsections => headings[i].level <= level,
            SectionSpanMode::HeadingBodyOnly => true,
        };
        if stops {
            proof {
                lemma_section_shown(headings@, heading_index as int, total_lines as nat, mode);
            }
            return if headings[i].line > 0 {
                headings[i].line - 1
            } else {
                0
            };
        }
        i += 1;
    }
    proof {
        lemma_section_shown(headings@, heading_index as int, total_lines as nat, mode);
    }
    total_lines
}

/// A section ends no earlier than its heading, where headings stand in the order
/// of their lines within the text; with its subsections it ends no earlier than
/// without them.
pub proof fn law_section_holds_heading(
    headings: Seq<Heading>,
    index: int,
    from: int,
    total_lines: nat,
)
    requires
        0 <= index < from <= headings.len(),
        forall|i: int, j: int|
            0 <= i < j < headings.len() ==> (#[trigger] headings[i]).line < (
            #[trigger] headings[j]).line,
        forall|i: int| 0 <= i < headings.len() ==> (#[trigger] headings[i]).line <= total_lines,
    ensures
        ({
            let whole = section_end(
                headings,
                index,
                from,
                total_lines,
                SectionSpanMode::IncludeSubsections,
            );
            let body = section_end(
                headings,
                index,
                from,
                total_lines,
                SectionSpanMode::HeadingBodyOnly,
            );
            headings[index].line <= body <= whole <= total_lines
        }),
    decreases headings.len() - from,
{
    if from < headings.len() {
        assert(headings[index].line < headings[from].line);
        law_section_holds_heading(headings, index, from + 1, total_lines);
        if from + 1 < headings.len() {
            assert(headings[from].line < headings[from + 1].line);
        }
    }
}

/// Two titles are the same, letter for letter or but for upper and lower case.
pub open spec fn same_title(a: Seq<char>, b: Seq<char>, exact: bool) -> bool {
    if exact {
        a == b
    } else {
        ascii_lower(a) == ascii_lower(b)
    }
}

/// Whether two titles are the same.
fn titles_match(a: &str, b: &str, exact: bool) -> (r: bool)
    ensures
        r == same_title(a@, b@, exact),
{
    if exact {
        str_eq(a, b)
    } else {
        str_eq_ignore_case(a, b)
    }
}

/// The heading is the one asked for: by its path where one is given, else by its
/// title.
pub open spec fn is_asked(
    h: Heading,
    heading: Option<Seq<char>>,
    path: Option<Seq<Seq<char>>>,
    exact: bool,
) -> bool {
    match path {
        Some(p) => h.path.len() == p.len() && forall|i: int|
            0 <= i < p.len() ==> same_title(#[trigger] h.path[i], p[i], exact),
        None => same_title(
            h.title,
            match heading {
                Some(t) => t,
                None => Seq::empty(),
            },
            exact,
        ),
    }
}

/// The positions of the headings that are asked for, of the first `n`.
pub open spec fn asked(
    headings: Seq<Heading>,
    heading: Option<Seq<char>>,
    path: Option<Seq<Seq<char>>>,
    exact: bool,
    n: int,
) -> Seq<int>
    decreases n,
{
    if n <= 0 {
        Seq::empty()
    } else {
        let before = asked(headings, heading, path, exact, n - 1);
        if is_asked(headings[n - 1], heading, path, exact) {
            before.push(n - 1)
        } else {
            before
        }
    }
}

/// A heading in a list of several: its path and its line.
pub open spec fn sample_of(h: Heading) -> Seq<char> {
    join(h.path, " > "@) + " (line "@ + decimal(h.line) + ")"@
}

/// The first headings of a list of several.
pub open spec fn samples(headings: Seq<Heading>, found: Seq<int>) -> Seq<Seq<char>> {
    Seq::new(
        if found.len() < 5 {
            found.len()
        } else {
            5
        },
        |i: int| sample_of(headings[found[i]]),
    )
}

/// The position of the heading that is asked for, or what is said where there is
/// none or more than one.
pub open spec fn matched(
    headings: Seq<Heading>,
    heading: Option<Seq<char>>,
    path: Option<Seq<Seq<char>>>,
    exact: bool,
) -> Result<int, Seq<char>> {
    let found = asked(headings, heading, path, exact, headings.len() as int);
    if found.len() == 1 {
        Ok(found[0])
    } else if found.len() == 0 {
        Err("Requested markdown heading was not found"@)
    } else {
        Err(
            "Requested markdown heading is ambiguous. Matching sections: "@ + join(
                samples(headings, found),
                "; "@,
            ) + ". Use heading_path to disambiguate."@,
        )
    }
}

/// Whether a heading is the one asked for: by the titles on the way to it, where these are
/// given, and else by its own. Where it need not be exact, case does not matter.
pub open spec fn answers_to(
    h: Heading,
    heading: Option<Seq<char>>,
    path: Option<Seq<Seq<char>>>,
    exact: bool,
) -> bool {
    if path is Some {
        if exact {
            h.path == path->0
        } else {
            Seq::new(h.path.len(), |i: int| ascii_lower(h.path[i])) == Seq::new(
                path->0.len(),
                |i: int| ascii_lower(path->0[i]),
            )
        }
    } else {
        let title = if heading is Some {
            heading->0
        } else {
            Seq::empty()
        };
        h.title == title || (!exact && ascii_lower(h.title) == ascii_lower(title))
    }
}

/// A heading is asked for where it answers to what was given.
pub proof fn law_asked(
    h: Heading,
    heading: Option<Seq<char>>,
    path: Option<Seq<Seq<char>>>,
    exact: bool,
)
    ensures
        is_asked(h, heading, path, exact) == answers_to(h, heading, path, exact),
{
    if path is Some {
        let p = path->0;
        let own = Seq::new(h.path.len(), |i: int| ascii_lower(h.path[i]));
        let given = Seq::new(p.len(), |i: int| ascii_lower(p[i]));
        if is_asked(h, heading, path, exact) {
            if exact {
                assert forall|i: int| 0 <= i < p.len() implies h.path[i] == p[i] by {
                    assert(same_title(h.path[i], p[i], exact));
                }
                assert(h.path =~= p);
            } else {
                assert forall|i: int| 0 <= i < p.len() implies own[i] == given[i] by {
                    assert(same_title(h.path[i], p[i], exact));
                }
                assert(own =~= given);
            }
        }
        if answers_to(h, heading, path, exact) {
            assert forall|i: int| 0 <= i < p.len() implies same_title(
                #[trigger] h.path[i],
                p[i],
                exact,
            ) by {
                if !exact {
                    assert(own.len() == given.len());
                    assert(own[i] == given[i]);
                }
            }
            assert(exact || own.len() == given.len());
        }
    }
}

/// The positions found are those of the headings asked for, each once and in their order.
proof fn lemma_asked(
    headings: Seq<Heading>,
    heading: Option<Seq<char>>,
    path: Option<Seq<Seq<char>>>,
    exact: bool,
    n: int,
)
    requires
        0 <= n <= headings.len(),
    ensures
        ({
            let found = asked(headings, heading, path, exact, n);
            &&& forall|a: int, b: int| 0 <= a < b < found.len() ==> found[a] < found[b]
            &&& forall|a: int|
                0 <= a < found.len() ==> 0 <= #[trigger] found[a] < n && answers_to(
                    headings[found[a]],
                    heading,
                    path,
                    exact,
                )
            &&& forall|k: int|
                0 <= k < n && answers_to(#[trigger] headings[k], heading, path, exact)
                    ==> found.contains(k)
        }),
    decreases n,
{
    if n > 0 {
        lemma_asked(headings, heading, path, exact, n - 1);
        law_asked(headings[n - 1], heading, path, exact);
        let before = asked(headings, heading, path, exact, n - 1);
        let found = asked(headings, heading, path, exact, n);
        assert forall|k: int|
            0 <= k < n && answers_to(#[trigger] headings[k], heading, path, exact) implies found.contains(
        k) by {
            if k == n - 1 {
                assert(found[found.len() - 1] == k);
            } else {
                let a = before.index_of(k);
                assert(found[a] == k);
            }
        }
    }
}

/// A heading is found exactly where it alone is asked for.
pub proof fn law_matched(
    headings: Seq<Heading>,
    heading: Option<Seq<char>>,
    path: Option<Seq<Seq<char>>>,
    exact: bool,
    i: int,
)
    requires
        0 <= i < headings.len(),
    ensures
        matched(headings, heading, path, exact) == Ok::<int, Seq<char>>(i) <==> answers_to(
            headings[i],
            heading,
            path,
            exact,
        ) && forall|j: int|
            0 <= j < headings.len() && j != i ==> !answers_to(
                #[trigger] headings[j],
                heading,
                path,
                exact,
            ),
{
    let found = asked(headings, heading, path, exact, headings.len() as int);
    lemma_asked(headings, heading, path, exact, headings.len() as int);
    if matched(headings, heading, path, exact) == Ok::<int, Seq<char>>(i) {
        assert(found[0] == i);
        assert forall|j: int| 0 <= j < headings.len() && j != i implies !answers_to(
            #[trigger] headings[j],
            heading,
            path,
            exact,
        ) by {
            if answers_to(headings[j], heading, path, exact) {
                let a = found.index_of(j);
                assert(found[a] == j);
            }
        }
    }
    if answers_to(headings[i], heading, path, exact) && (forall|j: int|
        0 <= j < headings.len() && j != i ==> !answers_to(
            #[trigger] headings[j],
            heading,
            path,
            exact,
        )) {
        let a = found.index_of(i);
        assert(found[a] == i);
        if found.len() > 1 {
            let b: int = if a == 0 {
                1
            } else {
                0
            };
            assert(answers_to(headings[found[b]], heading, path, exact));
        }
    }
}

/// Whether a heading is the one asked for.
fn heading_matches(
    candidate: &MarkdownHeading,
    heading: &Option<String>,
    heading_path: &Option<Vec<String>>,
    exact: bool,
) -> (r: bool)
    ensures
        r == is_asked(
            candidate@,
            opt_view(*heading),
            match heading_path {
                Some(p) => Some(views(p@)),
                None => None,
            },
            exact,
        ),
{
    match heading_path {
        Some(path) => {
            assert(views(candidate.path@).len() == candidate.path@.len());
            if candidate.path.len() != path.len() {
                return false;
            }
            for i in 0..path.len()
                invariant
                    candidate.path@.len() == path@.len(),
                    heading_path == Some(*path),
                    forall|k: int|
                        0 <= k < i ==> same_title(
                            #[trigger] views(candidate.path@)[k],
                            views(path@)[k],
                            exact,
                        ),
            {
                assert(views(candidate.path@)[i as int] == candidate.path@[i as int]@);
                if !titles_match(candidate.path[i].as_str(), path[i].as_str(), exact) {
                    return false;
                }
            }
            true
        },
        None => match heading {
            Some(title) => titles_match(candidate.title.as_str(), title.as_str(), exact),
            None => {
                let none = String::new();
                assert(none@ =~= Seq::<char>::empty());
                titles_match(candidate.title.as_str(), none.as_str(), exact)
            },
        },
    }
}

/// The positions of the headings.
pub open spec fn position_views(found: Seq<usize>) -> Seq<int> {
    Seq::new(found.len(), |i: int| found[i] as int)
}

/// The titles on the way to a heading, where they are given.
pub open spec fn opt_views(path: Option<Vec<String>>) -> Option<Seq<Seq<char>>> {
    match path {
        Some(p) => Some(views(p@)),
        None => None,
    }
}

/// Which heading is found, by the headings as they are held.
proof fn lemma_matched_shown(
    headings: Seq<MarkdownHeading>,
    heading: Option<Seq<char>>,
    path: Option<Seq<Seq<char>>>,
    exact: bool,
)
    ensures
        forall|i: int|
            #![trigger headings[i]]
            0 <= i < headings.len() ==> (matched(heading_views(headings), heading, path, exact)
                == Ok::<int, Seq<char>>(i) <==> (answers_to(headings[i]@, heading, path, exact)
                && forall|j: int|
                #![trigger headings[j]]
                0 <= j < headings.len() && j != i ==> !answers_to(
                    headings[j]@,
                    heading,
                    path,
                    exact,
                ))),
{
    let all = heading_views(headings);
    assert forall|i: int|
        #![trigger headings[i]]
        0 <= i < headings.len() implies (matched(all, heading, path, exact) == Ok::<
        int,
        Seq<char>,
    >(i) <==> (answers_to(headings[i]@, heading, path, exact) && forall|j: int|
        #![trigger headings[j]]
        0 <= j < headings.len() && j != i ==> !answers_to(headings[j]@, heading, path, exact))) by {
        law_matched(all, heading, path, exact, i);
        assert(all[i] == headings[i]@);
        if (forall|j: int|
            #![trigger headings[j]]
            0 <= j < headings.len() && j != i ==> !answers_to(headings[j]@, heading, path, exact)) {
            assert forall|j: int| 0 <= j < headings.len() && j != i implies !answers_to(
                #[trigger] all[j],
                heading,
                path,
                exact,
            ) by {
                assert(all[j] == headings[j]@);
                assert(!answers_to(headings[j]@, heading, path, exact));
            }
        }
        if (forall|j: int| 0 <= j < all.len() && j != i ==> !answers_to(
            #[trigger] all[j],
            heading,
            path,
            exact,
        )) {
            assert forall|j: int|
                #![trigger headings[j]]
                0 <= j < headings.len() && j != i implies !answers_to(
                headings[j]@,
                heading,
                path,
                exact,
            ) by {
                assert(all[j] == headings[j]@);
            }
        }
    }
}

/// Finds the heading that is asked for: exactly one must be.
pub fn match_heading(
    headings: &[MarkdownHeading],
    heading: &Option<String>,
    heading_path: &Option<Vec<String>>,
    exact: bool,
) -> (r: Result<usize, String>)
    ensures
        (match r {
            Ok(i) => Ok(i as int),
            Err(e) => Err(e@),
        }) == matched(
            heading_views(headings@),
            opt_view(*heading),
            match heading_path {
                Some(p) => Some(views(p@)),
                None => None,
            },
            exact,
        ),
        r matches Ok(i) ==> i < headings@.len(),
        forall|i: int|
            #![trigger headings@[i]]
            0 <= i < headings@.len() ==> ((r matches Ok(found) && found == i) <==> (answers_to(
                headings@[i]@,
                opt_view(*heading),
                opt_views(*heading_path),
                exact,
            ) && forall|j: int|
                #![trigger headings@[j]]
                0 <= j < headings@.len() && j != i ==> !answers_to(
                    headings@[j]@,
                    opt_view(*heading),
                    opt_views(*heading_path),
                    exact,
                ))),
{
    proof {
        lemma_matched_shown(headings@, opt_view(*heading), opt_views(*heading_path), exact);
    }
    let ghost all = heading_views(headings@);
    let ghost title = opt_view(*heading);
    let ghost path: Option<Seq<Seq<char>>> = match heading_path {
        Some(p) => Some(views(p@)),
        None => None,
    };
    let mut found: Vec<usize> = Vec::new();
    assert(position_views(found@) =~= Seq::<int>::empty());
    for i in 0..headings.len()
        invariant
            all == heading_views(headings@),
            title == opt_view(*heading),
            path == (match heading_path {
                Some(p) => Some(views(p@)),
                None => None,
            }),
            position_views(found@) == asked(all, title, path, exact, i as int),
            forall|k: int| 0 <= k < found@.len() ==> #[trigger] found@[k] < i,
    {
        assert(all[i as int] == headings@[i as int]@);
        if heading_matches(&headings[i], heading, heading_path, exact) {
            let ghost before = position_views(found@);
            found.push(i);
            assert(position_views(found@) =~= before.push(i as int));
        }
    }
    assert(all.len() == headings@.len());
    let ghost want = asked(all, title, path, exact, all.len() as int);
    assert(want.len() == found@.len());
    if found.len() == 1 {
        assert(want[0] == found@[0]);
        return Ok(found[0]);
    }
    if found.len() == 0 {
        return Err("Requested markdown heading was not found".to_owned());
    }
    let count: usize = if found.len() < 5 {
        found.len()
    } else {
        5
    };
    let mut parts: Vec<String> = Vec::new();
    for i in 0..count
        invariant
            all == heading_views(headings@),
            want == position_views(found@),
            count <= found@.len(),
            forall|k: int| 0 <= k < found@.len() ==> #[trigger] found@[k] < headings@.len(),
            parts@.len() == i,
            forall|k: int| 0 <= k < i ==> (#[trigger] parts@[k])@ == sample_of(all[want[k]]),
    {
        let h = &headings[found[i]];
        assert(all[want[i as int]] == h@);
        let mut text = str_join(h.path.as_slice(), " > ");
        text.append(" (line ");
        let line = usize_decimal(h.line);
        text.append(line.as_str());
        text.append(")");
        parts.push(text);
    }
    assert(views(parts@) =~= samples(all, want));
    let mut text = "Requested markdown heading is ambiguous. Matching sections: ".to_owned();
    let list = str_join(parts.as_slice(), "; ");
    text.append(list.as_str());
    text.append(". Use heading_path to disambiguate.");
    Err(text)
}

} // verus!
