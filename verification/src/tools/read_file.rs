//! Reading a file, or a range of its lines, within limits.

use vstd::prelude::*;

use crate::encoding::{decode_fuzzy, decoded};
use crate::lines::{
    join, law_split_joined, lemma_join_concat, lemma_newlines_concat, lemma_newlines_joined,
    lemma_one_newline, lemma_split_len, lemma_split_parts, newlines, split, str_join, str_split,
};
use crate::numbers::{decimal, u64_decimal, usize_decimal};
use crate::text::{byte_len, lemma_encode_concat, str_ends_with, views};

verus! {

/// The largest file that is read, in mebibytes.
pub const MAX_READ_MB: u64 = 10;

/// The lines of a text, each without the line feed that ends it.
pub open spec fn text_lines(content: Seq<char>) -> Seq<Seq<char>> {
    let parts = split(content, '\n');
    if parts.last().len() == 0 {
        parts.drop_last()
    } else {
        parts
    }
}

/// A text has a line for each line feed, and one more where it goes on behind the last.
pub proof fn law_line_count(content: Seq<char>)
    ensures
        text_lines(content).len() == newlines(content) + if content.len() > 0 && content.last()
            != '\n' {
            1nat
        } else {
            0nat
        },
{
    let parts = split(content, '\n');
    lemma_split_len(content, '\n');
    lemma_split_parts(content, '\n');
    law_split_joined(content, '\n');
    lemma_newlines_joined(parts);
    if content.len() > 0 {
        lemma_split_len(content.drop_last(), '\n');
    }
}

/// `passage` is the text from line `a` on, counted from 0, up to line `b` of `total`: it
/// begins at `p`, where a line begins, with `a` line feeds before it.
pub open spec fn passage_at(
    content: Seq<char>,
    passage: Seq<char>,
    a: int,
    b: int,
    total: int,
    p: int,
) -> bool {
    let q = p + passage.len();
    &&& 0 <= p && q <= content.len()
    &&& content.subrange(p, q) == passage
    &&& p == 0 || content[p - 1] == '\n'
    &&& newlines(content.take(p)) == a
    &&& if b == total {
        q == content.len()
    } else {
        content[q] == '\n' && newlines(content.take(q)) == b - 1
    }
}

/// `passage` is the text of the lines from `a` up to `b` of `total`.
pub open spec fn is_passage(
    content: Seq<char>,
    passage: Seq<char>,
    a: int,
    b: int,
    total: int,
) -> bool {
    exists|p: int| passage_at(content, passage, a, b, total, p)
}

/// What stands before the line `a` of the lines that are joined: a line feed for each
/// line, the last of them at its end.
proof fn lemma_passage_front(parts: Seq<Seq<char>>, a: int) -> (front: Seq<char>)
    requires
        0 <= a < parts.len(),
        forall|k: int, j: int|
            0 <= k < parts.len() && 0 <= j < #[trigger] parts[k].len() ==> (#[trigger] parts[k][j])
                != '\n',
    ensures
        join(parts, seq!['\n']) == front + join(parts.skip(a), seq!['\n']),
        newlines(front) == a,
        front.len() == 0 || front.last() == '\n',
{
    let nl = seq!['\n'];
    if a == 0 {
        assert(parts.skip(0) =~= parts);
        assert(join(parts, nl) =~= Seq::<char>::empty() + join(parts, nl));
        Seq::empty()
    } else {
        let first = parts.take(a);
        assert forall|k: int, j: int|
            0 <= k < first.len() && 0 <= j < #[trigger] first[k].len() implies (
        #[trigger] first[k][j]) != '\n' by {
            assert(first[k] == parts[k]);
            assert(parts[k][j] != '\n');
        }
        lemma_newlines_joined(first);
        lemma_newlines_concat(join(first, nl), nl);
        lemma_one_newline();
        assert(parts =~= first + parts.skip(a));
        lemma_join_concat(first, parts.skip(a), nl);
        join(first, nl) + nl
    }
}

/// Some lines of a text, joined, are the passage that they make up; the last of all
/// bring the line feed with them in which the text ends.
#[verifier::rlimit(40)]
pub proof fn law_passage(content: Seq<char>, a: int, b: int)
    requires
        0 <= a < b <= text_lines(content).len(),
    ensures
        is_passage(
            content,
            join(text_lines(content).subrange(a, b), "\n"@) + if b == text_lines(content).len()
                && crate::text::ends_with(content, "\n"@) {
                "\n"@
            } else {
                Seq::empty()
            },
            a,
            b,
            text_lines(content).len() as int,
        ),
{
    reveal_strlit("\n");
    assert("\n"@ =~= seq!['\n']);
    let nl = seq!['\n'];
    let parts = split(content, '\n');
    let lines = text_lines(content);
    let total = lines.len() as int;
    lemma_split_len(content, '\n');
    lemma_split_parts(content, '\n');
    law_split_joined(content, '\n');
    let body = join(parts.subrange(a, b), nl);
    assert(lines.subrange(a, b) =~= parts.subrange(a, b));
    assert forall|k: int, j: int|
        0 <= k < parts.subrange(a, b).len() && 0 <= j < #[trigger] parts.subrange(a, b)[k].len()
        implies (#[trigger] parts.subrange(a, b)[k][j]) != '\n' by {
        assert(parts.subrange(a, b)[k] == parts[a + k]);
        assert(parts[a + k][j] != '\n');
    }
    lemma_newlines_joined(parts.subrange(a, b));
    let rest = join(parts.skip(a), nl);
    let front = lemma_passage_front(parts, a);
    let p = front.len() as int;
    assert(content =~= front + rest);
    assert(content.take(p) =~= front);
    if b < parts.len() {
        assert(parts.skip(a) =~= parts.subrange(a, b) + parts.skip(b));
        lemma_join_concat(parts.subrange(a, b), parts.skip(b), nl);
        assert(rest == body + nl + join(parts.skip(b), nl));
        if b < total {
            assert(body + Seq::<char>::empty() =~= body);
            let q = p + body.len();
            assert(content.subrange(p, q) =~= body);
            assert(content[q] == '\n');
            lemma_newlines_concat(front, body);
            assert(content.take(q) =~= front + body);
            assert(passage_at(content, body, a, b, total, p));
        } else {
            assert(parts.skip(b) =~= seq![parts.last()]);
            assert(rest =~= body + nl);
            assert(content.last() == '\n');
            assert(content.subrange(content.len() - 1, content.len() as int) =~= nl);
            assert(content.subrange(p, content.len() as int) =~= body + nl);
            assert(crate::text::ends_with(content, nl));
            assert(passage_at(content, body + nl, a, b, total, p));
        }
    } else {
        assert(parts.skip(a) =~= parts.subrange(a, b));
        assert(content.last() == parts.last().last()) by {
            if b - a > 1 {
                assert(parts.subrange(a, b).last() == parts.last());
            }
            assert(body.last() == parts.last().last());
        }
        assert(parts.last()[parts.last().len() - 1] != '\n');
        assert(!crate::text::ends_with(content, nl)) by {
            if crate::text::ends_with(content, nl) {
                assert(content.subrange(content.len() - 1, content.len() as int)[0] == nl[0]);
            }
        }
        assert(body + Seq::<char>::empty() =~= body);
        assert(content.subrange(p, content.len() as int) =~= body);
        assert(passage_at(content, body, a, b, total, p));
    }
}

/// The passage of all lines is the text.
proof fn lemma_whole_passage(content: Seq<char>, passage: Seq<char>, total: int)
    requires
        is_passage(content, passage, 0, total, total),
    ensures
        passage == content,
{
    let p = choose|p: int| passage_at(content, passage, 0, total, total, p);
    if p > 0 {
        assert(content.take(p).last() == content[p - 1]);
    }
    assert(content.subrange(0, content.len() as int) =~= content);
}

/// The lines of a text.
pub fn split_text_lines(content: &str) -> (r: Vec<String>)
    ensures
        views(r@) == text_lines(content@),
{
    let mut parts = str_split(content, '\n');
    proof {
        lemma_split_len(content@, '\n');
    }
    let ghost all = parts@;
    assert(views(all).last() == all.last()@);
    if parts[parts.len() - 1].as_str().is_empty() {
        let _last = parts.pop();
        assert(views(parts@) =~= views(all).drop_last());
    }
    parts
}

/// How many lines a text has.
pub fn count_text_lines(content: &str) -> (r: usize)
    ensures
        r == text_lines(content@).len(),
        r == newlines(content@) + if content@.len() > 0 && content@.last() != '\n' {
            1nat
        } else {
            0nat
        },
{
    proof {
        law_line_count(content@);
    }
    let lines = split_text_lines(content);
    assert(views(lines@).len() == lines@.len());
    lines.len()
}

/// A line as it is returned: with its number where that is asked for.
pub open spec fn rendered(number: nat, line: Seq<char>, numbered: bool) -> Seq<char> {
    if numbered {
        decimal(number) + ": "@ + line
    } else {
        line
    }
}

/// A line as it is returned.
pub fn render_line(line_number: usize, line: &str, include_line_numbers: bool) -> (r: String)
    ensures
        r@ == rendered(line_number as nat, line@, include_line_numbers),
{
    if include_line_numbers {
        let mut out = usize_decimal(line_number);
        out.append(": ");
        out.append(line);
        out
    } else {
        line.to_owned()
    }
}

/// The lines as they are returned, the first of them numbered `first`.
pub open spec fn rendered_lines(
    lines: Seq<Seq<char>>,
    first: nat,
    numbered: bool,
) -> Seq<Seq<char>> {
    Seq::new(lines.len(), |i: int| rendered((first + i) as nat, lines[i], numbered))
}

/// The first `n` of the lines are within the limits.
pub open spec fn fits(
    lines: Seq<Seq<char>>,
    n: int,
    max_lines: Option<usize>,
    max_bytes: Option<usize>,
) -> bool {
    &&& max_lines matches Some(most) ==> n <= most
    &&& max_bytes matches Some(most) ==> most == usize::MAX || byte_len(
        join(lines.take(n), "\n"@),
    ) <= most
}

/// How many of the lines are returned, `n` being already within the limits:
/// one more as long as that is within them too.
pub open spec fn kept_from(
    lines: Seq<Seq<char>>,
    n: int,
    max_lines: Option<usize>,
    max_bytes: Option<usize>,
) -> int
    decreases lines.len() - n,
{
    if 0 <= n < lines.len() && fits(lines, n + 1, max_lines, max_bytes) {
        kept_from(lines, n + 1, max_lines, max_bytes)
    } else {
        n
    }
}

/// How many of the lines are returned.
pub open spec fn kept(
    lines: Seq<Seq<char>>,
    max_lines: Option<usize>,
    max_bytes: Option<usize>,
) -> int {
    kept_from(lines, 0, max_lines, max_bytes)
}

/// The bytes of the first lines and one more.
proof fn lemma_join_bytes(lines: Seq<Seq<char>>, n: int)
    requires
        0 <= n < lines.len(),
    ensures
        byte_len(join(lines.take(n + 1), "\n"@)) == byte_len(join(lines.take(n), "\n"@)) + if n
            == 0 {
            0int
        } else {
            1int
        } + byte_len(lines[n]),
{
    let sep = "\n"@;
    let head = lines.take(n);
    let more = lines.take(n + 1);
    assert(more.drop_last() =~= head);
    assert(more.last() == lines[n]);
    if n == 0 {
        assert(join(head, sep) =~= Seq::<char>::empty());
        assert(more[0] == lines[0]);
    } else {
        reveal_strlit("\n");
        assert(join(more, sep) == join(head, sep) + sep + lines[n]);
        lemma_encode_concat(join(head, sep) + sep, lines[n]);
        lemma_encode_concat(join(head, sep), sep);
        vstd::utf8::is_ascii_chars_encode_utf8(sep);
    }
}

/// What is returned lies between no lines and all, and within the limits.
proof fn lemma_kept_from(
    lines: Seq<Seq<char>>,
    n: int,
    max_lines: Option<usize>,
    max_bytes: Option<usize>,
)
    requires
        0 <= n <= lines.len(),
    ensures
        n <= kept_from(lines, n, max_lines, max_bytes) <= lines.len(),
        fits(lines, n, max_lines, max_bytes) ==> fits(
            lines,
            kept_from(lines, n, max_lines, max_bytes),
            max_lines,
            max_bytes,
        ),
    decreases lines.len() - n,
{
    if n < lines.len() && fits(lines, n + 1, max_lines, max_bytes) {
        lemma_kept_from(lines, n + 1, max_lines, max_bytes);
    }
}

/// Where more lines fit, fewer do.
proof fn lemma_fits_fewer(
    lines: Seq<Seq<char>>,
    few: int,
    many: int,
    max_lines: Option<usize>,
    max_bytes: Option<usize>,
)
    requires
        0 <= few <= many <= lines.len(),
        fits(lines, many, max_lines, max_bytes),
    ensures
        fits(lines, few, max_lines, max_bytes),
    decreases many - few,
{
    if few < many {
        lemma_join_bytes(lines, many - 1);
        lemma_fits_fewer(lines, few, many - 1, max_lines, max_bytes);
    }
}

/// As many lines are returned as the limits allow: what is returned fits, and
/// no more lines than that do.
pub proof fn law_kept_largest(
    lines: Seq<Seq<char>>,
    n: int,
    max_lines: Option<usize>,
    max_bytes: Option<usize>,
)
    requires
        0 <= n <= lines.len(),
    ensures
        0 <= kept(lines, max_lines, max_bytes) <= lines.len(),
        fits(lines, kept(lines, max_lines, max_bytes), max_lines, max_bytes),
        fits(lines, n, max_lines, max_bytes) ==> n <= kept(lines, max_lines, max_bytes),
{
    let k = kept(lines, max_lines, max_bytes);
    assert(lines.take(0) =~= Seq::<Seq<char>>::empty());
    assert(join(lines.take(0), "\n"@) =~= Seq::<char>::empty());
    lemma_kept_from(lines, 0, max_lines, max_bytes);
    lemma_kept_stops(lines, 0, max_lines, max_bytes);
    if fits(lines, n, max_lines, max_bytes) && n > k {
        lemma_fits_fewer(lines, k + 1, n, max_lines, max_bytes);
    }
}

/// Where lines are left out, one more would not have fitted.
proof fn lemma_kept_stops(
    lines: Seq<Seq<char>>,
    n: int,
    max_lines: Option<usize>,
    max_bytes: Option<usize>,
)
    requires
        0 <= n <= lines.len(),
    ensures
        kept_from(lines, n, max_lines, max_bytes) < lines.len() ==> !fits(
            lines,
            kept_from(lines, n, max_lines, max_bytes) + 1,
            max_lines,
            max_bytes,
        ),
    decreases lines.len() - n,
{
    if n < lines.len() && fits(lines, n + 1, max_lines, max_bytes) {
        lemma_kept_stops(lines, n + 1, max_lines, max_bytes);
    }
}

/// The text behind which the line feed that ends it stands again, where it is
/// asked for and still within the limit.
pub open spec fn closed(body: Seq<char>, asked: bool, max_bytes: Option<usize>) -> Seq<char> {
    if asked && (max_bytes matches Some(most) ==> byte_len(body) < most) {
        body + "\n"@
    } else {
        body
    }
}

/// A line feed is one byte more.
proof fn lemma_closed_bytes(body: Seq<char>)
    ensures
        byte_len(body + "\n"@) == byte_len(body) + 1,
{
    reveal_strlit("\n");
    lemma_encode_concat(body, "\n"@);
    vstd::utf8::is_ascii_chars_encode_utf8("\n"@);
}

/// What is returned of the lines is within the limit on the bytes, with the line
/// feed that ends it.
pub proof fn law_bytes_within_limit(
    lines: Seq<Seq<char>>,
    asked: bool,
    max_lines: Option<usize>,
    most: usize,
)
    requires
        most < usize::MAX,
    ensures
        byte_len(
            closed(
                join(lines.take(kept(lines, max_lines, Some(most))), "\n"@),
                asked,
                Some(most),
            ),
        ) <= most,
{
    law_kept_largest(lines, 0, max_lines, Some(most));
    lemma_closed_bytes(join(lines.take(kept(lines, max_lines, Some(most))), "\n"@));
}

/// The lines that were returned, and where to go on reading.
pub struct LimitedContent {
    pub content: String,
    pub returned_lines: usize,
    pub truncated: bool,
    pub omitted_lines: usize,
    pub next_start_line: Option<usize>,
    pub end_line: usize,
}

impl LimitedContent {
    /// What is returned of `lines`, the first of them numbered `first`.
    pub open spec fn describes(
        &self,
        lines: Seq<Seq<char>>,
        first: nat,
        numbered: bool,
        max_lines: Option<usize>,
        max_bytes: Option<usize>,
        final_newline: bool,
    ) -> bool {
        let all = rendered_lines(lines, first, numbered);
        let n = kept(all, max_lines, max_bytes);
        let body = join(all.take(n), "\n"@);
        &&& self.returned_lines == n
        &&& self.omitted_lines == lines.len() - n
        &&& self.truncated == (n < lines.len())
        &&& self.next_start_line == if n < lines.len() {
            Some((first + n) as usize)
        } else {
            None
        }
        &&& self.end_line == if n > 0 {
            first + n - 1
        } else if first > 0 {
            first - 1
        } else {
            0
        }
        &&& self.content@ == closed(body, final_newline && n == lines.len() && n > 0, max_bytes)
    }
}

/// The lines within the limits, joined again; `append_terminal_newline` says
/// that the last line is ended by a line feed, which is returned where it is
/// within the limit too.
pub fn apply_limits(
    lines: &[String],
    first_line_number: usize,
    include_line_numbers: bool,
    max_lines: Option<usize>,
    max_bytes: Option<usize>,
    append_terminal_newline: bool,
) -> (r: LimitedContent)
    requires
        first_line_number + lines@.len() <= usize::MAX,
    ensures
        r.describes(
            views(lines@),
            first_line_number as nat,
            include_line_numbers,
            max_lines,
            max_bytes,
            append_terminal_newline,
        ),
        max_bytes matches Some(most) ==> byte_len(r.content@) <= most,
        r.returned_lines + r.omitted_lines == lines@.len(),
        r.truncated == (r.omitted_lines > 0),
        r.next_start_line == if r.truncated {
            Some((first_line_number + r.returned_lines) as usize)
        } else {
            None
        },
        r.returned_lines > 0 ==> r.end_line == first_line_number + r.returned_lines - 1,
        max_lines matches Some(most) ==> r.returned_lines <= most,
        max_bytes is None && (max_lines matches Some(most) ==> lines@.len() <= most)
            ==> !r.truncated,
        max_bytes is None && r.truncated ==> max_lines == Some(r.returned_lines),
        !include_line_numbers && max_bytes is None ==> r.content@ == join(
            views(lines@).take(r.returned_lines as int),
            "\n"@,
        ) + if append_terminal_newline && !r.truncated && lines@.len() > 0 {
            "\n"@
        } else {
            Seq::empty()
        },
        include_line_numbers && max_bytes is None ==> r.content@ == join(
            Seq::new(
                r.returned_lines as nat,
                |i: int|
                    decimal((first_line_number + i) as nat) + seq![':', ' '] + lines@[i]@,
            ),
            "\n"@,
        ) + if append_terminal_newline && !r.truncated && lines@.len() > 0 {
            "\n"@
        } else {
            Seq::empty()
        },
{
    let ghost all = rendered_lines(views(lines@), first_line_number as nat, include_line_numbers);
    let line_limit: usize = match max_lines {
        Some(most) => most,
        None => usize::MAX,
    };
    let byte_limit: usize = match max_bytes {
        Some(most) => most,
        None => usize::MAX,
    };
    let mut out: Vec<String> = Vec::new();
    let mut used: usize = 0;
    let mut i: usize = 0;
    assert(all.take(0) =~= Seq::<Seq<char>>::empty());
    assert(join(all.take(0), "\n"@) =~= Seq::<char>::empty());
    assert(views(out@) =~= all.take(0));
    while i < lines.len() && i < line_limit
        invariant_except_break
            i <= lines@.len(),
            kept(all, max_lines, max_bytes) == kept_from(all, i as int, max_lines, max_bytes),
        invariant
            i <= lines@.len(),
            first_line_number + lines@.len() <= usize::MAX,
            all == rendered_lines(
                views(lines@),
                first_line_number as nat,
                include_line_numbers,
            ),
            line_limit == (match max_lines {
                Some(most) => most,
                None => usize::MAX,
            }),
            byte_limit == (match max_bytes {
                Some(most) => most,
                None => usize::MAX,
            }),
            views(out@) == all.take(i as int),
            out@.len() == i,
            used == byte_len(join(all.take(i as int), "\n"@)) || (used == usize::MAX && byte_len(
                join(all.take(i as int), "\n"@),
            ) >= usize::MAX),
        ensures
            i == kept(all, max_lines, max_bytes),
        decreases lines@.len() - i,
    {
        let line = render_line(
            first_line_number + i,
            lines[i].as_str(),
            include_line_numbers,
        );
        assert(views(lines@)[i as int] == lines@[i as int]@);
        assert(line@ == all[i as int]);
        let separator: usize = if i == 0 {
            0
        } else {
            1
        };
        let size: usize = line.as_str().as_bytes().len();
        proof {
            lemma_join_bytes(all, i as int);
        }
        assert(size == byte_len(all[i as int]));
        let total: usize = used.saturating_add(separator).saturating_add(size);
        if total > byte_limit {
            assert(!fits(all, i + 1, max_lines, max_bytes));
            break;
        }
        assert(fits(all, i + 1, max_lines, max_bytes));
        let ghost before = out@;
        out.push(line);
        used = total;
        assert(views(out@) =~= views(before).push(line@));
        assert(all.take(i as int).push(line@) =~= all.take(i + 1));
        i += 1;
    }
    proof {
        law_kept_largest(all, 0, max_lines, max_bytes);
    }
    let returned_lines: usize = out.len();
    let omitted_lines: usize = lines.len() - returned_lines;
    let truncated: bool = omitted_lines > 0;
    let next_start_line: Option<usize> = if truncated {
        Some(first_line_number + returned_lines)
    } else {
        None
    };
    let end_line: usize = if returned_lines > 0 {
        first_line_number + (returned_lines - 1)
    } else if first_line_number > 0 {
        first_line_number - 1
    } else {
        0
    };
    let mut content = str_join(out.as_slice(), "\n");
    let size: usize = content.as_str().as_bytes().len();
    proof {
        lemma_closed_bytes(content@);
    }
    let has_room: bool = match max_bytes {
        Some(most) => size < most,
        None => true,
    };
    proof {
        let shown = all.take(returned_lines as int);
        if include_line_numbers {
            reveal_strlit(": ");
            assert(": "@ =~= seq![':', ' ']);
            assert(shown =~= Seq::new(
                returned_lines as nat,
                |i: int|
                    decimal((first_line_number + i) as nat) + seq![':', ' '] + lines@[i]@,
            ));
        } else {
            assert(shown =~= views(lines@).take(returned_lines as int));
        }
        assert(content@ + Seq::<char>::empty() =~= content@);
        if max_bytes is None {
            let most = match max_lines {
                Some(most) => if most < lines@.len() {
                    most as int
                } else {
                    lines@.len() as int
                },
                None => lines@.len() as int,
            };
            law_kept_largest(all, most, max_lines, max_bytes);
        }
    }
    if append_terminal_newline && !truncated && returned_lines > 0 && has_room {
        content.append("\n");
    }
    LimitedContent {
        content,
        returned_lines,
        truncated,
        omitted_lines,
        next_start_line,
        end_line,
    }
}

/// Which lines of a file are asked for: line numbers count from one and the
/// last is part of the range.
pub struct ReadRequest {
    pub start_line: Option<usize>,
    pub end_line: Option<usize>,
    pub max_lines: Option<usize>,
    pub max_bytes: Option<usize>,
    pub include_line_numbers: Option<bool>,
}

impl ReadRequest {
    /// The lines are asked for as they are, all of the range.
    pub open spec fn is_unlimited(&self) -> bool {
        self.max_lines is None && self.max_bytes is None && self.include_line_numbers != Some(true)
    }

    /// The first line that is asked for.
    pub open spec fn first(&self) -> nat {
        match self.start_line {
            Some(n) => n as nat,
            None => 1,
        }
    }

    /// The last line that is asked for.
    pub open spec fn last(&self) -> nat {
        match self.end_line {
            Some(n) => n as nat,
            None => usize::MAX as nat,
        }
    }

    /// Whether the lines are to be numbered.
    pub open spec fn numbered(&self) -> bool {
        self.include_line_numbers == Some(true)
    }
}

/// How many of `total` lines stand before line `start`.
pub open spec fn range_start(start: nat, total: nat) -> int {
    if start - 1 <= total {
        start - 1
    } else {
        total as int
    }
}

/// How many of `total` lines stand at or before line `end`.
pub open spec fn range_end(end: nat, total: nat) -> int {
    if end <= total {
        end as int
    } else {
        total as int
    }
}

/// The lines from `start` to `end` are a range of `total` lines: they do not
/// run backwards, and the number after the last of them is a number of the
/// machine.
pub open spec fn is_range(start: nat, end: nat, total: nat) -> bool {
    1 <= start && total < usize::MAX && range_start(start, total) <= range_end(end, total)
}

/// Why a file is not read.
pub enum ReadError {
    MissingPath,
    NotAFile(String),
    TooLarge(u64),
    ZeroStartLine,
    InvalidRange,
}

impl ReadError {
    /// The error in words.
    pub open spec fn words(&self) -> Seq<char> {
        match self {
            ReadError::MissingPath => "Missing path"@,
            ReadError::NotAFile(path) => "File does not exist or is not a file: "@ + path@,
            ReadError::TooLarge(mb) => "File is too large ("@ + decimal(*mb as nat)
                + "MB > 10MB limit)"@,
            ReadError::ZeroStartLine => "start_line must be >= 1"@,
            ReadError::InvalidRange => "end_line must not be before start_line"@,
        }
    }

    /// The error in words.
    pub fn message(&self) -> (r: String)
        ensures
            r@ == self.words(),
    {
        match self {
            ReadError::MissingPath => "Missing path".to_owned(),
            ReadError::NotAFile(path) => {
                let mut out = "File does not exist or is not a file: ".to_owned();
                out.append(path.as_str());
                out
            },
            ReadError::TooLarge(mb) => {
                let mut out = "File is too large (".to_owned();
                out.append(u64_decimal(*mb).as_str());
                out.append("MB > 10MB limit)");
                out
            },
            ReadError::ZeroStartLine => "start_line must be >= 1".to_owned(),
            ReadError::InvalidRange => "end_line must not be before start_line".to_owned(),
        }
    }
}

/// A range of the lines of a file.
pub struct ReadResponse {
    pub limited: LimitedContent,
    pub start_line: usize,
    pub total_lines: usize,
    pub encoding: &'static str,
    pub file_size_bytes: u64,
}

impl ReadResponse {
    /// The lines are those of the text that were asked for, counted by its line feeds.
    pub open spec fn shows_passage(&self, content: Seq<char>, request: ReadRequest) -> bool {
        let a = self.start_line - 1;
        let b = a + self.limited.returned_lines + self.limited.omitted_lines;
        &&& self.total_lines == newlines(content) + if content.len() > 0 && content.last()
            != '\n' {
            1nat
        } else {
            0nat
        }
        &&& a <= self.total_lines && (request.start_line matches Some(n) ==> n == a + 1 || (n
            > self.total_lines && a == self.total_lines))
        &&& request.start_line is None ==> a == 0
        &&& request.end_line matches Some(n) ==> b == n || (n > self.total_lines && b
            == self.total_lines)
        &&& request.end_line is None ==> b == self.total_lines
        &&& request.is_unlimited() ==> self.limited.omitted_lines == 0
        &&& request.is_unlimited() && a < b ==> is_passage(
            content,
            self.limited.content@,
            a as int,
            b as int,
            self.total_lines as int,
        )
    }

    /// What is returned of a file with the given text.
    pub open spec fn answers(&self, content: Seq<char>, request: ReadRequest) -> bool {
        let lines = text_lines(content);
        let start = range_start(request.first(), lines.len());
        let end = range_end(request.last(), lines.len());
        &&& self.total_lines == lines.len()
        &&& self.start_line == start + 1
        &&& self.limited.describes(
            lines.subrange(start, end),
            (start + 1) as nat,
            request.numbered(),
            request.max_lines,
            request.max_bytes,
            crate::text::ends_with(content, "\n"@) && end == lines.len(),
        )
    }
}

/// A range of the lines of a text, as it is returned.
pub struct Excerpt {
    pub content: Seq<char>,
    pub returned: int,
    pub truncated: bool,
    pub omitted: int,
    pub next: Option<usize>,
    pub start: int,
    pub end: int,
    pub total: int,
    pub encoding: Seq<char>,
    pub file_size: u64,
}

impl View for ReadResponse {
    type V = Excerpt;

    open spec fn view(&self) -> Excerpt {
        Excerpt {
            content: self.limited.content@,
            returned: self.limited.returned_lines as int,
            truncated: self.limited.truncated,
            omitted: self.limited.omitted_lines as int,
            next: self.limited.next_start_line,
            start: self.start_line as int,
            end: self.limited.end_line as int,
            total: self.total_lines as int,
            encoding: self.encoding@,
            file_size: self.file_size_bytes,
        }
    }
}

/// What is returned of a text that was read by the encoding of that name from a
/// file of that size.
pub open spec fn excerpt_of(
    content: Seq<char>,
    encoding: Seq<char>,
    file_size: u64,
    request: ReadRequest,
) -> Excerpt {
    let lines = text_lines(content);
    let start = range_start(request.first(), lines.len());
    let end = range_end(request.last(), lines.len());
    let selected = lines.subrange(start, end);
    let all = rendered_lines(selected, (start + 1) as nat, request.numbered());
    let n = kept(all, request.max_lines, request.max_bytes);
    let body = join(all.take(n), "\n"@);
    Excerpt {
        content: closed(
            body,
            crate::text::ends_with(content, "\n"@) && end == lines.len() && n == selected.len()
                && n > 0,
            request.max_bytes,
        ),
        returned: n,
        truncated: n < selected.len(),
        omitted: selected.len() - n,
        next: if n < selected.len() {
            Some((start + 1 + n) as usize)
        } else {
            None
        },
        start: start + 1,
        end: if n > 0 {
            start + n
        } else {
            start
        },
        total: lines.len() as int,
        encoding,
        file_size,
    }
}

/// What answers a request is what is returned of the text.
pub proof fn lemma_answers(response: ReadResponse, content: Seq<char>, request: ReadRequest)
    requires
        response.answers(content, request),
        request.first() >= 1,
    ensures
        response@ == excerpt_of(content, response.encoding@, response.file_size_bytes, request),
{
}

/// What comes of reading a file: a range of its text, or why there is none.
pub open spec fn read_outcome(
    path: Option<Seq<char>>,
    is_file: bool,
    len: u64,
    bytes: Seq<u8>,
    request: ReadRequest,
) -> Result<Excerpt, Seq<char>> {
    match read_refusal(path, is_file, len, request) {
        Some(words) => Err(words),
        None => if is_range(
            request.first(),
            request.last(),
            text_lines(decoded(bytes).0).len(),
        ) {
            Ok(excerpt_of(decoded(bytes).0, decoded(bytes).1, len, request))
        } else {
            Err("end_line must not be before start_line"@)
        },
    }
}

/// A response that holds the lines of the range shows the passage that was asked for.
proof fn lemma_response_shown(
    response: ReadResponse,
    content: Seq<char>,
    request: ReadRequest,
    start: int,
    end: int,
)
    requires
        is_range(request.first(), request.last(), text_lines(content).len()),
        start == range_start(request.first(), text_lines(content).len()),
        end == range_end(request.last(), text_lines(content).len()),
        response.total_lines == text_lines(content).len(),
        response.start_line == start + 1,
        response.limited.returned_lines + response.limited.omitted_lines == end - start,
        request.is_unlimited() ==> response.limited.omitted_lines == 0
            && response.limited.content@ == join(
            text_lines(content).subrange(start, end),
            "\n"@,
        ) + if crate::text::ends_with(content, "\n"@) && end == text_lines(content).len() && end
            > start {
            "\n"@
        } else {
            Seq::empty()
        },
    ensures
        response.shows_passage(content, request),
        request.is_unlimited() && request.start_line is None && request.end_line is None
            ==> response.limited.content@ == content,
{
    let total = text_lines(content).len() as int;
    law_line_count(content);
    if request.is_unlimited() && start < end {
        law_passage(content, start, end);
    }
    if request.is_unlimited() && request.start_line is None && request.end_line is None {
        if total == 0 {
            assert(text_lines(content).subrange(start, end) =~= Seq::<Seq<char>>::empty());
            assert(response.limited.content@ =~= content);
        } else {
            lemma_whole_passage(content, response.limited.content@, total);
        }
    }
}

/// The range of the lines of `content` that `request` asks for.
pub fn read_range(
    content: &str,
    encoding: &'static str,
    file_size_bytes: u64,
    request: &ReadRequest,
) -> (r: ReadResponse)
    requires
        is_range(request.first(), request.last(), text_lines(content@).len()),
    ensures
        r.answers(content@, *request),
        r.encoding@ == encoding@,
        r.file_size_bytes == file_size_bytes,
        request.max_bytes matches Some(most) ==> byte_len(r.limited.content@) <= most,
        r.shows_passage(content@, *request),
        request.is_unlimited() && request.start_line is None && request.end_line is None
            ==> r.limited.content@ == content@,
{
    let lines = split_text_lines(content);
    let ghost all = text_lines(content@);
    assert(views(lines@).len() == lines@.len());
    let total: usize = lines.len();
    let start_line: usize = match request.start_line {
        Some(n) => n,
        None => 1,
    };
    let end_line: usize = match request.end_line {
        Some(n) => n,
        None => usize::MAX,
    };
    let numbered: bool = match request.include_line_numbers {
        Some(b) => b,
        None => false,
    };
    let start: usize = if start_line - 1 <= total {
        start_line - 1
    } else {
        total
    };
    let end: usize = if end_line <= total {
        end_line
    } else {
        total
    };
    let selected = vstd::slice::slice_subrange(lines.as_slice(), start, end);
    assert(views(selected@) =~= all.subrange(start as int, end as int));
    let limited = apply_limits(
        selected,
        start + 1,
        numbered,
        request.max_lines,
        request.max_bytes,
        str_ends_with(content, "\n") && end == total,
    );
    let response = ReadResponse {
        limited,
        start_line: start + 1,
        total_lines: total,
        encoding,
        file_size_bytes,
    };
    proof {
        assert(selected@.len() == end - start);
        if request.is_unlimited() {
            assert(views(selected@).take(end - start) =~= all.subrange(start as int, end as int));
        }
        lemma_response_shown(response, content@, *request, start as int, end as int);
    }
    response
}

/// Why a file is not read, as far as that can be said before its bytes are
/// there.
pub open spec fn read_refusal(
    path: Option<Seq<char>>,
    is_file: bool,
    len: u64,
    request: ReadRequest,
) -> Option<Seq<char>> {
    if path is None {
        Some("Missing path"@)
    } else if !is_file {
        Some("File does not exist or is not a file: "@ + path->0)
    } else if len / 1024 / 1024 > MAX_READ_MB {
        Some("File is too large ("@ + decimal((len / 1024 / 1024) as nat) + "MB > 10MB limit)"@)
    } else if request.first() == 0 {
        Some("start_line must be >= 1"@)
    } else {
        None
    }
}

/// Whether a file may be read at all.
pub fn check_read(
    path: &Option<String>,
    is_file: bool,
    len: u64,
    request: &ReadRequest,
) -> (r: Result<(), ReadError>)
    ensures
        read_refusal(crate::text::opt_view(*path), is_file, len, *request) == (match r {
            Ok(_) => None,
            Err(e) => Some(e.words()),
        }),
        r matches Err(e) ==> e !is InvalidRange,
        r is Ok == (*path is Some && is_file && len < 11 * 1024 * 1024 && request.start_line != Some(
            0usize,
        )),
{
    match path {
        None => Err(ReadError::MissingPath),
        Some(p) => {
            if !is_file {
                return Err(ReadError::NotAFile(p.clone()));
            }
            let mb: u64 = len / 1024 / 1024;
            if mb > MAX_READ_MB {
                return Err(ReadError::TooLarge(mb));
            }
            let start_line: usize = match request.start_line {
                Some(n) => n,
                None => 1,
            };
            if start_line == 0 {
                return Err(ReadError::ZeroStartLine);
            }
            Ok(())
        },
    }
}

/// The range of the lines of a file that `request` asks for: `len` is the size
/// that the file system gives, `bytes` what was read.
pub fn execute_sync(
    path: &Option<String>,
    is_file: bool,
    len: u64,
    bytes: &[u8],
    request: &ReadRequest,
) -> (r: Result<ReadResponse, ReadError>)
    ensures
        match read_refusal(crate::text::opt_view(*path), is_file, len, *request) {
            Some(words) => r matches Err(e) && e.words() == words,
            None => if is_range(
                request.first(),
                request.last(),
                text_lines(decoded(bytes@).0).len(),
            ) {
                r matches Ok(response) && response.answers(decoded(bytes@).0, *request)
                    && response.encoding@ == decoded(bytes@).1 && response.file_size_bytes == len
                    && (request.max_bytes matches Some(most) ==> byte_len(
                    response.limited.content@,
                ) <= most) && response.shows_passage(decoded(bytes@).0, *request)
            } else {
                r matches Err(e) && e is InvalidRange
            },
        },
        r is Ok ==> *path is Some && is_file && len < 11 * 1024 * 1024 && request.start_line
            != Some(0usize),
        *path is Some && is_file && len < 11 * 1024 * 1024 && request.start_line != Some(0usize)
            && newlines(decoded(bytes@).0) + 1 < usize::MAX && (request.end_line matches Some(end)
            ==> (request.start_line matches Some(start) ==> start <= end)) ==> r is Ok,
        request.start_line is Some && request.end_line is Some && request.end_line->0 + 1
            < request.start_line->0 && request.end_line->0 < newlines(decoded(bytes@).0) ==> r is Err,
        r is Ok && request.is_unlimited() && request.start_line is None && request.end_line is None
            ==> r->Ok_0.limited.content@ == decoded(bytes@).0,
{
    proof {
        law_line_count(decoded(bytes@).0);
    }
    if let Err(e) = check_read(path, is_file, len, request) {
        return Err(e);
    }
    let (content, encoding) = decode_fuzzy(bytes);
    let total: usize = count_text_lines(content.as_str());
    let start_line: usize = match request.start_line {
        Some(n) => n,
        None => 1,
    };
    let end_line: usize = match request.end_line {
        Some(n) => n,
        None => usize::MAX,
    };
    if total == usize::MAX || (end_line < start_line - 1 && end_line < total) {
        return Err(ReadError::InvalidRange);
    }
    Ok(read_range(content.as_str(), encoding, len, request))
}

/// Reading on from the line that a cut answer names gives what was left out:
/// the lines there are the ones that were omitted, under the same numbers.
pub proof fn law_read_continues(
    lines: Seq<Seq<char>>,
    start: nat,
    end: nat,
    numbered: bool,
    max_lines: Option<usize>,
    max_bytes: Option<usize>,
)
    requires
        is_range(start, end, lines.len()),
    ensures
        ({
            let from = range_start(start, lines.len());
            let to = range_end(end, lines.len());
            let selected = lines.subrange(from, to);
            let all = rendered_lines(selected, (from + 1) as nat, numbered);
            let n = kept(all, max_lines, max_bytes);
            let next = (from + 1 + n) as nat;
            n < selected.len() ==> {
                &&& is_range(next, end, lines.len())
                &&& range_start(next, lines.len()) == from + n
                &&& selected == selected.take(n) + lines.subrange(from + n, to)
                &&& rendered_lines(lines.subrange(from + n, to), next, numbered) == all.skip(n)
            }
        }),
{
    let from = range_start(start, lines.len());
    let to = range_end(end, lines.len());
    let selected = lines.subrange(from, to);
    let all = rendered_lines(selected, (from + 1) as nat, numbered);
    law_kept_largest(all, 0, max_lines, max_bytes);
    let n = kept(all, max_lines, max_bytes);
    if n < selected.len() {
        assert(selected =~= selected.take(n) + lines.subrange(from + n, to));
        assert(rendered_lines(lines.subrange(from + n, to), (from + 1 + n) as nat, numbered)
            =~= all.skip(n));
    }
}

} // verus!
