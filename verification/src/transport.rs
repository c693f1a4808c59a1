//! How messages stand on standard input and output: one on a line, or each behind
//! headers that give its length.

use vstd::prelude::*;
use vstd::utf8::{
    decode_utf8, encode_utf8, encode_utf8_decode_utf8, encode_utf8_valid_utf8, valid_utf8,
};

use crate::encoding::text_from_utf8;
use crate::numbers::{
    decimal, digits_of, is_digit, is_number, lemma_value_decimal, parse_u64, usize_decimal, value,
};
use crate::text::{
    ascii_lower, byte_len, chars_of, contains, find, find_from, is_whitespace, lemma_find_from,
    occurs_at, starts_with, str_contains, str_eq, str_eq_ignore_case, str_skip, str_starts_with,
    str_take, str_trim, str_trim_start, trim, trim_end, trim_start,
};
use crate::tools::compare_directories::capped_sum;

verus! {

/// How a message stands in the stream.
#[derive(Clone, Copy, Debug, PartialEq, Eq, Structural)]
pub enum TransportMode {
    /// One message on a line.
    Line,
    /// A header with the length, an empty line, and the message.
    Framed,
}

/// The length that a header line gives.
pub open spec fn header_length(line: Seq<char>) -> Option<usize> {
    match find_from(line, ":"@, 0) {
        None => None,
        Some(p) => {
            let number = trim(line.skip(p + 1));
            if ascii_lower(trim(line.take(p))) == ascii_lower("content-length"@) && is_number(
                number,
            ) && value(digits_of(number)) <= usize::MAX {
                Some(value(digits_of(number)) as usize)
            } else {
                None
            }
        },
    }
}

/// The length that a header line gives.
pub fn parse_content_length_header(line: &str) -> (r: Option<usize>)
    ensures
        r == header_length(line@),
{
    proof {
        reveal_strlit(":");
    }
    let a = chars_of(line);
    let colon = chars_of(":");
    let total: usize = a.len();
    match find(a.as_slice(), colon.as_slice(), 0) {
        None => None,
        Some(p) => {
            proof {
                lemma_find_from(line@, ":"@, 0);
            }
            let name = str_trim(str_take(line, p).as_str());
            if !str_eq_ignore_case(name.as_str(), "content-length") {
                return None;
            }
            let number = str_trim(str_skip(line, p + 1).as_str());
            match parse_u64(number.as_str()) {
                Some(n) => if n <= usize::MAX as u64 {
                    Some(n as usize)
                } else {
                    None
                },
                None => None,
            }
        },
    }
}

/// What is being read: the start of a message, or its headers, of which the
/// length is known or not and so many bytes have come.
#[derive(Clone, Copy, Debug, PartialEq, Eq)]
pub enum ReadState {
    Start,
    Headers { length: Option<usize>, bytes: usize },
}

/// What follows when a line was read.
pub enum ReadStep {
    /// Another line is read.
    Again(ReadState),
    /// Nothing more comes.
    End,
    /// The message is there, with the bytes that it took.
    Message { text: String, mode: TransportMode, bytes: usize },
    /// So many bytes are read: they are the message.
    Body { length: usize, header_bytes: usize },
    /// The input cannot be read.
    Failed(&'static str),
}

/// What follows when a line was read.
pub enum StepView {
    Again(ReadState),
    End,
    Message { text: Seq<char>, mode: TransportMode, bytes: nat },
    Body { length: usize, header_bytes: usize },
    Failed(Seq<char>),
}

impl View for ReadStep {
    type V = StepView;

    open spec fn view(&self) -> StepView {
        match *self {
            ReadStep::Again(state) => StepView::Again(state),
            ReadStep::End => StepView::End,
            ReadStep::Message { text, mode, bytes } => StepView::Message {
                text: text@,
                mode,
                bytes: bytes as nat,
            },
            ReadStep::Body { length, header_bytes } => StepView::Body { length, header_bytes },
            ReadStep::Failed(reason) => StepView::Failed(reason@),
        }
    }
}

/// What follows when a line was read, with its line break; no line where the
/// input has ended. A blank line before a message is passed over. A line that
/// begins as JSON does, or that has no colon, is a message; any other is the first
/// of the headers, which end with an empty line.
pub open spec fn step(state: ReadState, line: Option<Seq<char>>) -> StepView {
    match state {
        ReadState::Start => match line {
            None => StepView::End,
            Some(s) => if trim(s).len() == 0 {
                StepView::Again(ReadState::Start)
            } else if starts_with(trim_start(s), "{"@) || starts_with(trim_start(s), "["@)
                || !contains(s, ":"@) {
                StepView::Message { text: s, mode: TransportMode::Line, bytes: byte_len(s) }
            } else {
                StepView::Again(
                    ReadState::Headers { length: header_length(s), bytes: byte_len(s) as usize },
                )
            },
        },
        ReadState::Headers { length, bytes } => match line {
            None => StepView::Failed("Unexpected EOF while reading MCP framed headers"@),
            Some(s) => {
                let total = capped_sum(bytes as nat, byte_len(s)) as usize;
                if s == "\n"@ || s == "\r\n"@ {
                    match length {
                        Some(n) => StepView::Body { length: n, header_bytes: total },
                        None => StepView::Failed("Missing Content-Length header in MCP frame"@),
                    }
                } else {
                    StepView::Again(
                        ReadState::Headers {
                            length: match length {
                                Some(n) => Some(n),
                                None => header_length(s),
                            },
                            bytes: total,
                        },
                    )
                }
            },
        },
    }
}

/// What follows when a line was read.
pub fn read_step(state: ReadState, line: Option<&str>) -> (r: ReadStep)
    ensures
        r@ == step(
            state,
            match line {
                Some(s) => Some(s@),
                None => None,
            },
        ),
{
    match state {
        ReadState::Start => match line {
            None => ReadStep::End,
            Some(s) => {
                let size: usize = s.as_bytes().len();
                if str_trim(s).as_str().is_empty() {
                    return ReadStep::Again(ReadState::Start);
                }
                let head = str_trim_start(s);
                if str_starts_with(head.as_str(), "{") || str_starts_with(head.as_str(), "[")
                    || !str_contains(s, ":") {
                    return ReadStep::Message {
                        text: s.to_owned(),
                        mode: TransportMode::Line,
                        bytes: size,
                    };
                }
                ReadStep::Again(
                    ReadState::Headers { length: parse_content_length_header(s), bytes: size },
                )
            },
        },
        ReadState::Headers { length, bytes } => match line {
            None => ReadStep::Failed("Unexpected EOF while reading MCP framed headers"),
            Some(s) => {
                let size: usize = s.as_bytes().len();
                let total: usize = bytes.saturating_add(size);
                if str_eq(s, "\n") || str_eq(s, "\r\n") {
                    return match length {
                        Some(n) => ReadStep::Body { length: n, header_bytes: total },
                        None => ReadStep::Failed("Missing Content-Length header in MCP frame"),
                    };
                }
                let known = match length {
                    Some(n) => Some(n),
                    None => parse_content_length_header(s),
                };
                ReadStep::Again(ReadState::Headers { length: known, bytes: total })
            },
        },
    }
}

/// The message that the bytes behind the headers are, and the bytes that it took
/// with its headers; none where they are not text.
pub fn read_body(body: &[u8], header_bytes: usize) -> (r: Option<(String, usize)>)
    ensures
        r is Some == valid_utf8(body@),
        r matches Some((text, bytes)) ==> text@ == decode_utf8(body@) && bytes == capped_sum(
            header_bytes as nat,
            body@.len(),
        ),
{
    match text_from_utf8(body) {
        Some(text) => {
            proof {
                encode_utf8_decode_utf8(text@);
            }
            let size: usize = body.len();
            Some((text, header_bytes.saturating_add(size)))
        },
        None => None,
    }
}

/// A message as it is written.
pub open spec fn written(out: Seq<char>, mode: TransportMode) -> Seq<char> {
    match mode {
        TransportMode::Framed => length_line(out) + "\r\n"@ + out,
        TransportMode::Line => out + "\n"@,
    }
}

/// The header that gives the length of a message.
pub open spec fn length_line(out: Seq<char>) -> Seq<char> {
    "Content-Length: "@ + decimal(byte_len(out)) + "\r\n"@
}

/// A message as it is written, and how many bytes that is.
pub fn write_response(out: &str, mode: TransportMode) -> (r: (String, usize))
    ensures
        r.0@ == written(out@, mode),
        r.1 == byte_len(r.0@),
{
    let mut text: String = match mode {
        TransportMode::Framed => {
            let mut head = "Content-Length: ".to_owned();
            head.append(usize_decimal(out.as_bytes().len()).as_str());
            head.append("\r\n");
            head.append("\r\n");
            head.append(out);
            head
        },
        TransportMode::Line => {
            let mut line = out.to_owned();
            line.append("\n");
            line
        },
    };
    let size: usize = text.as_str().as_bytes().len();
    (text, size)
}

/// White space at the front of a text that begins with none is nothing.
proof fn lemma_trim_front(s: Seq<char>)
    requires
        s.len() == 0 || !is_whitespace(s[0]),
    ensures
        trim_start(s) == s,
{
}

/// White space behind a text is cut off.
proof fn lemma_trim_back(s: Seq<char>, tail: Seq<char>)
    requires
        s.len() > 0,
        !is_whitespace(s.last()),
        forall|i: int| 0 <= i < tail.len() ==> is_whitespace(#[trigger] tail[i]),
    ensures
        trim_end(s + tail) == s,
    decreases tail.len(),
{
    if tail.len() == 0 {
        assert(s + tail =~= s);
    } else {
        assert((s + tail).drop_last() =~= s + tail.drop_last());
        assert((s + tail).last() == tail.last());
        assert(tail.last() == tail[tail.len() - 1]);
        lemma_trim_back(s, tail.drop_last());
    }
}

/// The header of a message gives its length, and is one line.
proof fn lemma_length_line(out: Seq<char>)
    requires
        byte_len(out) <= usize::MAX,
    ensures
        is_one_line(length_line(out)),
        step(ReadState::Start, Some(length_line(out))) == StepView::Again(
            ReadState::Headers {
                length: Some(byte_len(out) as usize),
                bytes: byte_len(length_line(out)) as usize,
            },
        ),
{
    reveal_strlit(":");
    reveal_strlit("{");
    reveal_strlit("[");
    reveal_strlit("Content-Length: ");
    reveal_strlit("content-length");
    reveal_strlit("\r\n");
    let n = byte_len(out);
    let line = length_line(out);
    let digits = decimal(n);
    lemma_value_decimal(n);
    assert(is_digit(digits[0]));
    assert(is_digit(digits[digits.len() - 1]));
    assert forall|i: int| 0 <= i < line.len() - 1 implies #[trigger] line[i] != '\n' by {
        if 16 <= i < 16 + digits.len() {
            assert(line[i] == digits[i - 16]);
        }
    }
    lemma_trim_front(line);
    lemma_trim_back("Content-Length: "@ + digits, "\r\n"@);
    assert(trim(line).len() > 0);
    assert(occurs_at(line, ":"@, 14)) by {
        assert(line.subrange(14, 15) =~= ":"@);
    }
    assert(find_from(line, ":"@, 0) == Some(14int)) by {
        lemma_find_from(line, ":"@, 0);
        assert forall|j: int| 0 <= j < 14 implies !#[trigger] occurs_at(line, ":"@, j) by {
            assert(line.subrange(j, j + 1)[0] == "Content-Length: "@[j]);
            assert(":"@[0] == ':');
        }
    }
    assert(contains(line, ":"@));
    let name = line.take(14);
    lemma_trim_front(name);
    assert(!is_whitespace(name.last()));
    assert(trim(name) == name);
    assert(ascii_lower(name) =~= ascii_lower("content-length"@));
    let rest = line.skip(15);
    assert(rest.skip(1) =~= digits + "\r\n"@);
    lemma_trim_front(digits + "\r\n"@);
    assert(trim_start(rest) == digits + "\r\n"@);
    lemma_trim_back(digits, "\r\n"@);
    assert(trim(rest) == digits);
    assert(digits_of(digits) == digits);
}

/// A framed message is read back: it is the line of its length, an empty line, and
/// so many bytes, which are its text.
pub proof fn law_framed_read_back(out: Seq<char>)
    requires
        byte_len(out) <= usize::MAX,
    ensures
        written(out, TransportMode::Framed) == length_line(out) + "\r\n"@ + out,
        is_one_line(length_line(out)),
        is_one_line("\r\n"@),
        ({
            let headers = ReadState::Headers {
                length: Some(byte_len(out) as usize),
                bytes: byte_len(length_line(out)) as usize,
            };
            &&& step(ReadState::Start, Some(length_line(out))) == StepView::Again(headers)
            &&& step(headers, Some("\r\n"@)) matches StepView::Body { length, .. }
            &&& length == encode_utf8(out).len()
        }),
        valid_utf8(encode_utf8(out)),
        decode_utf8(encode_utf8(out)) == out,
{
    lemma_length_line(out);
    reveal_strlit("\r\n");
    encode_utf8_valid_utf8(out);
    encode_utf8_decode_utf8(out);
}

/// A message of JSON on a line is read back, with its line break.
pub proof fn law_line_read_back(out: Seq<char>)
    requires
        out.len() > 0,
        out[0] == '{' || out[0] == '[',
        forall|i: int| 0 <= i < out.len() ==> #[trigger] out[i] != '\n',
    ensures
        written(out, TransportMode::Line) == out + "\n"@,
        is_one_line(out + "\n"@),
        step(ReadState::Start, Some(out + "\n"@)) == (StepView::Message {
            text: out + "\n"@,
            mode: TransportMode::Line,
            bytes: byte_len(out + "\n"@),
        }),
{
    reveal_strlit("\n");
    reveal_strlit("{");
    reveal_strlit("[");
    let line = out + "\n"@;
    lemma_trim_front(line);
    assert(line.take(1) =~= seq![out[0]]);
    assert("{"@ =~= seq!['{']);
    assert("["@ =~= seq!['[']);
    lemma_trim_end_keeps(line);
}

/// A text that begins with no white space is not cut down to nothing.
proof fn lemma_trim_end_keeps(s: Seq<char>)
    requires
        s.len() > 0,
        !is_whitespace(s[0]),
    ensures
        trim_end(s).len() > 0,
    decreases s.len(),
{
    if is_whitespace(s.last()) {
        lemma_trim_end_keeps(s.drop_last());
    }
}

/// The text is one line with its line break.
pub open spec fn is_one_line(s: Seq<char>) -> bool {
    &&& s.len() > 0
    &&& s.last() == '\n'
    &&& forall|i: int| 0 <= i < s.len() - 1 ==> #[trigger] s[i] != '\n'
}

} // verus!
