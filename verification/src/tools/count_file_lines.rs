//! Counting the lines of a file.

use vstd::prelude::*;

use crate::encoding::{decode_fuzzy, decoded, is_probably_binary, looks_binary};
use crate::text::str_ends_with;
use crate::tools::read_file::{count_text_lines, text_lines};

verus! {

/// How many bytes at the start of a file decide whether it is binary.
pub const PREVIEW_BYTES: usize = 8192;

/// The first bytes of a file, by which it is taken for binary or text.
pub open spec fn preview(bytes: Seq<u8>) -> Seq<u8> {
    if bytes.len() <= PREVIEW_BYTES {
        bytes
    } else {
        bytes.take(PREVIEW_BYTES as int)
    }
}

/// The lines of a file that is text; nothing of one that is binary.
pub enum LineCount {
    Binary,
    Text { encoding: &'static str, line_count: usize, ends_with_newline: bool },
}

/// The lines of a file.
pub fn count_lines(buffer: &[u8]) -> (r: LineCount)
    ensures
        if looks_binary(preview(buffer@)) {
            r is Binary
        } else {
            let text = decoded(buffer@).0;
            &&& r matches LineCount::Text { encoding, line_count, ends_with_newline }
            &&& encoding@ == decoded(buffer@).1
            &&& line_count == text_lines(text).len()
            &&& ends_with_newline == crate::text::ends_with(text, "\n"@)
        },
{
    let end: usize = if buffer.len() <= PREVIEW_BYTES {
        buffer.len()
    } else {
        PREVIEW_BYTES
    };
    let head = vstd::slice::slice_subrange(buffer, 0, end);
    assert(head@ =~= preview(buffer@));
    if is_probably_binary(head) {
        return LineCount::Binary;
    }
    let (text, encoding) = decode_fuzzy(buffer);
    LineCount::Text {
        encoding,
        line_count: count_text_lines(text.as_str()),
        ends_with_newline: str_ends_with(text.as_str(), "\n"),
    }
}

} // verus!
