//! Bytes and text: which encoding a file is in, and how text is written back.

use vstd::prelude::*;
use vstd::slice::slice_subrange;
use vstd::utf8::{decode_utf8, encode_utf8, is_ascii_chars, valid_utf8};

use crate::text::chars_of;

verus! {

/// `bytes` begins with `head`.
pub open spec fn begins_with(bytes: Seq<u8>, head: Seq<u8>) -> bool {
    head.len() <= bytes.len() && bytes.take(head.len() as int) == head
}

/// `bytes` begins with a byte order mark of UTF-8 or UTF-16.
pub open spec fn has_bom(bytes: Seq<u8>) -> bool {
    ||| begins_with(bytes, seq![0xefu8, 0xbb, 0xbf])
    ||| begins_with(bytes, seq![0xffu8, 0xfe])
    ||| begins_with(bytes, seq![0xfeu8, 0xff])
}

/// The text that `encoding_rs::UTF_16LE.decode` makes of the bytes.
pub uninterp spec fn utf16le_text(bytes: Seq<u8>) -> Seq<char>;

/// The text that `encoding_rs::UTF_16BE.decode` makes of the bytes.
pub uninterp spec fn utf16be_text(bytes: Seq<u8>) -> Seq<char>;

/// The text that `encoding_rs::WINDOWS_1252.decode` makes of the bytes.
pub uninterp spec fn windows_1252_text(bytes: Seq<u8>) -> Seq<char>;

/// The bytes that `encoding_rs::WINDOWS_1252.encode` makes of the text, and
/// whether it met a character that the encoding lacks.
pub uninterp spec fn windows_1252_bytes(s: Seq<char>) -> (Seq<u8>, bool);

/// The text that `String::from_utf8_lossy` makes of the bytes.
pub uninterp spec fn lossy_text(bytes: Seq<u8>) -> Seq<char>;

/// The code units of UTF-16 for one character.
pub open spec fn utf16_units(c: char) -> Seq<u16> {
    let n = c as u32;
    if n < 0x10000 {
        seq![n as u16]
    } else {
        seq![(0xd800 + (n - 0x10000) / 0x400) as u16, (0xdc00 + (n - 0x10000) % 0x400) as u16]
    }
}

/// The bytes of one code unit, the low one first or the high one.
pub open spec fn unit_bytes(u: u16, high_first: bool) -> Seq<u8> {
    if high_first {
        seq![(u / 256) as u8, (u % 256) as u8]
    } else {
        seq![(u % 256) as u8, (u / 256) as u8]
    }
}

/// The bytes of the code units, one after the other.
pub open spec fn units_bytes(units: Seq<u16>, high_first: bool) -> Seq<u8>
    decreases units.len(),
{
    if units.len() == 0 {
        Seq::empty()
    } else {
        units_bytes(units.drop_last(), high_first) + unit_bytes(units.last(), high_first)
    }
}

/// `s` in UTF-16, the low byte of each code unit first or the high one.
pub open spec fn utf16_bytes(s: Seq<char>, high_first: bool) -> Seq<u8>
    decreases s.len(),
{
    if s.len() == 0 {
        Seq::empty()
    } else {
        utf16_bytes(s.drop_last(), high_first) + units_bytes(utf16_units(s.last()), high_first)
    }
}

/// `s` in UTF-16, the low byte of each code unit first.
pub open spec fn utf16le_bytes(s: Seq<char>) -> Seq<u8> {
    utf16_bytes(s, false)
}

/// `s` in UTF-16, the high byte of each code unit first.
pub open spec fn utf16be_bytes(s: Seq<char>) -> Seq<u8> {
    utf16_bytes(s, true)
}

/// `encoding_rs::Encoding::decode` on `UTF_16LE`: the text is a function of
/// the bytes. Where the bytes are a text in UTF-16LE and do not begin with a
/// byte order mark, it is that text.
#[verifier::external_body]
fn decode_utf16le(bytes: &[u8]) -> (r: String)
    ensures
        r@ == utf16le_text(bytes@),
        forall|s: Seq<char>|
            bytes@ == #[trigger] utf16le_bytes(s) && !has_bom(bytes@) ==> r@ == s,
{
    encoding_rs::UTF_16LE.decode(bytes).0.into_owned()
}

/// `encoding_rs::Encoding::decode` on `UTF_16BE`: the text is a function of
/// the bytes. Where the bytes are a text in UTF-16BE and do not begin with a
/// byte order mark, it is that text.
#[verifier::external_body]
fn decode_utf16be(bytes: &[u8]) -> (r: String)
    ensures
        r@ == utf16be_text(bytes@),
        forall|s: Seq<char>|
            bytes@ == #[trigger] utf16be_bytes(s) && !has_bom(bytes@) ==> r@ == s,
{
    encoding_rs::UTF_16BE.decode(bytes).0.into_owned()
}

/// The name of the encoding that `encoding_rs` decodes bytes by that are taken
/// for windows-1252: a byte order mark at their start goes before that.
pub open spec fn sniffed_label(bytes: Seq<u8>) -> Seq<char> {
    if begins_with(bytes, seq![0xefu8, 0xbb, 0xbf]) {
        "UTF-8"@
    } else if begins_with(bytes, seq![0xffu8, 0xfe]) {
        "UTF-16LE"@
    } else if begins_with(bytes, seq![0xfeu8, 0xff]) {
        "UTF-16BE"@
    } else {
        "windows-1252"@
    }
}

/// `encoding_rs::Encoding::decode` on `WINDOWS_1252`, and the name of the
/// encoding it used: the text is a function of the bytes. Where the bytes are
/// those of a text that the encoding holds, without a byte order mark at their
/// start, it is that text.
#[verifier::external_body]
fn decode_windows_1252(bytes: &[u8]) -> (r: (String, &'static str))
    ensures
        r.0@ == windows_1252_text(bytes@),
        r.1@ == sniffed_label(bytes@),
        forall|s: Seq<char>|
            (#[trigger] windows_1252_bytes(s)) == (bytes@, false) && !has_bom(bytes@) ==> r.0@ == s,
{
    let (text, encoding, _) = encoding_rs::WINDOWS_1252.decode(bytes);
    (text.into_owned(), encoding.name())
}

/// `encoding_rs::Encoding::encode` on `WINDOWS_1252`: the bytes, and whether a
/// character could not be mapped, are a function of the text. ASCII is encoded
/// as it is.
#[verifier::external_body]
pub(crate) fn encode_in_windows_1252(content: &str) -> (r: (Vec<u8>, bool))
    ensures
        (r.0@, r.1) == windows_1252_bytes(content@),
        is_ascii_chars(content@) ==> r.0@ == encode_utf8(content@) && !r.1,
{
    let (bytes, _, unmappable) = encoding_rs::WINDOWS_1252.encode(content);
    (bytes.into_owned(), unmappable)
}

/// `std::str::from_utf8`: succeeds exactly on valid UTF-8, with the
/// text that the bytes encode.
#[verifier::external_body]
pub(crate) fn text_from_utf8(bytes: &[u8]) -> (r: Option<String>)
    ensures
        r is Some == valid_utf8(bytes@),
        r matches Some(s) ==> encode_utf8(s@) == bytes@,
{
    std::str::from_utf8(bytes).ok().map(str::to_owned)
}

/// `std::string::String::from_utf8_lossy`: a function of the bytes, which on
/// valid UTF-8 is the text that they encode.
#[verifier::external_body]
pub(crate) fn text_from_utf8_lossy(bytes: &[u8]) -> (r: String)
    ensures
        r@ == lossy_text(bytes@),
        valid_utf8(bytes@) ==> encode_utf8(r@) == bytes@,
{
    String::from_utf8_lossy(bytes).into_owned()
}

/// Whether `bytes` begins with the two bytes.
fn begins_with_two(bytes: &[u8], a: u8, b: u8) -> (r: bool)
    ensures
        r == begins_with(bytes@, seq![a, b]),
{
    let r = bytes.len() >= 2 && bytes[0] == a && bytes[1] == b;
    proof {
        if r {
            assert(bytes@.take(2) =~= seq![a, b]);
        } else if bytes@.len() >= 2 {
            assert(bytes@.take(2)[0] == bytes@[0]);
            assert(bytes@.take(2)[1] == bytes@[1]);
        }
    }
    r
}

/// The bytes begin with a byte order mark of UTF-16.
pub open spec fn utf16_marked(bytes: Seq<u8>) -> bool {
    begins_with(bytes, seq![0xffu8, 0xfe]) || begins_with(bytes, seq![0xfeu8, 0xff])
}

/// Whether the bytes begin with a byte order mark of UTF-16.
pub fn has_utf16_bom(buffer: &[u8]) -> (r: bool)
    ensures
        r == utf16_marked(buffer@),
{
    begins_with_two(buffer, 0xff, 0xfe) || begins_with_two(buffer, 0xfe, 0xff)
}

/// A file is taken to be binary where a zero byte occurs in it and no mark
/// says that it is UTF-16.
pub open spec fn looks_binary(bytes: Seq<u8>) -> bool {
    !utf16_marked(bytes) && bytes.contains(0u8)
}

/// Whether the bytes look like those of a binary file.
pub fn is_probably_binary(buffer: &[u8]) -> (r: bool)
    ensures
        r == looks_binary(buffer@),
{
    if has_utf16_bom(buffer) {
        return false;
    }
    for i in 0..buffer.len()
        invariant
            forall|j: int| 0 <= j < i ==> buffer@[j] != 0,
            !utf16_marked(buffer@),
    {
        if buffer[i] == 0 {
            assert(buffer@[i as int] == 0);
            return true;
        }
    }
    false
}

/// The text of a file and the name of the encoding it was read by: a mark of
/// UTF-16 decides, then UTF-8 if the bytes are valid, else Windows-1252.
pub open spec fn decoded(bytes: Seq<u8>) -> (Seq<char>, Seq<char>) {
    if begins_with(bytes, seq![0xffu8, 0xfe]) {
        (utf16le_text(bytes.skip(2)), "UTF-16LE"@)
    } else if begins_with(bytes, seq![0xfeu8, 0xff]) {
        (utf16be_text(bytes.skip(2)), "UTF-16BE"@)
    } else if valid_utf8(bytes) {
        (decode_utf8(bytes), "UTF-8"@)
    } else {
        (windows_1252_text(bytes), sniffed_label(bytes))
    }
}

/// The text of a file, and the name of the encoding it was read by.
pub fn decode_fuzzy(buffer: &[u8]) -> (r: (String, &'static str))
    ensures
        (r.0@, r.1@) == decoded(buffer@),
        forall|s: Seq<char>|
            buffer@ == seq![0xffu8, 0xfe] + #[trigger] utf16le_bytes(s) && !has_bom(
                utf16le_bytes(s),
            ) ==> r.0@ == s,
        forall|s: Seq<char>|
            buffer@ == seq![0xfeu8, 0xff] + #[trigger] utf16be_bytes(s) && !has_bom(
                utf16be_bytes(s),
            ) ==> r.0@ == s,
        forall|s: Seq<char>|
            (#[trigger] windows_1252_bytes(s)) == (buffer@, false) && !has_bom(buffer@)
                && !valid_utf8(buffer@) ==> r.0@ == s,
{
    if begins_with_two(buffer, 0xff, 0xfe) {
        let rest = slice_subrange(buffer, 2, buffer.len());
        assert(rest@ =~= buffer@.skip(2));
        let text = decode_utf16le(rest);
        proof {
            assert forall|s: Seq<char>|
                buffer@ == seq![0xffu8, 0xfe] + #[trigger] utf16le_bytes(s) && !has_bom(
                    utf16le_bytes(s),
                ) implies text@ == s by {
                assert(buffer@.skip(2) =~= utf16le_bytes(s));
            }
            assert forall|s: Seq<char>|
                buffer@ != seq![0xfeu8, 0xff] + #[trigger] utf16be_bytes(s) by {
                if buffer@ == seq![0xfeu8, 0xff] + utf16be_bytes(s) {
                    assert(buffer@.take(2)[0] == 0xfe);
                }
            }
        }
        return (text, "UTF-16LE");
    }
    proof {
        assert forall|s: Seq<char>| buffer@ != seq![0xffu8, 0xfe] + #[trigger] utf16le_bytes(s) by {
            if buffer@ == seq![0xffu8, 0xfe] + utf16le_bytes(s) {
                assert(buffer@.take(2) =~= seq![0xffu8, 0xfe]);
            }
        }
    }
    if begins_with_two(buffer, 0xfe, 0xff) {
        let rest = slice_subrange(buffer, 2, buffer.len());
        assert(rest@ =~= buffer@.skip(2));
        let text = decode_utf16be(rest);
        proof {
            assert forall|s: Seq<char>|
                buffer@ == seq![0xfeu8, 0xff] + #[trigger] utf16be_bytes(s) && !has_bom(
                    utf16be_bytes(s),
                ) implies text@ == s by {
                assert(buffer@.skip(2) =~= utf16be_bytes(s));
            }
        }
        return (text, "UTF-16BE");
    }
    proof {
        assert forall|s: Seq<char>| buffer@ != seq![0xfeu8, 0xff] + #[trigger] utf16be_bytes(s) by {
            if buffer@ == seq![0xfeu8, 0xff] + utf16be_bytes(s) {
                assert(buffer@.take(2) =~= seq![0xfeu8, 0xff]);
            }
        }
    }
    match text_from_utf8(buffer) {
        Some(text) => {
            proof {
                vstd::utf8::encode_utf8_decode_utf8(text@);
            }
            (text, "UTF-8")
        },
        None => decode_windows_1252(buffer),
    }
}

/// Appends one code unit.
fn push_unit(out: &mut Vec<u8>, unit: u16, high_first: bool)
    ensures
        final(out)@ == old(out)@ + unit_bytes(unit, high_first),
{
    let low: u8 = (unit % 256) as u8;
    let high: u8 = (unit / 256) as u8;
    if high_first {
        out.push(high);
        out.push(low);
    } else {
        out.push(low);
        out.push(high);
    }
    assert(out@ =~= old(out)@ + unit_bytes(unit, high_first));
}

/// Appends `content` in UTF-16.
pub fn push_utf16(out: &mut Vec<u8>, content: &str, high_first: bool)
    ensures
        final(out)@ == old(out)@ + utf16_bytes(content@, high_first),
{
    let chars = chars_of(content);
    let ghost head = out@;
    assert(chars@.take(0) =~= Seq::<char>::empty());
    assert(out@ =~= head + utf16_bytes(chars@.take(0), high_first));
    for i in 0..chars.len()
        invariant
            out@ == head + utf16_bytes(chars@.take(i as int), high_first),
    {
        let ghost before = utf16_bytes(chars@.take(i as int), high_first);
        let c: char = chars[i];
        let n: u32 = c as u32;
        assert(chars@.take(i + 1).drop_last() =~= chars@.take(i as int));
        proof {
            reveal_with_fuel(units_bytes, 3);
        }
        if n < 0x10000 {
            push_unit(out, n as u16, high_first);
            proof {
                let units = seq![n as u16];
                assert(units.drop_last() =~= Seq::<u16>::empty());
                assert(units_bytes(units, high_first) =~= unit_bytes(n as u16, high_first));
                assert(out@ =~= head + (before + units_bytes(utf16_units(c), high_first)));
            }
        } else {
            let high: u16 = (0xd800 + (n - 0x10000) / 0x400) as u16;
            let low: u16 = (0xdc00 + (n - 0x10000) % 0x400) as u16;
            push_unit(out, high, high_first);
            push_unit(out, low, high_first);
            proof {
                let units = seq![high, low];
                assert(units.drop_last() =~= seq![high]);
                assert(seq![high].drop_last() =~= Seq::<u16>::empty());
                assert(units_bytes(seq![high], high_first) =~= unit_bytes(high, high_first));
                assert(units_bytes(units, high_first) =~= unit_bytes(high, high_first)
                    + unit_bytes(low, high_first));
                assert(out@ =~= head + (before + units_bytes(utf16_units(c), high_first)));
            }
        }
    }
    assert(chars@.take(chars@.len() as int) =~= chars@);
}

/// `content` in UTF-16, the high byte of each code unit first, behind the mark
/// that says so.
pub fn encode_utf16be_with_bom(content: &str) -> (r: Vec<u8>)
    ensures
        r@ == seq![0xfeu8, 0xff] + utf16be_bytes(content@),
{
    let mut out: Vec<u8> = Vec::new();
    out.push(0xfe);
    out.push(0xff);
    assert(out@ =~= seq![0xfeu8, 0xff]);
    push_utf16(&mut out, content, true);
    out
}

/// The first byte of valid UTF-8 is not one of those that a mark of UTF-16
/// begins with.
proof fn lemma_utf8_first_byte(bytes: Seq<u8>)
    requires
        valid_utf8(bytes),
    ensures
        !utf16_marked(bytes),
{
    if bytes.len() >= 2 {
        let b = bytes[0];
        assert(vstd::utf8::valid_first_scalar(bytes));
        assert(b < 0xf8) by {
            broadcast use vstd::utf8::utf8_byte_ranges_bitwise;

        }
        assert(bytes.take(2)[0] == b);
    }
}

/// What is written in UTF-8 is read back as it was, and as UTF-8.
pub proof fn law_utf8_read_back(s: Seq<char>)
    ensures
        decoded(encode_utf8(s)) == (s, "UTF-8"@),
{
    vstd::utf8::encode_utf8_valid_utf8(s);
    vstd::utf8::encode_utf8_decode_utf8(s);
    lemma_utf8_first_byte(encode_utf8(s));
}

} // verus!
