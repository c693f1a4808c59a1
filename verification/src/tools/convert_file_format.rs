//! Rewriting a file in another encoding, or with other line endings.

use vstd::prelude::*;
use vstd::utf8::encode_utf8;

use crate::encoding::{
    decode_fuzzy, decoded, encode_in_windows_1252, push_utf16, utf16le_bytes, windows_1252_bytes,
};
use crate::history::{
    file_snapshot, no_history, record_change, too_large_reason, HistoryState, RecordOutcome,
    MAX_TRACKED_SNAPSHOT_BYTES,
};
use crate::line_endings::{line_ending_metadata, to_crlf, to_lf, with_crlf, with_lf};
use crate::text::{ascii_upper, opt_view, str_ascii_upper, str_eq, str_trim, trim};
use crate::tools::edit_file::{arg_or, same_bytes, text_or};
use crate::unicode::{lowercase, to_lowercase};

verus! {

/// An encoding that a file can be rewritten in.
#[derive(Clone, Copy, Debug, PartialEq, Eq, Structural)]
pub enum TargetEncoding {
    Utf8,
    Utf16Le,
    Windows1252,
}

impl TargetEncoding {
    /// The name of the encoding.
    pub open spec fn name(&self) -> Seq<char> {
        match self {
            TargetEncoding::Utf8 => "UTF-8"@,
            TargetEncoding::Utf16Le => "UTF-16LE"@,
            TargetEncoding::Windows1252 => "WINDOWS-1252"@,
        }
    }

    /// The name of the encoding.
    pub fn canonical_name(&self) -> (r: &'static str)
        ensures
            r@ == self.name(),
    {
        match self {
            TargetEncoding::Utf8 => "UTF-8",
            TargetEncoding::Utf16Le => "UTF-16LE",
            TargetEncoding::Windows1252 => "WINDOWS-1252",
        }
    }
}

/// The encoding with one of the names that it goes by.
pub open spec fn encoding_named(raw: Seq<char>) -> Option<TargetEncoding> {
    let name = ascii_upper(trim(raw));
    if name == "UTF-8"@ || name == "UTF8"@ {
        Some(TargetEncoding::Utf8)
    } else if name == "UTF-16LE"@ || name == "UTF16LE"@ {
        Some(TargetEncoding::Utf16Le)
    } else if name == "WINDOWS-1252"@ || name == "CP1252"@ {
        Some(TargetEncoding::Windows1252)
    } else {
        None
    }
}

/// The words for an encoding that is not known.
pub open spec fn unsupported_words(raw: Seq<char>) -> Seq<char> {
    "Unsupported target_encoding '"@ + ascii_upper(trim(raw))
        + "'. Supported values: UTF-8, UTF-16LE, Windows-1252"@
}

/// The encoding of that name, or the words for one that is not known.
pub fn parse_target_encoding(raw: &str) -> (r: Result<TargetEncoding, String>)
    ensures
        encoding_named(raw@) == (match r {
            Ok(e) => Some(e),
            Err(_) => None,
        }),
        r matches Err(words) ==> words@ == unsupported_words(raw@),
{
    let trimmed = str_trim(raw);
    let name = str_ascii_upper(trimmed.as_str());
    if str_eq(name.as_str(), "UTF-8") || str_eq(name.as_str(), "UTF8") {
        Ok(TargetEncoding::Utf8)
    } else if str_eq(name.as_str(), "UTF-16LE") || str_eq(name.as_str(), "UTF16LE") {
        Ok(TargetEncoding::Utf16Le)
    } else if str_eq(name.as_str(), "WINDOWS-1252") || str_eq(name.as_str(), "CP1252") {
        Ok(TargetEncoding::Windows1252)
    } else {
        let mut words = "Unsupported target_encoding '".to_owned();
        words.append(name.as_str());
        words.append("'. Supported values: UTF-8, UTF-16LE, Windows-1252");
        Err(words)
    }
}

/// `content` in UTF-16, the low byte of each code unit first, behind the mark
/// that says so.
pub fn encode_utf16le_with_bom(content: &str) -> (r: Vec<u8>)
    ensures
        r@ == seq![0xffu8, 0xfe] + utf16le_bytes(content@),
{
    let mut out: Vec<u8> = Vec::new();
    out.push(0xff);
    out.push(0xfe);
    assert(out@ =~= seq![0xffu8, 0xfe]);
    push_utf16(&mut out, content, false);
    out
}

/// `content` with the line endings asked for; other names than the two that
/// are known change nothing.
pub open spec fn converted_text(content: Seq<char>, ending: Option<Seq<char>>) -> Seq<char> {
    match ending {
        Some(raw) => if lowercase(raw) == "lf"@ {
            with_lf(content)
        } else if lowercase(raw) == "crlf"@ {
            with_crlf(content)
        } else {
            content
        },
        None => content,
    }
}

/// `content` in the encoding, where that holds every character of it.
pub open spec fn converted_bytes(content: Seq<char>, target: TargetEncoding) -> Option<Seq<u8>> {
    match target {
        TargetEncoding::Utf8 => Some(encode_utf8(content)),
        TargetEncoding::Utf16Le => Some(seq![0xffu8, 0xfe] + utf16le_bytes(content)),
        TargetEncoding::Windows1252 => {
            let (bytes, unmappable) = windows_1252_bytes(content);
            if unmappable {
                None
            } else {
                Some(bytes)
            }
        },
    }
}

/// A file that is ready to be written again.
pub struct ConvertPlan {
    pub bytes: Vec<u8>,
    pub previous_encoding: &'static str,
    pub target: TargetEncoding,
    pub old_line_ending: Option<String>,
    pub line_ending: Option<String>,
    pub changed: bool,
}

/// The bytes of a file in the encoding and with the line endings asked for; or
/// the words for what cannot be converted.
pub fn plan_convert(
    buffer: &[u8],
    target_encoding: &Option<String>,
    target_line_ending: &Option<String>,
) -> (r: Result<ConvertPlan, String>)
    ensures
        ({
            let asked = arg_or(*target_encoding, "UTF-8"@);
            let text = converted_text(decoded(buffer@).0, opt_view(*target_line_ending));
            match encoding_named(asked) {
                None => r matches Err(words) && words@ == unsupported_words(asked),
                Some(target) => match converted_bytes(text, target) {
                    None => r matches Err(words) && words@
                        == "Content cannot be losslessly converted to Windows-1252"@,
                    Some(bytes) => {
                        &&& r matches Ok(plan)
                        &&& plan.bytes@ == bytes
                        &&& plan.previous_encoding@ == decoded(buffer@).1
                        &&& plan.target == target
                        &&& plan.changed == (bytes != buffer@)
                        &&& opt_view(plan.line_ending) == crate::line_endings::ending_of(text)
                        &&& opt_view(plan.old_line_ending) == crate::line_endings::ending_of(
                            decoded(buffer@).0,
                        )
                    },
                },
            }
        }),
{
    let asked = text_or(target_encoding, "UTF-8");
    let target = match parse_target_encoding(asked.as_str()) {
        Ok(target) => target,
        Err(words) => {
            return Err(words);
        },
    };
    let (old_content, previous_encoding) = decode_fuzzy(buffer);
    let old_line_ending = line_ending_metadata(old_content.as_str());
    let content: String = match target_line_ending {
        Some(raw) => {
            let ending = to_lowercase(raw.as_str());
            if str_eq(ending.as_str(), "lf") {
                to_lf(old_content.as_str())
            } else if str_eq(ending.as_str(), "crlf") {
                to_crlf(old_content.as_str())
            } else {
                old_content
            }
        },
        None => old_content,
    };
    let line_ending = line_ending_metadata(content.as_str());
    let bytes: Vec<u8> = match target {
        TargetEncoding::Utf8 => vstd::slice::slice_to_vec(content.as_str().as_bytes()),
        TargetEncoding::Utf16Le => encode_utf16le_with_bom(content.as_str()),
        TargetEncoding::Windows1252 => {
            let (bytes, unmappable) = encode_in_windows_1252(content.as_str());
            if unmappable {
                return Err("Content cannot be losslessly converted to Windows-1252".to_owned());
            }
            bytes
        },
    };
    let changed = !same_bytes(bytes.as_slice(), buffer);
    Ok(ConvertPlan { bytes, previous_encoding, target, old_line_ending, line_ending, changed })
}

/// What the history keeps of the conversion, and the words of the answer.
pub fn finish_convert(
    history: &mut HistoryState,
    path: &str,
    buffer: &[u8],
    plan: &ConvertPlan,
) -> (r: (RecordOutcome, String))
    requires
        old(history).wf(),
        old(history).next_entry_id < u64::MAX,
    ensures
        final(history).wf(),
        r.1@ == "Successfully converted file to "@ + plan.target.name(),
        r.0.recorded == (plan.changed && buffer@.len() <= MAX_TRACKED_SNAPSHOT_BYTES
            && plan.bytes@.len() <= MAX_TRACKED_SNAPSHOT_BYTES),
        !plan.changed ==> opt_view(r.0.reason) == Some("no filesystem change"@),
        plan.changed && !r.0.recorded ==> opt_view(r.0.reason) == Some(
            too_large_reason(
                if buffer@.len() > MAX_TRACKED_SNAPSHOT_BYTES {
                    buffer@.len()
                } else {
                    plan.bytes@.len()
                },
            ),
        ),
        r.0.recorded ==> r.0.reason is None,
        r.0.recorded ==> opt_view(r.0.entry_id) == Some(
            crate::history::entry_name(old(history).next_entry_id as nat),
        ) && final(history).next_entry_id == old(history).next_entry_id + 1,
        !r.0.recorded ==> *final(history) == *old(history) && r.0.entry_id is None,
{
    let mut words = "Successfully converted file to ".to_owned();
    words.append(plan.target.canonical_name());
    if !plan.changed {
        return (no_history("no filesystem change"), words);
    }
    let before = file_snapshot(
        vstd::slice::slice_to_vec(buffer),
        Some(plan.previous_encoding.to_owned()),
        plan.old_line_ending.clone(),
    );
    let after = file_snapshot(
        vstd::slice::slice_to_vec(plan.bytes.as_slice()),
        Some(plan.target.canonical_name().to_owned()),
        plan.line_ending.clone(),
    );
    let outcome = record_change(
        history,
        "convert_file_format",
        path,
        &before,
        &after,
        "convert file format",
    );
    (outcome, words)
}

/// A file that is rewritten in UTF-8 is read back as the text it was rewritten
/// to, and as UTF-8.
pub proof fn law_convert_read_back(content: Seq<char>, ending: Option<Seq<char>>)
    ensures
        converted_bytes(converted_text(content, ending), TargetEncoding::Utf8) is Some,
        decoded(converted_bytes(converted_text(content, ending), TargetEncoding::Utf8)->0) == (
            converted_text(content, ending),
            "UTF-8"@,
        ),
{
    crate::encoding::law_utf8_read_back(converted_text(content, ending));
}

/// The text stays as it is but for its line endings, and for these only where one of the
/// two is asked for.
pub proof fn law_converted_text(content: Seq<char>, ending: Option<Seq<char>>)
    ensures
        ending is None ==> converted_text(content, ending) == content,
        ending matches Some(raw) ==> lowercase(raw) != "lf"@ && lowercase(raw) != "crlf"@
            ==> converted_text(content, ending) == content,
        ending matches Some(raw) ==> lowercase(raw) == "lf"@ ==> exists|n: nat|
            crate::lines::replaces(
                content,
                seq!['\r', '\n'],
                seq!['\n'],
                converted_text(content, ending),
                n,
            ),
        ending matches Some(raw) ==> lowercase(raw) == "crlf"@ ==> forall|i: int|
            0 <= i < converted_text(content, ending).len() && #[trigger] converted_text(
                content,
                ending,
            )[i] == '\n' ==> i > 0 && converted_text(content, ending)[i - 1] == '\r',
{
    reveal_strlit("lf");
    reveal_strlit("crlf");
    assert("lf"@.len() == 2 && "crlf"@.len() == 4);
    if let Some(raw) = ending {
        let text = converted_text(content, ending);
        if lowercase(raw) == "lf"@ {
            crate::line_endings::law_only_endings_change(content);
        } else if lowercase(raw) == "crlf"@ {
            assert forall|i: int| 0 <= i < text.len() && #[trigger] text[i] == '\n' implies i > 0
                && text[i - 1] == '\r' by {
                crate::line_endings::law_crlf_everywhere(content, i);
            }
        }
    }
}

/// Each encoding is known by its name.
pub proof fn law_encoding_named(target: TargetEncoding)
    ensures
        encoding_named(target.name()) == Some(target),
{
    reveal_strlit("UTF-8");
    reveal_strlit("UTF8");
    reveal_strlit("UTF-16LE");
    reveal_strlit("UTF16LE");
    reveal_strlit("WINDOWS-1252");
    reveal_strlit("CP1252");
    let name = target.name();
    assert("UTF-8"@.len() == 5 && "UTF8"@.len() == 4);
    assert("UTF-16LE"@.len() == 8 && "UTF16LE"@.len() == 7);
    assert("WINDOWS-1252"@.len() == 12 && "CP1252"@.len() == 6);
    assert(name.len() > 0 && (name[0] == 'U' || name[0] == 'W'));
    assert(name.last() == '8' || name.last() == 'E' || name.last() == '2');
    assert(trim(name) == name) by {
        crate::text::law_trim(name);
    }
    assert(ascii_upper(name) =~= name);
}

} // verus!
