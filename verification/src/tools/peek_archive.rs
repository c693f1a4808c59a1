//! Which entry of an archive is read, and what is told of the entries.

use vstd::prelude::*;

use crate::encoding::{decode_fuzzy, decoded};
use crate::paths::{extension, extension_of};
use crate::text::{
    ends_with, replace_all, str_ends_with, str_eq, str_replace, str_skip, str_starts_with, views,
};
use crate::unicode::{lowercase, to_lowercase};

verus! {

/// The largest entry that is read, in bytes.
pub const MAX_ENTRY_BYTES: usize = 10 * 1024 * 1024;

/// The path without the `./` that it begins with, however often.
pub open spec fn without_dots(path: Seq<char>) -> Seq<char>
    decreases path.len(),
{
    if path.len() >= 2 && path[0] == '.' && path[1] == '/' {
        without_dots(path.skip(2))
    } else {
        path
    }
}

/// The path of an entry as it is shown and asked for.
pub open spec fn entry_path(raw: Seq<char>) -> Seq<char> {
    without_dots(replace_all(raw, "\\"@, "/"@))
}

/// The path of an entry as it is shown and asked for.
pub fn normalize_archive_entry_path(raw: &str) -> (r: String)
    ensures
        r@ == entry_path(raw@),
{
    proof {
        reveal_strlit("\\");
        reveal_strlit("./");
    }
    let mut path = str_replace(raw, "\\", "/");
    while str_starts_with(path.as_str(), "./")
        invariant
            "./"@.len() == 2,
            "./"@[0] == '.',
            "./"@[1] == '/',
            entry_path(raw@) == without_dots(path@),
        decreases path@.len(),
    {
        assert(path@.take(2)[0] == path@[0] && path@.take(2)[1] == path@[1]);
        path = str_skip(path.as_str(), 2);
    }
    proof {
        if path@.len() >= 2 && path@[0] == '.' && path@[1] == '/' {
            assert(path@.take(2) =~= "./"@);
        }
    }
    path
}

/// How an archive is packed.
#[derive(Clone, Copy, Debug, PartialEq, Eq, Structural)]
pub enum ArchiveKind {
    Zip,
    TarGz,
    Tar,
}

/// How an archive is packed, by where its path leads and by the path that was given.
pub open spec fn kind_of_archive(path: Seq<char>, given: Seq<char>) -> Option<ArchiveKind> {
    let ext = match extension_of(path) {
        Some(e) => lowercase(e),
        None => lowercase(Seq::empty()),
    };
    if ext == "zip"@ || ext == "jar"@ || ext == "apk"@ {
        Some(ArchiveKind::Zip)
    } else if ends_with(given, ".tar.gz"@) || ends_with(given, ".tgz"@) {
        Some(ArchiveKind::TarGz)
    } else if ext == "tar"@ {
        Some(ArchiveKind::Tar)
    } else {
        None
    }
}

/// How an archive is packed.
pub fn archive_kind(path: &str, given: &str) -> (r: Result<ArchiveKind, &'static str>)
    ensures
        match kind_of_archive(path@, given@) {
            Some(kind) => r == Ok::<ArchiveKind, &'static str>(kind),
            None => r matches Err(e) && e@
                == "Unsupported archive format. Supported formats: .zip, .tar, .tar.gz"@,
        },
{
    let raw: String = match extension(path) {
        Some(e) => e,
        None => String::new(),
    };
    assert(raw@.len() == 0 ==> raw@ =~= Seq::<char>::empty());
    let ext = to_lowercase(raw.as_str());
    if str_eq(ext.as_str(), "zip") || str_eq(ext.as_str(), "jar") || str_eq(ext.as_str(), "apk") {
        Ok(ArchiveKind::Zip)
    } else if str_ends_with(given, ".tar.gz") || str_ends_with(given, ".tgz") {
        Ok(ArchiveKind::TarGz)
    } else if str_eq(ext.as_str(), "tar") {
        Ok(ArchiveKind::Tar)
    } else {
        Err("Unsupported archive format. Supported formats: .zip, .tar, .tar.gz")
    }
}

/// The position of the first of the names, from `from` on, that is this one; with
/// `shown` that is shown as this one.
pub open spec fn first_named(
    names: Seq<Seq<char>>,
    inner: Seq<char>,
    shown: bool,
    from: int,
) -> Option<int>
    decreases names.len() - from,
{
    if from < 0 || from >= names.len() {
        None
    } else if (if shown {
        entry_path(names[from])
    } else {
        names[from]
    }) == inner {
        Some(from)
    } else {
        first_named(names, inner, shown, from + 1)
    }
}

/// The entry that is read: for a zip archive the one of that very name, if there is
/// one; else the first that is shown under it.
pub open spec fn entry_of(
    kind: ArchiveKind,
    names: Seq<Seq<char>>,
    inner: Seq<char>,
) -> Option<int> {
    if kind == ArchiveKind::Zip && first_named(names, inner, false, 0) is Some {
        first_named(names, inner, false, 0)
    } else {
        first_named(names, inner, true, 0)
    }
}

/// The entry that is found is the first under the name.
pub proof fn law_first_named(names: Seq<Seq<char>>, inner: Seq<char>, shown: bool, from: int)
    requires
        0 <= from <= names.len(),
    ensures
        match first_named(names, inner, shown, from) {
            Some(k) => from <= k < names.len() && (names[k] == inner || (shown && entry_path(
                names[k],
            ) == inner)),
            None => forall|j: int|
                from <= j < names.len() ==> if shown {
                    entry_path(#[trigger] names[j]) != inner
                } else {
                    names[j] != inner
                },
        },
        first_named(names, inner, shown, from) matches Some(k) ==> shown ==> entry_path(names[k])
            == inner,
    decreases names.len() - from,
{
    if from < names.len() {
        law_first_named(names, inner, shown, from + 1);
    }
}

/// The position of the first of the names that is this one, or is shown as it.
fn find_named(names: &[String], inner: &str, shown: bool) -> (r: Option<usize>)
    ensures
        (match r {
            Some(i) => Some(i as int),
            None => None,
        }) == first_named(views(names@), inner@, shown, 0),
{
    let ghost all = views(names@);
    let mut i: usize = 0;
    while i < names.len()
        invariant
            i <= names@.len(),
            all == views(names@),
            first_named(all, inner@, shown, 0) == first_named(all, inner@, shown, i as int),
        decreases names@.len() - i,
    {
        assert(all[i as int] == names@[i as int]@);
        let fits = if shown {
            str_eq(normalize_archive_entry_path(names[i].as_str()).as_str(), inner)
        } else {
            str_eq(names[i].as_str(), inner)
        };
        if fits {
            return Some(i);
        }
        i += 1;
    }
    assert(all.len() == names@.len());
    None
}

/// The entry that is read; `inner` is the path asked for, as it is shown.
pub fn find_entry(kind: ArchiveKind, names: &[String], inner: &str) -> (r: Result<usize, String>)
    ensures
        match entry_of(kind, views(names@), inner@) {
            Some(i) => r matches Ok(found) && found == i,
            None => r matches Err(e) && e@ == "File "@ + inner@ + " not found inside archive"@,
        },
        r matches Ok(i) ==> i < names@.len() && (names@[i as int]@ == inner@ || entry_path(
            names@[i as int]@,
        ) == inner@),
        r is Err ==> forall|j: int|
            0 <= j < names@.len() ==> entry_path((#[trigger] names@[j])@) != inner@,
{
    proof {
        let all = views(names@);
        law_first_named(all, inner@, false, 0);
        law_first_named(all, inner@, true, 0);
        assert forall|j: int| 0 <= j < names@.len() implies all[j] == (#[trigger] names@[j])@ by {}
    }
    if kind == ArchiveKind::Zip {
        if let Some(i) = find_named(names, inner, false) {
            return Ok(i);
        }
    }
    match find_named(names, inner, true) {
        Some(i) => Ok(i),
        None => {
            let mut text = "File ".to_owned();
            text.append(inner);
            text.append(" not found inside archive");
            Err(text)
        },
    }
}

/// The text of an entry and its encoding; an entry that is too large is refused.
pub fn read_entry(bytes: &[u8]) -> (r: Result<(String, &'static str), &'static str>)
    ensures
        match r {
            Ok((text, encoding)) => bytes@.len() <= MAX_ENTRY_BYTES && (text@, encoding@)
                == decoded(bytes@),
            Err(e) => bytes@.len() > MAX_ENTRY_BYTES && e@ == "Inner file is too large (> 10MB)"@,
        },
{
    if bytes.len() > MAX_ENTRY_BYTES {
        return Err("Inner file is too large (> 10MB)");
    }
    Ok(decode_fuzzy(bytes))
}

/// The path of an entry as it is shown is shown as it is.
pub proof fn law_shown_once(raw: Seq<char>)
    ensures
        without_dots(entry_path(raw)) == entry_path(raw),
{
    lemma_dots_gone(replace_all(raw, "\\"@, "/"@));
}

/// Nothing is left to cut off.
proof fn lemma_dots_gone(path: Seq<char>)
    ensures
        without_dots(without_dots(path)) == without_dots(path),
    decreases path.len(),
{
    if path.len() >= 2 && path[0] == '.' && path[1] == '/' {
        lemma_dots_gone(path.skip(2));
    }
}

} // verus!
