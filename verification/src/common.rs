//! Paths that tools are given: file URIs, workspace roots, and relative paths
//! resolved against what is known of the file system.

use vstd::prelude::*;
use vstd::utf8::{encode_utf8, valid_utf8};

use crate::encoding::{lossy_text, text_from_utf8_lossy};
use crate::paths::{
    is_absolute, is_rooted, lexical_normalize, normalized, parts_of, path_parts, render,
    render_parts, part_views,
};
use crate::text::{
    ascii_lower, chars_of, opt_view, replace_all, starts_with, str_ascii_lower, str_eq, str_replace,
    str_strip_prefix, views,
};

verus! {

/// `std::time::SystemTime::now`: the seconds from the beginning of 1970, none where
/// the clock stands before that. Nothing is known of them.
#[verifier::external_body]
pub fn unix_timestamp_secs() -> (r: u64) {
    std::time::SystemTime::now().duration_since(std::time::UNIX_EPOCH).unwrap_or_default().as_secs()
}

/// The value of a hexadecimal digit.
pub open spec fn hex(byte: u8) -> Option<u8> {
    if 48 <= byte <= 57 {
        Some((byte - 48) as u8)
    } else if 97 <= byte <= 102 {
        Some((byte - 87) as u8)
    } else if 65 <= byte <= 70 {
        Some((byte - 55) as u8)
    } else {
        None
    }
}

/// The value of a hexadecimal digit.
pub fn hex_value(byte: u8) -> (r: Option<u8>)
    ensures
        r == hex(byte),
{
    if byte >= 48 && byte <= 57 {
        Some(byte - 48)
    } else if byte >= 97 && byte <= 102 {
        Some(byte - 87)
    } else if byte >= 65 && byte <= 70 {
        Some(byte - 55)
    } else {
        None
    }
}

/// A percent sign and two hexadecimal digits, at the start of `bytes`.
pub open spec fn escape_at_start(bytes: Seq<u8>) -> bool {
    bytes.len() > 2 && bytes[0] == 37 && hex(bytes[1]) is Some && hex(bytes[2]) is Some
}

/// `bytes` with each percent sign and two hexadecimal digits replaced by the
/// byte that they write.
pub open spec fn percent_decoded(bytes: Seq<u8>) -> Seq<u8>
    decreases bytes.len(),
{
    if bytes.len() == 0 {
        Seq::empty()
    } else if escape_at_start(bytes) {
        seq![(hex(bytes[1])->0 * 16 + hex(bytes[2])->0) as u8] + percent_decoded(bytes.skip(3))
    } else {
        seq![bytes[0]] + percent_decoded(bytes.skip(1))
    }
}

/// `raw` with its percent escapes decoded.
pub fn percent_decode_uri_path(raw: &str) -> (r: String)
    ensures
        r@ == lossy_text(percent_decoded(encode_utf8(raw@))),
        valid_utf8(percent_decoded(encode_utf8(raw@))) ==> encode_utf8(r@) == percent_decoded(
            encode_utf8(raw@),
        ),
{
    let bytes = raw.as_bytes();
    let mut out: Vec<u8> = Vec::new();
    let mut index: usize = 0;
    assert(bytes@.skip(0) =~= bytes@);
    while index < bytes.len()
        invariant
            index <= bytes@.len(),
            bytes@ == encode_utf8(raw@),
            percent_decoded(bytes@) == out@ + percent_decoded(bytes@.skip(index as int)),
        decreases bytes@.len() - index,
    {
        let ghost rest = bytes@.skip(index as int);
        let ghost before = out@;
        if bytes[index] == 37 && bytes.len() - index > 2 {
            let high = hex_value(bytes[index + 1]);
            let low = hex_value(bytes[index + 2]);
            if let Some(h) = high {
                if let Some(l) = low {
                    assert(h <= 15 && l <= 15);
                    out.push(h * 16 + l);
                    assert(escape_at_start(rest));
                    assert(rest.skip(3) =~= bytes@.skip(index + 3));
                    assert(out@ + percent_decoded(rest.skip(3)) =~= before + percent_decoded(rest));
                    index += 3;
                    continue;
                }
            }
        }
        assert(!escape_at_start(rest));
        out.push(bytes[index]);
        assert(rest.skip(1) =~= bytes@.skip(index + 1));
        assert(out@ + percent_decoded(rest.skip(1)) =~= before + percent_decoded(rest));
        index += 1;
    }
    assert(out@ =~= percent_decoded(bytes@));
    text_from_utf8_lossy(out.as_slice())
}

/// The text of a URI after its scheme, with percent escapes decoded.
pub open spec fn uri_text(raw: Seq<char>) -> Seq<char> {
    lossy_text(percent_decoded(encode_utf8(raw)))
}

/// What stands behind the scheme of a file URI and its slashes, where `raw` is
/// one.
pub open spec fn uri_rest(raw: Seq<char>) -> Option<Seq<char>> {
    if starts_with(raw, "file:///"@) {
        Some(raw.skip(8))
    } else if starts_with(raw, "file://"@) {
        Some(raw.skip(7))
    } else {
        None
    }
}

/// The text of a file URI is the one that its decoded bytes encode, where they
/// are valid UTF-8.
pub open spec fn uri_text_exact(raw: Seq<char>) -> bool {
    uri_rest(raw) matches Some(rest) ==> valid_utf8(percent_decoded(encode_utf8(rest)))
        ==> encode_utf8(uri_text(rest)) == percent_decoded(encode_utf8(rest))
}

/// The path that a file URI names, where `raw` is one. Behind three slashes
/// stands the path; behind two stands an absolute path, or a host and the path
/// on it.
pub open spec fn uri_path(raw: Seq<char>) -> Option<Seq<char>> {
    if starts_with(raw, "file:///"@) {
        Some(uri_text(raw.skip(8)))
    } else if starts_with(raw, "file://"@) {
        let text = uri_text(raw.skip(7));
        if text.len() > 0 && (text[0] == '/' || text[0] == '\\') {
            Some(text)
        } else {
            Some("//"@ + text)
        }
    } else {
        None
    }
}

/// The path that a file URI names, where `raw` is one.
pub fn uri_to_path(raw: &str) -> (r: Option<String>)
    ensures
        opt_view(r) == uri_path(raw@),
        uri_text_exact(raw@),
{
    proof {
        reveal_strlit("file:///");
        reveal_strlit("file://");
    }
    if let Some(rest) = str_strip_prefix(raw, "file:///") {
        return Some(percent_decode_uri_path(rest.as_str()));
    }
    if let Some(rest) = str_strip_prefix(raw, "file://") {
        let text = percent_decode_uri_path(rest.as_str());
        let chars = chars_of(text.as_str());
        if chars.len() > 0 && (chars[0] == '/' || chars[0] == '\\') {
            return Some(text);
        }
        let mut out = "//".to_owned();
        out.append(text.as_str());
        return Some(out);
    }
    None
}

/// The path that `raw` means: that of the file URI, or `raw` itself.
pub open spec fn input_path(raw: Seq<char>) -> Seq<char> {
    match uri_path(raw) {
        Some(path) => path,
        None => raw,
    }
}

/// The path that `raw` means.
pub fn path_from_input(raw: &str) -> (r: String)
    ensures
        r@ == input_path(raw@),
        uri_text_exact(raw@),
{
    match uri_to_path(raw) {
        Some(path) => path,
        None => raw.to_owned(),
    }
}

/// What is known of one path that exists: whether it is a directory, its
/// canonical form where that could be had, and which of the marker files of a
/// workspace stand in it.
pub struct PathFact {
    pub path: String,
    pub is_dir: bool,
    pub canonical: Option<String>,
    pub markers: Vec<String>,
}

/// What is known of `path`; nothing where it does not exist.
pub open spec fn lookup(facts: Seq<PathFact>, path: Seq<char>) -> Option<PathFact>
    decreases facts.len(),
{
    if facts.len() == 0 {
        None
    } else if facts[0].path@ == path {
        Some(facts[0])
    } else {
        lookup(facts.skip(1), path)
    }
}

/// What is looked up is noted under the path, and where nothing is found, nothing is.
pub proof fn law_lookup(facts: Seq<PathFact>, path: Seq<char>)
    ensures
        lookup(facts, path) matches Some(f) ==> f.path@ == path && facts.contains(f),
        lookup(facts, path) is None ==> forall|i: int|
            0 <= i < facts.len() ==> (#[trigger] facts[i]).path@ != path,
    decreases facts.len(),
{
    if facts.len() > 0 {
        let rest = facts.skip(1);
        law_lookup(rest, path);
        if let Some(f) = lookup(rest, path) {
            let i = rest.index_of(f);
            assert(facts[i + 1] == rest[i]);
            assert(facts.contains(facts[0]));
        } else {
            assert(facts.contains(facts[0]));
            assert forall|i: int| 1 <= i < facts.len() implies (#[trigger] facts[i]).path@
                == rest[i - 1].path@ by {}
            assert forall|i: int|
                0 <= i < facts.len() && lookup(facts, path) is None implies (
            #[trigger] facts[i]).path@ != path by {
                if i > 0 {
                    assert(rest[i - 1].path@ != path);
                }
            }
        }
    }
}

/// What is known of `path`.
pub fn fact_of<'a>(facts: &'a [PathFact], path: &str) -> (r: Option<&'a PathFact>)
    ensures
        lookup(facts@, path@) == (match r {
            Some(f) => Some(*f),
            None => None,
        }),
        r matches Some(f) ==> f.path@ == path@ && facts@.contains(*f),
        r is None ==> forall|i: int| 0 <= i < facts@.len() ==> (#[trigger] facts@[i]).path@ != path@,
{
    proof {
        law_lookup(facts@, path@);
    }
    let mut i: usize = 0;
    assert(facts@.skip(0) =~= facts@);
    while i < facts.len()
        invariant
            i <= facts@.len(),
            lookup(facts@, path@) == lookup(facts@.skip(i as int), path@),
        decreases facts@.len() - i,
    {
        if str_eq(facts[i].path.as_str(), path) {
            return Some(&facts[i]);
        }
        assert(facts@.skip(i as int).skip(1) =~= facts@.skip(i + 1));
        i += 1;
    }
    None
}

/// The names of the files and directories that mark the root of a workspace.
pub open spec fn is_marker(name: Seq<char>) -> bool {
    ||| name == ".git"@
    ||| name == "Cargo.toml"@
    ||| name == "package.json"@
    ||| name == "pnpm-workspace.yaml"@
    ||| name == "yarn.lock"@
    ||| name == "package-lock.json"@
    ||| name == "pyproject.toml"@
    ||| name == "requirements.txt"@
    ||| name == "go.mod"@
    ||| name == "pom.xml"@
    ||| name == "build.gradle"@
    ||| name == "settings.gradle"@
    ||| name == "WORKSPACE"@
    ||| name == "WORKSPACE.bazel"@
    ||| name == ".hg"@
    ||| name == ".svn"@
}

/// Whether a file or directory of that name marks the root of a workspace.
pub fn is_workspace_marker(name: &str) -> (r: bool)
    ensures
        r == is_marker(name@),
{
    str_eq(name, ".git") || str_eq(name, "Cargo.toml") || str_eq(name, "package.json") || str_eq(
        name,
        "pnpm-workspace.yaml",
    ) || str_eq(name, "yarn.lock") || str_eq(name, "package-lock.json") || str_eq(
        name,
        "pyproject.toml",
    ) || str_eq(name, "requirements.txt") || str_eq(name, "go.mod") || str_eq(name, "pom.xml")
        || str_eq(name, "build.gradle") || str_eq(name, "settings.gradle") || str_eq(
        name,
        "WORKSPACE",
    ) || str_eq(name, "WORKSPACE.bazel") || str_eq(name, ".hg") || str_eq(name, ".svn")
}

/// The path is a directory with a marker of a workspace in it.
pub open spec fn is_workspace_root(facts: Seq<PathFact>, path: Seq<char>) -> bool {
    match lookup(facts, path) {
        None => false,
        Some(f) => f.is_dir && exists|i: int|
            0 <= i < f.markers@.len() && is_marker(#[trigger] f.markers@[i]@),
    }
}

/// Whether the path is a directory with a marker of a workspace in it.
pub fn looks_like_workspace_root(facts: &[PathFact], path: &str) -> (r: bool)
    ensures
        r == is_workspace_root(facts@, path@),
{
    match fact_of(facts, path) {
        None => false,
        Some(f) => {
            if !f.is_dir {
                return false;
            }
            for i in 0..f.markers.len()
                invariant
                    lookup(facts@, path@) == Some(*f),
                    f.is_dir,
                    forall|j: int| 0 <= j < i ==> !is_marker(#[trigger] f.markers@[j]@),
            {
                if is_workspace_marker(f.markers[i].as_str()) {
                    assert(is_marker(f.markers@[i as int]@));
                    return true;
                }
            }
            false
        },
    }
}

/// The canonical form of a path that exists, or the path without its dots.
pub open spec fn canonical_or_normal(facts: Seq<PathFact>, path: Seq<char>) -> Seq<char> {
    match lookup(facts, path) {
        None => normalized(path),
        Some(f) => match f.canonical {
            Some(c) => c@,
            None => path,
        },
    }
}

/// The canonical form of a path that exists, or the path without its dots.
pub fn canonicalize_if_exists(facts: &[PathFact], path: &str) -> (r: String)
    ensures
        r@ == canonical_or_normal(facts@, path@),
{
    match fact_of(facts, path) {
        None => lexical_normalize(path),
        Some(f) => match &f.canonical {
            Some(c) => c.clone(),
            None => path.to_owned(),
        },
    }
}

/// The path and those above it, up to the root; for a relative path, up to the
/// empty one.
pub open spec fn ancestors_of(path: Seq<char>) -> Seq<Seq<char>> {
    let parts = parts_of(path);
    let top: int = if is_rooted(path) {
        1
    } else {
        0
    };
    Seq::new((parts.len() - top + 1) as nat, |k: int| render(parts.take(parts.len() - k)))
}

/// The path and those above it.
pub fn ancestors(path: &str) -> (r: Vec<String>)
    ensures
        views(r@) == ancestors_of(path@),
{
    let mut parts = path_parts(path);
    let ghost all = parts_of(path@);
    let top: usize = if is_absolute(path) {
        1
    } else {
        0
    };
    let mut out: Vec<String> = Vec::new();
    let total: usize = parts.len();
    assert(part_views(parts@).len() == parts@.len());
    assert(all.len() == total);
    assert(all.take(total as int) =~= all);
    while parts.len() > top
        invariant
            all == parts_of(path@),
            all.len() == total,
            top <= parts@.len() <= total,
            part_views(parts@) == all.take(parts@.len() as int),
            out@.len() == total - parts@.len(),
            forall|k: int|
                0 <= k < out@.len() ==> (#[trigger] out@[k])@ == render(all.take(total - k)),
        decreases parts@.len(),
    {
        out.push(render_parts(parts.as_slice()));
        let ghost before = parts@;
        let _last = parts.pop();
        assert(part_views(parts@) =~= part_views(before).take(parts@.len() as int));
        assert(all.take(before.len() as int).take(parts@.len() as int) =~= all.take(
            parts@.len() as int,
        ));
    }
    out.push(render_parts(parts.as_slice()));
    assert(views(out@) =~= ancestors_of(path@));
    out
}

/// The first of the paths from position `from` on that is the root of a
/// workspace.
pub open spec fn first_root(
    facts: Seq<PathFact>,
    chain: Seq<Seq<char>>,
    from: int,
) -> Option<Seq<char>>
    decreases chain.len() - from,
{
    if from < 0 || from >= chain.len() {
        None
    } else if is_workspace_root(facts, chain[from]) {
        Some(chain[from])
    } else {
        first_root(facts, chain, from + 1)
    }
}

/// The root that is found is the first on the way up that is one.
pub proof fn law_first_root(facts: Seq<PathFact>, chain: Seq<Seq<char>>, from: int)
    requires
        0 <= from,
    ensures
        first_root(facts, chain, from) matches Some(root) ==> exists|k: int|
            from <= k < chain.len() && #[trigger] chain[k] == root && is_workspace_root(
                facts,
                root,
            ) && forall|j: int|
                from <= j < k ==> !is_workspace_root(facts, #[trigger] chain[j]),
        first_root(facts, chain, from) is None ==> forall|j: int|
            from <= j < chain.len() ==> !is_workspace_root(facts, #[trigger] chain[j]),
    decreases chain.len() - from,
{
    if from < chain.len() {
        law_first_root(facts, chain, from + 1);
        if is_workspace_root(facts, chain[from]) {
            assert(chain[from] == chain[from]);
        } else if let Some(root) = first_root(facts, chain, from + 1) {
            let k = choose|k: int|
                from + 1 <= k < chain.len() && #[trigger] chain[k] == root && is_workspace_root(
                    facts,
                    root,
                ) && forall|j: int|
                    from + 1 <= j < k ==> !is_workspace_root(facts, #[trigger] chain[j]);
            assert forall|j: int| from <= j < k implies !is_workspace_root(
                facts,
                #[trigger] chain[j],
            ) by {}
            assert(chain[k] == root);
        }
    }
}

/// The first of the paths from position `from` on that is the root of a
/// workspace.
fn first_workspace_root(facts: &[PathFact], chain: &[String], from: usize) -> (r: Option<String>)
    ensures
        opt_view(r) == first_root(facts@, views(chain@), from as int),
{
    let mut i: usize = from;
    while i < chain.len()
        invariant
            first_root(facts@, views(chain@), from as int) == first_root(
                facts@,
                views(chain@),
                i as int,
            ),
        decreases chain@.len() - i,
    {
        assert(views(chain@)[i as int] == chain@[i as int]@);
        if looks_like_workspace_root(facts, chain[i].as_str()) {
            return Some(chain[i].clone());
        }
        i += 1;
    }
    None
}

/// The path is a directory.
pub open spec fn is_directory(facts: Seq<PathFact>, path: Seq<char>) -> bool {
    match lookup(facts, path) {
        Some(f) => f.is_dir,
        None => false,
    }
}

/// Whether the path is a directory.
pub fn is_known_directory(facts: &[PathFact], path: &str) -> (r: bool)
    ensures
        r == is_directory(facts@, path@),
{
    match fact_of(facts, path) {
        Some(f) => f.is_dir,
        None => false,
    }
}

/// The nearest workspace root at or above the path: a file is looked for from
/// its directory on.
pub open spec fn nearest_root(facts: Seq<PathFact>, start: Seq<char>) -> Option<Seq<char>> {
    first_root(
        facts,
        ancestors_of(start),
        if is_directory(facts, start) {
            0
        } else {
            1
        },
    )
}

/// The nearest workspace root at or above the path.
pub fn nearest_workspace_root(facts: &[PathFact], start: &str) -> (r: Option<String>)
    ensures
        opt_view(r) == nearest_root(facts@, start@),
        r matches Some(root) ==> is_workspace_root(facts@, root@) && ancestors_of(start@).contains(
            root@,
        ),
        r is None ==> forall|j: int|
            1 <= j < ancestors_of(start@).len() ==> !is_workspace_root(
                facts@,
                #[trigger] ancestors_of(start@)[j],
            ),
        is_directory(facts@, start@) && ancestors_of(start@).len() > 0 && is_workspace_root(
            facts@,
            ancestors_of(start@)[0],
        ) ==> (r matches Some(root) && root@ == ancestors_of(start@)[0]),
{
    proof {
        law_first_root(facts@, ancestors_of(start@), 0);
        law_first_root(facts@, ancestors_of(start@), 1);
    }
    let chain = ancestors(start);
    let from: usize = if is_known_directory(facts, start) {
        0
    } else {
        1
    };
    first_workspace_root(facts, chain.as_slice(), from)
}

/// The nearest workspace root at or above the path, in its canonical form.
pub open spec fn discovered_root(facts: Seq<PathFact>, start: Seq<char>) -> Option<Seq<char>> {
    match nearest_root(facts, start) {
        Some(root) => Some(canonical_or_normal(facts, root)),
        None => None,
    }
}

/// The nearest workspace root at or above the path, in its canonical form.
pub fn discover_workspace_root(facts: &[PathFact], start: &str) -> (r: Option<String>)
    ensures
        opt_view(r) == discovered_root(facts@, start@),
{
    match nearest_workspace_root(facts, start) {
        Some(root) => Some(canonicalize_if_exists(facts, root.as_str())),
        None => None,
    }
}

/// The root that tools work from, and what decided on it: the workspace whose
/// index is active, else the workspace of the current directory, else that
/// directory.
pub open spec fn preferred_root(
    facts: Seq<PathFact>,
    active: Option<Seq<char>>,
    current: Option<Seq<char>>,
) -> Option<(Seq<char>, Seq<char>)> {
    let indexed = match active {
        Some(root) => Some(canonical_or_normal(facts, root)),
        None => None,
    };
    if indexed is Some && is_directory(facts, indexed->0) {
        Some((indexed->0, "active_index_workspace"@))
    } else {
        match current {
            None => None,
            Some(cwd) => match discovered_root(facts, cwd) {
                Some(root) => Some((root, "workspace_root_discovered"@)),
                None => Some((canonical_or_normal(facts, cwd), "current_dir"@)),
            },
        }
    }
}

/// The root that tools work from, and what decided on it.
pub fn preferred_workspace_root(
    facts: &[PathFact],
    active: &Option<String>,
    current: &Option<String>,
) -> (r: Option<(String, &'static str)>)
    ensures
        preferred_root(facts@, opt_view(*active), opt_view(*current)) == (match r {
            Some((root, source)) => Some((root@, source@)),
            None => None,
        }),
{
    if let Some(raw) = active {
        let root = canonicalize_if_exists(facts, raw.as_str());
        if is_known_directory(facts, root.as_str()) {
            return Some((root, "active_index_workspace"));
        }
    }
    match current {
        None => None,
        Some(cwd) => match discover_workspace_root(facts, cwd.as_str()) {
            Some(root) => Some((root, "workspace_root_discovered")),
            None => Some((canonicalize_if_exists(facts, cwd.as_str()), "current_dir")),
        },
    }
}

/// The root that tools work from; the current directory where none is known.
pub fn default_tool_root(
    facts: &[PathFact],
    active: &Option<String>,
    current: &Option<String>,
) -> (r: String)
    ensures
        r@ == (match preferred_root(facts@, opt_view(*active), opt_view(*current)) {
            Some((root, _source)) => root,
            None => "."@,
        }),
{
    match preferred_workspace_root(facts, active, current) {
        Some((root, _source)) => root,
        None => ".".to_owned(),
    }
}

/// The key by which two paths are the same: with slashes for backslashes, and
/// on a file system that ignores case, in lower case.
pub open spec fn path_key(path: Seq<char>, ignore_case: bool) -> Seq<char> {
    let slashes = replace_all(path, "\\"@, "/"@);
    if ignore_case {
        ascii_lower(slashes)
    } else {
        slashes
    }
}

/// The key by which two paths are the same.
pub fn normalize_path_key(path: &str, ignore_case: bool) -> (r: String)
    ensures
        r@ == path_key(path@, ignore_case),
{
    proof {
        reveal_strlit("\\");
    }
    let slashes = str_replace(path, "\\", "/");
    if ignore_case {
        str_ascii_lower(slashes.as_str())
    } else {
        slashes
    }
}

/// A path with the same key is among `paths`.
pub open spec fn holds_key(paths: Seq<Seq<char>>, path: Seq<char>, ignore_case: bool) -> bool {
    exists|i: int|
        0 <= i < paths.len() && path_key(#[trigger] paths[i], ignore_case) == path_key(
            path,
            ignore_case,
        )
}

/// `paths` with `path` at the end, unless one with the same key is there.
pub open spec fn with_path(
    paths: Seq<Seq<char>>,
    path: Seq<char>,
    ignore_case: bool,
) -> Seq<Seq<char>> {
    if holds_key(paths, path, ignore_case) {
        paths
    } else {
        paths.push(path)
    }
}

/// No two of the paths have the same key.
pub open spec fn keys_distinct(paths: Seq<Seq<char>>, ignore_case: bool) -> bool {
    forall|i: int, j: int|
        0 <= i < j < paths.len() ==> path_key(#[trigger] paths[i], ignore_case) != path_key(
            #[trigger] paths[j],
            ignore_case,
        )
}

/// Adding a path keeps the keys distinct.
pub proof fn law_with_path_distinct(paths: Seq<Seq<char>>, path: Seq<char>, ignore_case: bool)
    requires
        keys_distinct(paths, ignore_case),
    ensures
        keys_distinct(with_path(paths, path, ignore_case), ignore_case),
        holds_key(with_path(paths, path, ignore_case), path, ignore_case),
{
    let out = with_path(paths, path, ignore_case);
    if !holds_key(paths, path, ignore_case) {
        assert(out[paths.len() as int] == path);
        assert forall|i: int, j: int| 0 <= i < j < out.len() implies path_key(
            #[trigger] out[i],
            ignore_case,
        ) != path_key(#[trigger] out[j], ignore_case) by {
            assert(out[i] == paths[i]);
            if j < paths.len() {
                assert(out[j] == paths[j]);
            }
        }
    }
}

/// Adds `candidate` to `paths`, unless one with the same key is there.
pub fn push_unique_path(paths: &mut Vec<String>, candidate: String, ignore_case: bool)
    ensures
        views(final(paths)@) == with_path(views(old(paths)@), candidate@, ignore_case),
        views(old(paths)@).is_prefix_of(views(final(paths)@)),
        final(paths)@.len() == old(paths)@.len() || (final(paths)@.len() == old(paths)@.len() + 1
            && final(paths)@.last()@ == candidate@),
        final(paths)@.len() > old(paths)@.len() <==> forall|i: int|
            0 <= i < old(paths)@.len() ==> path_key((#[trigger] old(paths)@[i])@, ignore_case)
                != path_key(candidate@, ignore_case),
{
    let key = normalize_path_key(candidate.as_str(), ignore_case);
    let ghost all = views(paths@);
    for i in 0..paths.len()
        invariant
            all == views(paths@),
            paths@ == old(paths)@,
            key@ == path_key(candidate@, ignore_case),
            forall|j: int|
                0 <= j < i ==> path_key(#[trigger] all[j], ignore_case) != path_key(
                    candidate@,
                    ignore_case,
                ),
    {
        let other = normalize_path_key(paths[i].as_str(), ignore_case);
        assert(all[i as int] == paths@[i as int]@);
        if other == key {
            assert(holds_key(all, candidate@, ignore_case));
            assert(views(paths@) =~= views(paths@).take(paths@.len() as int));
            assert(path_key(old(paths)@[i as int]@, ignore_case) == path_key(
                candidate@,
                ignore_case,
            ));
            return ;
        }
    }
    let ghost kept = paths@;
    paths.push(candidate);
    assert(views(paths@) =~= all.push(candidate@));
    assert(all =~= views(paths@).take(all.len() as int));
    assert forall|i: int| 0 <= i < kept.len() implies path_key(
        (#[trigger] old(paths)@[i])@,
        ignore_case,
    ) != path_key(candidate@, ignore_case) by {
        assert(all[i] == kept[i]@);
    }
}

/// The number of components of the nearest path at or above `path` that
/// exists, going by `chain` from position `from` on; none where none exists.
pub open spec fn existing_depth(
    facts: Seq<PathFact>,
    path: Seq<char>,
    from: int,
) -> nat
    decreases ancestors_of(path).len() - from,
{
    if from < 0 || from >= ancestors_of(path).len() {
        0
    } else if lookup(facts, ancestors_of(path)[from]) is Some {
        (parts_of(path).len() - from) as nat
    } else {
        existing_depth(facts, path, from + 1)
    }
}

/// The number of components of the nearest path at or above `path` that
/// exists.
pub fn existing_ancestor_depth(facts: &[PathFact], path: &str) -> (r: usize)
    ensures
        r == existing_depth(facts@, path@, 0),
{
    let chain = ancestors(path);
    let parts = path_parts(path);
    assert(part_views(parts@).len() == parts@.len());
    let mut i: usize = 0;
    while i < chain.len()
        invariant
            views(chain@) == ancestors_of(path@),
            parts@.len() == parts_of(path@).len(),
            existing_depth(facts@, path@, 0) == existing_depth(facts@, path@, i as int),
        decreases chain@.len() - i,
    {
        assert(views(chain@)[i as int] == chain@[i as int]@);
        if fact_of(facts, chain[i].as_str()).is_some() {
            return parts.len() - i;
        }
        i += 1;
    }
    0
}

/// The relative path `rel` taken from `root`.
pub open spec fn joined(root: Seq<char>, rel: Seq<char>) -> Seq<char> {
    if is_rooted(rel) || root.len() == 0 {
        rel
    } else if root.last() == '/' {
        root + rel
    } else {
        root + "/"@ + rel
    }
}

/// The relative path `rel` taken from `root`.
pub fn join_path(root: &str, rel: &str) -> (r: String)
    ensures
        r@ == joined(root@, rel@),
        rel@.len() > 0 && rel@[0] == '/' ==> r@ == rel@,
        root@.len() > 0 && !(rel@.len() > 0 && rel@[0] == '/') ==> root@.is_prefix_of(r@)
            && r@.skip(r@.len() - rel@.len()) == rel@ && (r@.len() - rel@.len() == root@.len() || (
        r@.len() - rel@.len() == root@.len() + 1 && r@[root@.len() as int] == '/')) && r@[r@.len()
            - rel@.len() - 1] == '/',
{
    proof {
        reveal_strlit("/");
        if root@.len() > 0 && !is_rooted(rel@) {
            let whole = joined(root@, rel@);
            assert(root@ =~= whole.take(root@.len() as int));
            assert(whole.skip(whole.len() - rel@.len()) =~= rel@);
        }
    }
    let base = chars_of(root);
    if is_absolute(rel) || base.len() == 0 {
        return rel.to_owned();
    }
    let mut out = root.to_owned();
    if base[base.len() - 1] != '/' {
        out.append("/");
    }
    out.append(rel);
    out
}

/// The position of the root below which most of `rel` exists, the last of
/// those where several are equal.
pub open spec fn best_root(
    facts: Seq<PathFact>,
    roots: Seq<Seq<char>>,
    rel: Seq<char>,
) -> int
    decreases roots.len(),
{
    if roots.len() <= 1 {
        0
    } else {
        let before = best_root(facts, roots.drop_last(), rel);
        if existing_depth(facts, joined(roots.last(), rel), 0) >= existing_depth(
            facts,
            joined(roots[before], rel),
            0,
        ) {
            roots.len() - 1
        } else {
            before
        }
    }
}

/// The relative path taken from the root below which most of it exists; as it
/// is where there is no root.
pub open spec fn resolved_relative(
    facts: Seq<PathFact>,
    roots: Seq<Seq<char>>,
    rel: Seq<char>,
) -> Seq<char> {
    if roots.len() == 0 {
        rel
    } else {
        joined(roots[best_root(facts, roots, rel)], rel)
    }
}

/// The position of the best root is that of a root.
proof fn lemma_best_root(facts: Seq<PathFact>, roots: Seq<Seq<char>>, rel: Seq<char>)
    requires
        roots.len() > 0,
    ensures
        0 <= best_root(facts, roots, rel) < roots.len(),
    decreases roots.len(),
{
    if roots.len() > 1 {
        lemma_best_root(facts, roots.drop_last(), rel);
    }
}

/// No root has more of the path below it than the one that is taken.
pub proof fn law_best_root_deepest(
    facts: Seq<PathFact>,
    roots: Seq<Seq<char>>,
    rel: Seq<char>,
    i: int,
)
    requires
        0 <= i < roots.len(),
    ensures
        0 <= best_root(facts, roots, rel) < roots.len(),
        existing_depth(facts, joined(roots[i], rel), 0) <= existing_depth(
            facts,
            joined(roots[best_root(facts, roots, rel)], rel),
            0,
        ),
    decreases roots.len(),
{
    lemma_best_root(facts, roots, rel);
    if roots.len() > 1 {
        let init = roots.drop_last();
        lemma_best_root(facts, init, rel);
        let before = best_root(facts, init, rel);
        assert(roots[before] == init[before]);
        if i < roots.len() - 1 {
            law_best_root_deepest(facts, init, rel, i);
            assert(roots[i] == init[i]);
        }
    }
}

/// The relative path taken from the root below which most of it exists.
pub fn resolve_relative_tool_path(
    facts: &[PathFact],
    roots: &[String],
    path: &str,
) -> (r: String)
    ensures
        r@ == resolved_relative(facts@, views(roots@), path@),
{
    if roots.len() == 0 {
        return path.to_owned();
    }
    let ghost all = views(roots@);
    let mut best: usize = 0;
    let mut best_depth: usize = existing_ancestor_depth(
        facts,
        join_path(roots[0].as_str(), path).as_str(),
    );
    assert(all[0] == roots@[0]@);
    for i in 1..roots.len()
        invariant
            roots@.len() > 0,
            all == views(roots@),
            best < i,
            best == best_root(facts@, all.take(i as int), path@),
            best_depth == existing_depth(facts@, joined(all[best as int], path@), 0),
    {
        let depth: usize = existing_ancestor_depth(
            facts,
            join_path(roots[i].as_str(), path).as_str(),
        );
        assert(all[i as int] == roots@[i as int]@);
        assert(all.take(i + 1).drop_last() =~= all.take(i as int));
        assert(all.take(i + 1)[best as int] == all[best as int]);
        if depth >= best_depth {
            best = i;
            best_depth = depth;
        }
    }
    assert(all.take(all.len() as int) =~= all);
    join_path(roots[best].as_str(), path)
}

/// The roots that a relative path is tried from: the preferred one, each
/// indexed workspace and the directory above it, the workspace of the current
/// directory, and that directory; each only once.
pub fn tool_roots(
    facts: &[PathFact],
    active: &Option<String>,
    runtimes: &[String],
    current: &Option<String>,
    ignore_case: bool,
) -> (r: Vec<String>)
    ensures
        views(r@) == candidate_roots(
            facts@,
            opt_view(*active),
            views(runtimes@),
            opt_view(*current),
            ignore_case,
        ),
{
    let mut roots: Vec<String> = Vec::new();
    assert(views(roots@) =~= Seq::<Seq<char>>::empty());
    if let Some((root, _source)) = preferred_workspace_root(facts, active, current) {
        push_unique_path(&mut roots, root, ignore_case);
    }
    let ghost first = views(roots@);
    assert(views(runtimes@).take(0) =~= Seq::<Seq<char>>::empty());
    for i in 0..runtimes.len()
        invariant
            views(roots@) == with_runtimes(
                facts@,
                first,
                views(runtimes@).take(i as int),
                ignore_case,
            ),
    {
        assert(views(runtimes@).take(i + 1).drop_last() =~= views(runtimes@).take(i as int));
        assert(views(runtimes@).take(i + 1).last() == runtimes@[i as int]@);
        let root = canonicalize_if_exists(facts, runtimes[i].as_str());
        push_unique_path(&mut roots, root.clone(), ignore_case);
        if let Some(parent) = crate::paths::parent_path(root.as_str()) {
            push_unique_path(&mut roots, parent, ignore_case);
        }
    }
    assert(views(runtimes@).take(runtimes@.len() as int) =~= views(runtimes@));
    if let Some(cwd) = current {
        if let Some(root) = discover_workspace_root(facts, cwd.as_str()) {
            push_unique_path(&mut roots, root, ignore_case);
        }
        push_unique_path(&mut roots, canonicalize_if_exists(facts, cwd.as_str()), ignore_case);
    }
    roots
}

/// `roots` with each of the workspaces and the directory above it.
pub open spec fn with_runtimes(
    facts: Seq<PathFact>,
    roots: Seq<Seq<char>>,
    runtimes: Seq<Seq<char>>,
    ignore_case: bool,
) -> Seq<Seq<char>>
    decreases runtimes.len(),
{
    if runtimes.len() == 0 {
        roots
    } else {
        let before = with_runtimes(facts, roots, runtimes.drop_last(), ignore_case);
        let root = canonical_or_normal(facts, runtimes.last());
        let own = with_path(before, root, ignore_case);
        match crate::paths::parent_of(root) {
            Some(parent) => with_path(own, parent, ignore_case),
            None => own,
        }
    }
}

/// The roots that a relative path is tried from.
pub open spec fn candidate_roots(
    facts: Seq<PathFact>,
    active: Option<Seq<char>>,
    runtimes: Seq<Seq<char>>,
    current: Option<Seq<char>>,
    ignore_case: bool,
) -> Seq<Seq<char>> {
    let none = Seq::<Seq<char>>::empty();
    let first = match preferred_root(facts, active, current) {
        Some((root, _source)) => with_path(none, root, ignore_case),
        None => none,
    };
    let indexed = with_runtimes(facts, first, runtimes, ignore_case);
    match current {
        None => indexed,
        Some(cwd) => {
            let found = match discovered_root(facts, cwd) {
                Some(root) => with_path(indexed, root, ignore_case),
                None => indexed,
            };
            with_path(found, canonical_or_normal(facts, cwd), ignore_case)
        },
    }
}

/// The path that the argument of a tool means: as given where it is absolute,
/// else taken from the root below which most of it exists.
pub open spec fn tool_path(
    facts: Seq<PathFact>,
    roots: Seq<Seq<char>>,
    raw: Seq<char>,
) -> Seq<char> {
    let path = input_path(raw);
    if is_rooted(path) {
        canonical_or_normal(facts, path)
    } else {
        canonical_or_normal(facts, resolved_relative(facts, roots, path))
    }
}

/// The path that the argument of a tool means.
pub fn resolve_tool_path(facts: &[PathFact], roots: &[String], raw: &str) -> (r: String)
    ensures
        r@ == tool_path(facts@, views(roots@), raw@),
        is_rooted(input_path(raw@)) && (lookup(facts@, input_path(raw@)) matches Some(f)
            && f.canonical is Some) ==> r@ == lookup(facts@, input_path(raw@))->0.canonical->0@,
        is_rooted(input_path(raw@)) && lookup(facts@, input_path(raw@)) is None ==> r@
            == normalized(input_path(raw@)),
{
    let path = path_from_input(raw);
    if is_absolute(path.as_str()) {
        return canonicalize_if_exists(facts, path.as_str());
    }
    let full = resolve_relative_tool_path(facts, roots, path.as_str());
    canonicalize_if_exists(facts, full.as_str())
}

/// How many threads walk the file system: as asked for, between one and six;
/// else as many as the machine runs at once, between one and four, and two
/// where that is not known.
pub open spec fn walk_threads(asked: Option<usize>, available: Option<usize>) -> int {
    match asked {
        Some(n) => if n < 1 {
            1
        } else if n > 6 {
            6
        } else {
            n as int
        },
        None => match available {
            Some(n) => if n < 1 {
                1
            } else if n > 4 {
                4
            } else {
                n as int
            },
            None => 2,
        },
    }
}

/// How many threads walk the file system.
pub fn bounded_walk_threads(asked: Option<usize>, available: Option<usize>) -> (r: usize)
    ensures
        r == walk_threads(asked, available),
        1 <= r <= 6,
{
    match asked {
        Some(n) => if n < 1 {
            1
        } else if n > 6 {
            6
        } else {
            n
        },
        None => match available {
            Some(n) => if n < 1 {
                1
            } else if n > 4 {
                4
            } else {
                n
            },
            None => 2,
        },
    }
}

/// Bytes without a percent sign stand for themselves, and a percent sign before two
/// hexadecimal digits stands, with them, for the byte of their value.
pub proof fn law_percent_decoded(bytes: Seq<u8>)
    ensures
        !bytes.contains(37) ==> percent_decoded(bytes) == bytes,
        bytes.len() > 2 && bytes[0] == 37 && (48 <= bytes[1] <= 57) && (48 <= bytes[2] <= 57)
            ==> percent_decoded(bytes) == seq![
            ((bytes[1] - 48) * 16 + (bytes[2] - 48)) as u8,
        ] + percent_decoded(bytes.skip(3)),
    decreases bytes.len(),
{
    if bytes.len() > 0 && !bytes.contains(37) {
        let rest = bytes.skip(1);
        assert(!rest.contains(37)) by {
            if rest.contains(37) {
                let i = rest.index_of(37);
                assert(bytes[i + 1] == 37);
            }
        }
        law_percent_decoded(rest);
        assert(bytes[0] != 37);
        assert(percent_decoded(bytes) =~= bytes);
    } else if bytes.len() == 0 {
        assert(percent_decoded(bytes) =~= bytes);
    }
}

} // verus!
