//! What of a workspace's contents is indexed.

use vstd::prelude::*;
use vstd::utf8::{encode_utf8, valid_utf8};

use crate::encoding::text_from_utf8;
use crate::indexer::path_index::{IndexedPathRecord, PathRecord};
use crate::indexer::settings::{env_u64, setting};
use crate::lines::{join, str_join};
use crate::paths::{below, normalize_display_path, parent_of, parent_path, shown_path, strip_prefix};
use crate::text::{
    ascii_lower, chars_of, contains, opt_view, replace_all, starts_with, str_ascii_lower,
    str_contains, str_eq, str_replace, str_starts_with, str_trim, trim, views,
};
use crate::tools::fuzzy_find::holds;
use crate::words::{char_is_alphanumeric, find_runs, is_alphanumeric, runs};

verus! {

/// The bytes of a file that is indexed, at most, where nothing else is said.
pub const DEFAULT_TANTIVY_MAX_FILE_BYTES: u64 = 1_048_576;

/// The bytes of a part of a workspace that are indexed, at most.
pub const DEFAULT_TANTIVY_MAX_ZONE_BYTES: u64 = 1_073_741_824;

/// The bytes of a workspace that are indexed, at most.
pub const DEFAULT_TANTIVY_MAX_WORKSPACE_BYTES: u64 = 4_294_967_296;

/// How much is indexed.
pub struct ContentPolicy {
    pub max_file_bytes: u64,
    pub max_zone_bytes: u64,
    pub max_workspace_bytes: u64,
}

impl ContentPolicy {
    /// How much is indexed, by the settings for a file, a part and a workspace.
    pub fn from_settings(
        file: &Option<String>,
        zone: &Option<String>,
        workspace: &Option<String>,
    ) -> (r: Self)
        ensures
            r.max_file_bytes == setting(opt_view(*file), DEFAULT_TANTIVY_MAX_FILE_BYTES),
            r.max_zone_bytes == setting(opt_view(*zone), DEFAULT_TANTIVY_MAX_ZONE_BYTES),
            r.max_workspace_bytes == setting(
                opt_view(*workspace),
                DEFAULT_TANTIVY_MAX_WORKSPACE_BYTES,
            ),
    {
        ContentPolicy {
            max_file_bytes: env_u64(file, DEFAULT_TANTIVY_MAX_FILE_BYTES),
            max_zone_bytes: env_u64(zone, DEFAULT_TANTIVY_MAX_ZONE_BYTES),
            max_workspace_bytes: env_u64(workspace, DEFAULT_TANTIVY_MAX_WORKSPACE_BYTES),
        }
    }
}

/// The extensions of files whose contents are indexed.
pub open spec fn content_extensions() -> Seq<Seq<char>> {
    seq![
        "cc"@,
        "h"@,
        "c"@,
        "cpp"@,
        "hpp"@,
        "rs"@,
        "ts"@,
        "tsx"@,
        "js"@,
        "jsx"@,
        "py"@,
        "gn"@,
        "gni"@,
        "md"@,
        "json"@,
        "yaml"@,
        "yml"@,
        "toml"@,
    ]
}

/// Whether the contents of files with this extension are indexed.
pub fn is_content_extension(extension: &str) -> (r: bool)
    ensures
        r == content_extensions().contains(extension@),
{
    let list: Vec<String> = vec![
        "cc".to_owned(),
        "h".to_owned(),
        "c".to_owned(),
        "cpp".to_owned(),
        "hpp".to_owned(),
        "rs".to_owned(),
        "ts".to_owned(),
        "tsx".to_owned(),
        "js".to_owned(),
        "jsx".to_owned(),
        "py".to_owned(),
        "gn".to_owned(),
        "gni".to_owned(),
        "md".to_owned(),
        "json".to_owned(),
        "yaml".to_owned(),
        "yml".to_owned(),
        "toml".to_owned(),
    ];
    assert(views(list@) =~= content_extensions());
    holds(list.as_slice(), extension)
}

/// The path, in lower case and with slashes, lies among foreign sources.
pub open spec fn is_foreign(lower: Seq<char>) -> bool {
    lower == "third_party"@ || starts_with(lower, "third_party/"@)
}

/// The path, in lower case and with slashes, lies among what was built or
/// generated.
pub open spec fn is_built(lower: Seq<char>) -> bool {
    contains(lower, "/out/"@) || starts_with(lower, "out/"@) || contains(lower, "/generated/"@)
        || contains(lower, "/gen/"@)
}

/// The contents of the file are indexed: by its size, its extension and where it
/// lies.
pub open spec fn policy_allows(
    entry: PathRecord,
    limits: ContentPolicy,
    allow_third_party: bool,
) -> bool {
    let lower = ascii_lower(replace_all(entry.relative, "\\"@, "/"@));
    &&& !entry.is_dir
    &&& entry.size <= limits.max_file_bytes
    &&& content_extensions().contains(entry.extension)
    &&& (allow_third_party || !is_foreign(lower))
    &&& !is_built(lower)
}

/// Whether the contents of a file are indexed.
pub fn content_policy_allows(
    entry: &IndexedPathRecord,
    limits: &ContentPolicy,
    allow_third_party: bool,
) -> (r: bool)
    ensures
        r == policy_allows(entry@, *limits, allow_third_party),
        r ==> !entry.is_dir && entry.size <= limits.max_file_bytes && content_extensions().contains(
            entry.extension_lower@,
        ),
        r && !allow_third_party ==> !starts_with(
            ascii_lower(replace_all(entry.relative_path@, "\\"@, "/"@)),
            "third_party/"@,
        ),
        r ==> !starts_with(
            ascii_lower(replace_all(entry.relative_path@, "\\"@, "/"@)),
            "out/"@,
        ) && !contains(
            ascii_lower(replace_all(entry.relative_path@, "\\"@, "/"@)),
            "/out/"@,
        ) && !contains(
            ascii_lower(replace_all(entry.relative_path@, "\\"@, "/"@)),
            "/generated/"@,
        ) && !contains(
            ascii_lower(replace_all(entry.relative_path@, "\\"@, "/"@)),
            "/gen/"@,
        ),
        ({
            let lower = ascii_lower(replace_all(entry.relative_path@, "\\"@, "/"@));
            !entry.is_dir && entry.size <= limits.max_file_bytes && content_extensions().contains(
                entry.extension_lower@,
            ) && !starts_with(lower, "third_party"@) && !starts_with(lower, "out/"@) && !contains(
                lower,
                "/out/"@,
            ) && !contains(lower, "/generated/"@) && !contains(lower, "/gen/"@)
        }) ==> r,
{
    proof {
        reveal_strlit("third_party");
        reveal_strlit("third_party/");
        let lower = ascii_lower(replace_all(entry.relative_path@, "\\"@, "/"@));
        if lower == "third_party"@ {
            assert(lower.subrange(0, 11) =~= "third_party"@);
        }
        if starts_with(lower, "third_party/"@) {
            assert(lower.subrange(0, 11) =~= lower.subrange(0, 12).subrange(0, 11));
            assert("third_party/"@.subrange(0, 11) =~= "third_party"@);
        }
    }
    if entry.is_dir || entry.size > limits.max_file_bytes {
        return false;
    }
    if !is_content_extension(entry.extension_lower.as_str()) {
        return false;
    }
    proof {
        reveal_strlit("\\");
    }
    let slashes = str_replace(entry.relative_path.as_str(), "\\", "/");
    let relative = str_ascii_lower(slashes.as_str());
    let relative = relative.as_str();
    if !allow_third_party && (str_eq(relative, "third_party") || str_starts_with(
        relative,
        "third_party/",
    )) {
        return false;
    }
    !(str_contains(relative, "/out/") || str_starts_with(relative, "out/") || str_contains(
        relative,
        "/generated/",
    ) || str_contains(relative, "/gen/"))
}

/// The text that is indexed of a file, given no more of its bytes than one above
/// those that are indexed: none where there are too many, where one is zero, or
/// where they are no text.
pub fn indexable_text(bytes: &[u8], max_file_bytes: u64) -> (r: String)
    ensures
        bytes@.len() > max_file_bytes || bytes@.contains(0) || !valid_utf8(bytes@) ==> r@.len()
            == 0,
        bytes@.len() <= max_file_bytes && !bytes@.contains(0) && valid_utf8(bytes@)
            ==> encode_utf8(r@) == bytes@,
{
    let none = String::new();
    if bytes.len() as u64 > max_file_bytes {
        return none;
    }
    for i in 0..bytes.len()
        invariant
            none@.len() == 0,
            forall|k: int| 0 <= k < i ==> bytes@[k] != 0,
    {
        if bytes[i] == 0 {
            assert(bytes@[i as int] == 0);
            return none;
        }
    }
    match text_from_utf8(bytes) {
        Some(text) => text,
        None => none,
    }
}

/// The words of a path, one blank between them.
pub fn path_tokens_for_tantivy(relative_path: &str) -> (r: String)
    ensures
        r@ == join(runs(relative_path@, 1), " "@),
{
    let found = find_runs(relative_path, 1);
    str_join(found.as_slice(), " ")
}

/// The character may stand in a query that the index of contents understands.
pub open spec fn is_query_char(c: char) -> bool {
    is_alphanumeric(c) || c == ' ' || c == '\t' || c == '\n' || c == '\x0c' || c == '\r' || c == '_'
        || c == '-' || c == '.' || c == '/' || c == ':'
}

/// The index of contents understands the query: it is not blank, and plain.
pub open spec fn is_plain_query(query: Seq<char>) -> bool {
    trim(query).len() > 0 && forall|i: int| 0 <= i < query.len() ==> is_query_char(
        #[trigger] query[i],
    )
}

/// Whether the index of contents understands a query.
pub fn is_tantivy_query_compatible(query: &str) -> (r: bool)
    ensures
        r == is_plain_query(query@),
{
    if str_trim(query).as_str().is_empty() {
        return false;
    }
    let chars = chars_of(query);
    for i in 0..chars.len()
        invariant
            chars@ == query@,
            forall|k: int| 0 <= k < i ==> is_query_char(#[trigger] query@[k]),
    {
        let c = chars[i];
        if !(char_is_alphanumeric(c) || c == ' ' || c == '\t' || c == '\n' || c == '\x0c' || c
            == '\r' || c == '_' || c == '-' || c == '.' || c == '/' || c == ':') {
            assert(!is_query_char(query@[i as int]));
            return false;
        }
    }
    true
}

/// The part of the workspace that is indexed as one: the directory of the path,
/// below the workspace.
pub open spec fn zone_of(root: Seq<char>, path: Seq<char>, is_file: bool) -> Seq<char> {
    let target = if is_file && parent_of(path) is Some {
        parent_of(path)->0
    } else {
        path
    };
    match below(target, root) {
        Some(rest) => shown_path(rest),
        None => Seq::empty(),
    }
}

/// The part of the workspace that is indexed as one.
pub fn content_zone_for_path(workspace_root: &str, path: &str, is_file: bool) -> (r: String)
    ensures
        r@ == zone_of(workspace_root@, path@, is_file),
{
    let mut target: String = path.to_owned();
    if is_file {
        if let Some(parent) = parent_path(path) {
            target = parent;
        }
    }
    match strip_prefix(target.as_str(), workspace_root) {
        Some(rest) => normalize_display_path(rest.as_str()),
        None => {
            let none = String::new();
            assert(none@ =~= Seq::<char>::empty());
            none
        },
    }
}

/// What is done with a path while a part of a workspace is indexed: nothing,
/// what was indexed of it is dropped, it is indexed anew, or the work ends.
#[derive(Clone, Copy, Debug, PartialEq, Eq, Structural)]
pub enum ZoneAction {
    Skip,
    Drop,
    Add,
    Stop,
}

/// How far the indexing of a part of a workspace is.
pub struct ZoneProgress {
    pub files: nat,
    pub bytes: nat,
    pub partial: bool,
}

/// The part is the workspace itself: its files are indexed without their
/// contents.
pub open spec fn is_whole(zone: Seq<char>) -> bool {
    zone.len() == 0
}

/// The part lies among foreign sources.
pub open spec fn is_foreign_zone(zone: Seq<char>) -> bool {
    is_foreign(zone)
}

/// What is done with the next path.
pub open spec fn zone_action(
    p: ZoneProgress,
    entry: PathRecord,
    limits: ContentPolicy,
    zone: Seq<char>,
) -> ZoneAction {
    let sum = if p.bytes + entry.size > u64::MAX {
        u64::MAX as int
    } else {
        p.bytes + entry.size
    };
    if entry.is_dir {
        ZoneAction::Skip
    } else if !policy_allows(entry, limits, is_foreign_zone(zone)) {
        ZoneAction::Drop
    } else if sum > limits.max_workspace_bytes || sum > limits.max_zone_bytes {
        ZoneAction::Stop
    } else {
        ZoneAction::Add
    }
}

/// How far the indexing is after the next path.
pub open spec fn zone_next(
    p: ZoneProgress,
    entry: PathRecord,
    limits: ContentPolicy,
    zone: Seq<char>,
) -> ZoneProgress {
    match zone_action(p, entry, limits, zone) {
        ZoneAction::Skip => p,
        ZoneAction::Drop => p,
        ZoneAction::Stop => ZoneProgress { partial: true, ..p },
        ZoneAction::Add => ZoneProgress {
            files: p.files + 1,
            bytes: if is_whole(zone) {
                p.bytes
            } else if p.bytes + entry.size > u64::MAX {
                u64::MAX as nat
            } else {
                (p.bytes + entry.size) as nat
            },
            ..p
        },
    }
}

/// How far the indexing is after the first `n` paths; it goes no further once it
/// has stopped.
pub open spec fn zone_after(
    entries: Seq<PathRecord>,
    limits: ContentPolicy,
    zone: Seq<char>,
    n: int,
) -> ZoneProgress
    decreases n,
{
    if n <= 0 {
        ZoneProgress { files: 0, bytes: 0, partial: false }
    } else {
        let before = zone_after(entries, limits, zone, n - 1);
        if before.partial {
            before
        } else {
            zone_next(before, entries[n - 1], limits, zone)
        }
    }
}

/// What is done with the first `n` paths.
pub open spec fn zone_actions(
    entries: Seq<PathRecord>,
    limits: ContentPolicy,
    zone: Seq<char>,
    n: int,
) -> Seq<ZoneAction>
    decreases n,
{
    if n <= 0 {
        Seq::empty()
    } else {
        let before = zone_after(entries, limits, zone, n - 1);
        let done = zone_actions(entries, limits, zone, n - 1);
        if before.partial {
            done
        } else {
            done.push(zone_action(before, entries[n - 1], limits, zone))
        }
    }
}

/// What comes of the indexing of a part of a workspace.
pub struct ContentRefreshSummary {
    pub files: usize,
    pub bytes: u64,
    pub partial: bool,
}

/// What is to be done with the paths in turn, and what comes of it.
pub struct ZonePlan {
    pub actions: Vec<ZoneAction>,
    pub summary: ContentRefreshSummary,
}

/// Decides what is done with the paths of a part of a workspace: how many files
/// are indexed, and where the limits end the work.
pub fn plan_zone_refresh(
    entries: &[IndexedPathRecord],
    limits: &ContentPolicy,
    zone: &str,
) -> (r: ZonePlan)
    ensures
        ({
            let all = crate::indexer::path_index::record_views(entries@);
            let end = zone_after(all, *limits, zone@, all.len() as int);
            &&& r.actions@ == zone_actions(all, *limits, zone@, all.len() as int)
            &&& r.summary.files == end.files
            &&& r.summary.bytes == end.bytes
            &&& r.summary.partial == end.partial
        }),
{
    let ghost all = crate::indexer::path_index::record_views(entries@);
    let whole = zone.is_empty();
    let foreign = str_eq(zone, "third_party") || str_starts_with(zone, "third_party/");
    let mut actions: Vec<ZoneAction> = Vec::new();
    let mut files: usize = 0;
    let mut bytes: u64 = 0;
    let mut partial = false;
    for i in 0..entries.len()
        invariant
            all == crate::indexer::path_index::record_views(entries@),
            whole == is_whole(zone@),
            foreign == is_foreign_zone(zone@),
            files <= i,
            actions@ == zone_actions(all, *limits, zone@, i as int),
            zone_after(all, *limits, zone@, i as int) == (ZoneProgress {
                files: files as nat,
                bytes: bytes as nat,
                partial,
            }),
    {
        if !partial {
            let entry = &entries[i];
            assert(all[i as int] == entry@);
            if entry.is_dir {
                actions.push(ZoneAction::Skip);
            } else if !content_policy_allows(entry, limits, foreign) {
                actions.push(ZoneAction::Drop);
            } else {
                let sum: u64 = bytes.saturating_add(entry.size);
                if sum > limits.max_workspace_bytes || sum > limits.max_zone_bytes {
                    actions.push(ZoneAction::Stop);
                    partial = true;
                } else {
                    actions.push(ZoneAction::Add);
                    files = files + 1;
                    if !whole {
                        bytes = sum;
                    }
                }
            }
        }
    }
    assert(all.len() == entries@.len());
    ZonePlan { actions, summary: ContentRefreshSummary { files, bytes, partial } }
}

/// No more bytes are indexed than the limits allow, and every file that is
/// indexed is one whose contents may be.
pub proof fn law_zone_limits(
    entries: Seq<PathRecord>,
    limits: ContentPolicy,
    zone: Seq<char>,
    n: int,
)
    requires
        0 <= n <= entries.len(),
    ensures
        zone_after(entries, limits, zone, n).bytes <= limits.max_workspace_bytes,
        zone_after(entries, limits, zone, n).bytes <= limits.max_zone_bytes,
        zone_actions(entries, limits, zone, n).len() <= n,
        forall|i: int|
            0 <= i < zone_actions(entries, limits, zone, n).len() && #[trigger] zone_actions(
                entries,
                limits,
                zone,
                n,
            )[i] == ZoneAction::Add ==> policy_allows(entries[i], limits, is_foreign_zone(zone)),
        !zone_after(entries, limits, zone, n).partial ==> zone_actions(
            entries,
            limits,
            zone,
            n,
        ).len() == n,
    decreases n,
{
    if n > 0 {
        law_zone_limits(entries, limits, zone, n - 1);
        let before = zone_actions(entries, limits, zone, n - 1);
        let all = zone_actions(entries, limits, zone, n);
        assert forall|i: int| 0 <= i < all.len() && #[trigger] all[i] == ZoneAction::Add implies
            policy_allows(entries[i], limits, is_foreign_zone(zone)) by {
            if i < before.len() {
                assert(all[i] == before[i]);
            }
        }
    }
}

} // verus!
