//! What is known of the indexed workspaces while the server runs.

use vstd::prelude::*;

use crate::indexer::path_index::{
    offers, query_anchor_terms, record_views, records, shortlist, IndexedPathRecord, PathEntry,
    PathIndex, PathQueryCandidate,
};
use crate::indexer::settings::{belongs, identity, path_belongs_to_workspace};
use crate::paths::{
    below, normalize_display_path, part_views, parts_of, path_parts, same_path, shown_path,
    strip_prefix,
};
use crate::sorted::ascending;
use crate::sorted_map::SortedMap;
use crate::text::{opt_view, views};
use crate::words::{are_distinct, terms};

verus! {

/// The seconds between two requests to build an index anew, at least.
pub const MIN_REFRESH_INTERVAL_SECS: u64 = 30;

/// What is known of an indexed workspace.
pub struct IndexRuntime {
    pub workspace_root: String,
    pub workspace_source: String,
    pub storage_dir: String,
    pub index_file: String,
    pub loaded_from_disk: bool,
    pub scan_complete: bool,
    pub refresh_running: bool,
    pub last_loaded_entries: usize,
    pub last_persisted_entries: usize,
    pub last_persisted_at: Option<u64>,
    pub last_scan_completed_at: Option<u64>,
    pub last_refresh_requested_at: Option<u64>,
    pub last_refresh_started_at: Option<u64>,
    pub last_refresh_completed_at: Option<u64>,
    pub last_request_source: Option<String>,
    pub last_error: Option<String>,
    pub indexed_entries_count: usize,
    pub indexed_files_count: usize,
    pub indexed_dirs_count: usize,
    pub content_index_enabled: bool,
    pub content_index_status: String,
    pub content_index_zones: Vec<String>,
    pub content_index_partial: bool,
    pub indexed_content_files: usize,
    pub indexed_content_bytes: u64,
    pub index_map_size_bytes: u64,
}

/// What is told of an indexed workspace.
pub struct IndexRuntimeSnapshot {
    pub workspace_root: String,
    pub workspace_source: String,
    pub index_file: String,
    pub loaded_from_disk: bool,
    pub scan_complete: bool,
    pub last_loaded_entries: usize,
    pub last_persisted_entries: usize,
    pub last_persisted_at: Option<u64>,
    pub last_scan_completed_at: Option<u64>,
    pub last_refresh_requested_at: Option<u64>,
    pub last_request_source: Option<String>,
    pub last_error: Option<String>,
    pub indexed_entries_count: usize,
    pub cached_files_count: usize,
    pub index_kind: &'static str,
    pub index_status: &'static str,
    pub metadata_index_backend: &'static str,
    pub content_index_backend: &'static str,
    pub metadata_index_status: &'static str,
    pub content_index_status: String,
    pub content_index_zones: Vec<String>,
    pub content_index_partial: bool,
    pub indexed_content_files: usize,
    pub indexed_content_bytes: u64,
    pub index_storage_dir: String,
    pub index_map_size_bytes: u64,
    pub index_size_bytes: u64,
    pub indexed_files_count: usize,
    pub indexed_dirs_count: usize,
    pub refresh_running: bool,
    pub last_refresh_started_at: Option<u64>,
    pub last_refresh_completed_at: Option<u64>,
}

/// How the index of paths stands.
pub open spec fn metadata_status(state: IndexRuntime) -> Seq<char> {
    if state.refresh_running {
        "refreshing"@
    } else if state.scan_complete {
        "complete"@
    } else if state.indexed_entries_count > 0 {
        "partial"@
    } else if state.last_error is Some {
        "error"@
    } else {
        "idle"@
    }
}

/// What is told of a workspace is what is known of it, and the size of its index.
pub open spec fn is_snapshot(state: IndexRuntime, size: u64, r: IndexRuntimeSnapshot) -> bool {
    &&& r.workspace_root == state.workspace_root
    &&& r.workspace_source == state.workspace_source
    &&& r.index_file == state.index_file
    &&& r.loaded_from_disk == state.loaded_from_disk
    &&& r.scan_complete == state.scan_complete
    &&& r.last_loaded_entries == state.last_loaded_entries
    &&& r.last_persisted_entries == state.last_persisted_entries
    &&& r.last_persisted_at == state.last_persisted_at
    &&& r.last_scan_completed_at == state.last_scan_completed_at
    &&& r.last_refresh_requested_at == state.last_refresh_requested_at
    &&& r.last_request_source == state.last_request_source
    &&& r.last_error == state.last_error
    &&& r.indexed_entries_count == state.indexed_entries_count
    &&& r.cached_files_count == state.indexed_entries_count
    &&& r.index_kind@ == "path"@
    &&& r.index_status@ == if state.indexed_entries_count > 0 {
        "active"@
    } else {
        "idle"@
    }
    &&& r.metadata_index_backend@ == "heed_lmdb"@
    &&& r.content_index_backend@ == if state.content_index_enabled {
        "tantivy"@
    } else {
        "disabled"@
    }
    &&& r.metadata_index_status@ == metadata_status(state)
    &&& r.content_index_status == state.content_index_status
    &&& views(r.content_index_zones@) == views(state.content_index_zones@)
    &&& r.content_index_partial == state.content_index_partial
    &&& r.indexed_content_files == state.indexed_content_files
    &&& r.indexed_content_bytes == state.indexed_content_bytes
    &&& r.index_storage_dir == state.storage_dir
    &&& r.index_map_size_bytes == state.index_map_size_bytes
    &&& r.index_size_bytes == size
    &&& r.indexed_files_count == state.indexed_files_count
    &&& r.indexed_dirs_count == state.indexed_dirs_count
    &&& r.refresh_running == state.refresh_running
    &&& r.last_refresh_started_at == state.last_refresh_started_at
    &&& r.last_refresh_completed_at == state.last_refresh_completed_at
}

/// A copy of a list of texts.
pub fn copy_texts(list: &[String]) -> (r: Vec<String>)
    ensures
        views(r@) == views(list@),
{
    let mut out: Vec<String> = Vec::new();
    for i in 0..list.len()
        invariant
            out@.len() == i,
            forall|k: int| 0 <= k < i ==> (#[trigger] out@[k])@ == list@[k]@,
    {
        out.push(list[i].clone());
    }
    assert(views(out@) =~= views(list@));
    out
}

/// A copy of a text that may be missing.
pub fn copy_text(text: &Option<String>) -> (r: Option<String>)
    ensures
        r == *text,
{
    match text {
        Some(s) => Some(s.clone()),
        None => None,
    }
}

/// Tells what is known of a workspace; `index_size_bytes` is the size of its
/// index on disk.
pub fn runtime_snapshot_from_state(state: &IndexRuntime, index_size_bytes: u64) -> (r:
    IndexRuntimeSnapshot)
    ensures
        is_snapshot(*state, index_size_bytes, r),
{
    let metadata_index_status: &'static str = if state.refresh_running {
        "refreshing"
    } else if state.scan_complete {
        "complete"
    } else if state.indexed_entries_count > 0 {
        "partial"
    } else if state.last_error.is_some() {
        "error"
    } else {
        "idle"
    };
    IndexRuntimeSnapshot {
        workspace_root: state.workspace_root.clone(),
        workspace_source: state.workspace_source.clone(),
        index_file: state.index_file.clone(),
        loaded_from_disk: state.loaded_from_disk,
        scan_complete: state.scan_complete,
        last_loaded_entries: state.last_loaded_entries,
        last_persisted_entries: state.last_persisted_entries,
        last_persisted_at: state.last_persisted_at,
        last_scan_completed_at: state.last_scan_completed_at,
        last_refresh_requested_at: state.last_refresh_requested_at,
        last_request_source: copy_text(&state.last_request_source),
        last_error: copy_text(&state.last_error),
        indexed_entries_count: state.indexed_entries_count,
        cached_files_count: state.indexed_entries_count,
        index_kind: "path",
        index_status: if state.indexed_entries_count > 0 {
            "active"
        } else {
            "idle"
        },
        metadata_index_backend: "heed_lmdb",
        content_index_backend: if state.content_index_enabled {
            "tantivy"
        } else {
            "disabled"
        },
        metadata_index_status,
        content_index_status: state.content_index_status.clone(),
        content_index_zones: copy_texts(state.content_index_zones.as_slice()),
        content_index_partial: state.content_index_partial,
        indexed_content_files: state.indexed_content_files,
        indexed_content_bytes: state.indexed_content_bytes,
        index_storage_dir: state.storage_dir.clone(),
        index_map_size_bytes: state.index_map_size_bytes,
        index_size_bytes,
        indexed_files_count: state.indexed_files_count,
        indexed_dirs_count: state.indexed_dirs_count,
        refresh_running: state.refresh_running,
        last_refresh_started_at: state.last_refresh_started_at,
        last_refresh_completed_at: state.last_refresh_completed_at,
    }
}

/// All indexed workspaces, by the keys of their roots, with the indexes of their
/// paths, and the one that was asked for last. `ignore_case` says that the
/// system does not tell upper and lower case apart.
pub struct IndexState {
    pub runtimes: SortedMap<IndexRuntime>,
    pub path_indexes: SortedMap<PathIndex>,
    pub active_refreshes: Vec<String>,
    pub active_content_refreshes: Vec<String>,
    pub active_workspace: Option<String>,
    pub ignore_case: bool,
}

impl IndexState {
    /// The maps are in order, every index fits its paths, and what is being
    /// built is listed once.
    pub open spec fn wf(&self) -> bool {
        &&& self.runtimes.wf()
        &&& self.path_indexes.wf()
        &&& forall|i: int|
            0 <= i < self.path_indexes.values@.len() ==> (
            #[trigger] self.path_indexes.values@[i]).wf()
        &&& ascending(views(self.active_refreshes@))
        &&& ascending(views(self.active_content_refreshes@))
    }

    /// Every workspace is kept under the identity of its root.
    pub open spec fn is_keyed_by_root(&self) -> bool {
        forall|key: Seq<char>| #[trigger]
            self.runtimes@.contains_key(key) ==> key == identity(
                self.runtimes@[key].workspace_root@,
                self.ignore_case,
            )
    }

    /// No workspace is indexed.
    pub fn new(ignore_case: bool) -> (r: Self)
        ensures
            r.wf(),
            r.is_keyed_by_root(),
            r.runtimes@ == Map::<Seq<char>, IndexRuntime>::empty(),
            r.path_indexes@ == Map::<Seq<char>, PathIndex>::empty(),
            r.active_workspace is None,
            r.ignore_case == ignore_case,
            r.active_refreshes@.len() == 0,
            r.active_content_refreshes@.len() == 0,
    {
        let out = IndexState {
            runtimes: SortedMap::new(),
            path_indexes: SortedMap::new(),
            active_refreshes: Vec::new(),
            active_content_refreshes: Vec::new(),
            active_workspace: None,
            ignore_case,
        };
        proof {
            if out.path_indexes.values@.len() > 0 {
                let k = views(out.path_indexes.keys@)[0];
                crate::sorted_map::lemma_place(views(out.path_indexes.keys@), 0);
                assert(out.path_indexes@.contains_key(k));
            }
        }
        out
    }
}

/// The size that was measured of a directory; none where it was not.
pub open spec fn size_in(sizes: Map<Seq<char>, u64>, dir: Seq<char>) -> u64 {
    if sizes.contains_key(dir) {
        sizes[dir]
    } else {
        0
    }
}

/// The size that was measured of a directory.
fn size_of(sizes: &SortedMap<u64>, dir: &str) -> (r: u64)
    requires
        sizes.wf(),
    ensures
        r == size_in(sizes@, dir@),
{
    match sizes.get(dir) {
        Some(n) => *n,
        None => 0,
    }
}

/// Tells what is known of all workspaces, in the order of their keys; `sizes`
/// are the sizes of the directories of their indexes.
pub fn get_runtime_snapshots(state: &IndexState, sizes: &SortedMap<u64>) -> (r: Vec<
    IndexRuntimeSnapshot,
>)
    requires
        state.wf(),
        sizes.wf(),
    ensures
        r@.len() == state.runtimes.values@.len(),
        forall|i: int|
            0 <= i < r@.len() ==> is_snapshot(
                state.runtimes.values@[i],
                size_in(sizes@, state.runtimes.values@[i].storage_dir@),
                #[trigger] r@[i],
            ),
{
    let mut out: Vec<IndexRuntimeSnapshot> = Vec::new();
    for i in 0..state.runtimes.values.len()
        invariant
            sizes.wf(),
            out@.len() == i,
            forall|k: int|
                0 <= k < i ==> is_snapshot(
                    state.runtimes.values@[k],
                    size_in(sizes@, state.runtimes.values@[k].storage_dir@),
                    #[trigger] out@[k],
                ),
    {
        let runtime = &state.runtimes.values[i];
        let size: u64 = size_of(sizes, runtime.storage_dir.as_str());
        out.push(runtime_snapshot_from_state(runtime, size));
    }
    out
}

/// Tells what is known of the workspace that was asked for last.
pub fn get_active_runtime_snapshot(state: &IndexState, sizes: &SortedMap<u64>) -> (r: Option<
    IndexRuntimeSnapshot,
>)
    requires
        state.wf(),
        sizes.wf(),
    ensures
        r is Some == (state.active_workspace matches Some(key)
            && state.runtimes@.contains_key(key@)),
        r matches Some(s) ==> is_snapshot(
            state.runtimes@[state.active_workspace->0@],
            size_in(sizes@, state.runtimes@[state.active_workspace->0@].storage_dir@),
            s,
        ),
{
    match &state.active_workspace {
        None => None,
        Some(key) => match state.runtimes.get(key.as_str()) {
            None => None,
            Some(runtime) => {
                let size: u64 = size_of(sizes, runtime.storage_dir.as_str());
                Some(runtime_snapshot_from_state(runtime, size))
            },
        },
    }
}

/// The index of the workspace can be asked: all of it is there, or some of it.
pub open spec fn has_entries(state: IndexRuntime) -> bool {
    state.scan_complete || state.indexed_entries_count > 0
}

/// The workspace holds the path, and its index can be asked where that is
/// wanted.
pub open spec fn serves(
    state: IndexRuntime,
    path: Seq<char>,
    ignore_case: bool,
    with_entries: bool,
) -> bool {
    (!with_entries || has_entries(state)) && belongs(state.workspace_root@, path, ignore_case)
}

/// The number of components of a workspace's root.
pub open spec fn root_depth(state: IndexRuntime) -> nat {
    parts_of(state.workspace_root@).len()
}

/// The position of the workspace, of the first `n`, that holds the path and lies
/// deepest: the last of those where several do.
pub open spec fn deepest(
    runtimes: Seq<IndexRuntime>,
    path: Seq<char>,
    ignore_case: bool,
    with_entries: bool,
    n: int,
) -> Option<int>
    decreases n,
{
    if n <= 0 {
        None
    } else {
        let before = deepest(runtimes, path, ignore_case, with_entries, n - 1);
        if serves(runtimes[n - 1], path, ignore_case, with_entries) && (before matches Some(i)
            ==> root_depth(runtimes[i]) <= root_depth(runtimes[n - 1])) {
            Some(n - 1)
        } else {
            before
        }
    }
}

/// The position of the workspace that holds the path and lies deepest.
fn find_deepest(state: &IndexState, path: &str, with_entries: bool) -> (r: Option<usize>)
    requires
        state.wf(),
    ensures
        (match r {
            Some(i) => Some(i as int),
            None => None,
        }) == deepest(
            state.runtimes.values@,
            path@,
            state.ignore_case,
            with_entries,
            state.runtimes.values@.len() as int,
        ),
        r matches Some(i) ==> i < state.runtimes.values@.len(),
{
    let mut best: Option<usize> = None;
    let mut depth: usize = 0;
    for i in 0..state.runtimes.values.len()
        invariant
            (match best {
                Some(k) => Some(k as int),
                None => None,
            }) == deepest(
                state.runtimes.values@,
                path@,
                state.ignore_case,
                with_entries,
                i as int,
            ),
            best matches Some(k) ==> k < i && depth == root_depth(state.runtimes.values@[k as int]),
    {
        let runtime = &state.runtimes.values[i];
        if (!with_entries || runtime.scan_complete || runtime.indexed_entries_count > 0)
            && path_belongs_to_workspace(
            runtime.workspace_root.as_str(),
            path,
            state.ignore_case,
        ) {
            let parts = path_parts(runtime.workspace_root.as_str());
            assert(part_views(parts@).len() == parts@.len());
            if best.is_none() || depth <= parts.len() {
                best = Some(i);
                depth = parts.len();
            }
        }
    }
    best
}

/// The root of the workspace that holds the path and lies deepest, whether or not
/// its index can be asked.
pub open spec fn indexed_root(state: IndexState, path: Seq<char>) -> Option<Seq<char>> {
    match deepest(
        state.runtimes.values@,
        path,
        state.ignore_case,
        false,
        state.runtimes.values@.len() as int,
    ) {
        Some(i) => Some(state.runtimes.values@[i].workspace_root@),
        None => None,
    }
}

/// The root of the workspace that holds a path and lies deepest; the path is
/// where it leads.
pub fn indexed_workspace_root_for_path(state: &IndexState, canonical: &str) -> (r: Option<String>)
    requires
        state.wf(),
    ensures
        opt_view(r) == indexed_root(*state, canonical@),
        r matches Some(root) ==> belongs(root@, canonical@, state.ignore_case),
        forall|k: int|
            0 <= k < state.runtimes.values@.len() && belongs(
                (#[trigger] state.runtimes.values@[k]).workspace_root@,
                canonical@,
                state.ignore_case,
            ) ==> (r matches Some(root) && parts_of(
                state.runtimes.values@[k].workspace_root@,
            ).len() <= parts_of(root@).len()),
{
    proof {
        let all = state.runtimes.values@;
        law_deepest(all, canonical@, state.ignore_case, false, all.len() as int);
        assert forall|k: int|
            0 <= k < all.len() && belongs(
                (#[trigger] all[k]).workspace_root@,
                canonical@,
                state.ignore_case,
            ) implies serves(all[k], canonical@, state.ignore_case, false) by {}
    }
    match find_deepest(state, canonical, false) {
        Some(i) => Some(state.runtimes.values[i].workspace_root.clone()),
        None => None,
    }
}

/// Of all workspaces that hold a path, none lies deeper than the one that is
/// chosen.
pub proof fn law_deepest(
    runtimes: Seq<IndexRuntime>,
    path: Seq<char>,
    ignore_case: bool,
    with_entries: bool,
    n: int,
)
    requires
        0 <= n <= runtimes.len(),
    ensures
        match deepest(runtimes, path, ignore_case, with_entries, n) {
            Some(i) => 0 <= i < n && serves(runtimes[i], path, ignore_case, with_entries)
                && forall|k: int|
                0 <= k < n && serves(#[trigger] runtimes[k], path, ignore_case, with_entries)
                    ==> root_depth(runtimes[k]) <= root_depth(runtimes[i]),
            None => forall|k: int|
                0 <= k < n ==> !serves(#[trigger] runtimes[k], path, ignore_case, with_entries),
        },
    decreases n,
{
    if n > 0 {
        law_deepest(runtimes, path, ignore_case, with_entries, n - 1);
    }
}

/// Where every workspace is kept under the identity of its root, no two that are
/// kept have the same root.
pub proof fn law_one_index_per_root(state: IndexState, a: Seq<char>, b: Seq<char>)
    requires
        state.is_keyed_by_root(),
        state.runtimes@.contains_key(a),
        state.runtimes@.contains_key(b),
        identity(state.runtimes@[a].workspace_root@, state.ignore_case) == identity(
            state.runtimes@[b].workspace_root@,
            state.ignore_case,
        ),
    ensures
        a == b,
{
}

/// All of a workspace that holds the path is indexed.
pub open spec fn is_ready(state: IndexState, path: Seq<char>) -> bool {
    exists|i: int|
        0 <= i < state.runtimes.values@.len() && (
        #[trigger] state.runtimes.values@[i]).scan_complete && belongs(
            state.runtimes.values@[i].workspace_root@,
            path,
            state.ignore_case,
        )
}

/// Whether all of a workspace that holds a path is indexed.
pub fn is_path_index_ready(state: &IndexState, canonical: &str) -> (r: bool)
    ensures
        r == is_ready(*state, canonical@),
{
    for i in 0..state.runtimes.values.len()
        invariant
            forall|k: int|
                0 <= k < i ==> !((#[trigger] state.runtimes.values@[k]).scan_complete && belongs(
                    state.runtimes.values@[k].workspace_root@,
                    canonical@,
                    state.ignore_case,
                )),
    {
        let runtime = &state.runtimes.values[i];
        if runtime.scan_complete && path_belongs_to_workspace(
            runtime.workspace_root.as_str(),
            canonical,
            state.ignore_case,
        ) {
            assert(state.runtimes.values@[i as int].scan_complete);
            return true;
        }
    }
    false
}

/// The index of a workspace that holds the path can be asked.
pub open spec fn is_available(state: IndexState, path: Seq<char>) -> bool {
    exists|i: int|
        0 <= i < state.runtimes.values@.len() && serves(
            #[trigger] state.runtimes.values@[i],
            path,
            state.ignore_case,
            true,
        )
}

/// Whether the index of a workspace that holds a path can be asked.
pub fn is_path_index_available(state: &IndexState, canonical: &str) -> (r: bool)
    ensures
        r == is_available(*state, canonical@),
{
    for i in 0..state.runtimes.values.len()
        invariant
            forall|k: int|
                0 <= k < i ==> !serves(
                    #[trigger] state.runtimes.values@[k],
                    canonical@,
                    state.ignore_case,
                    true,
                ),
    {
        let runtime = &state.runtimes.values[i];
        if (runtime.scan_complete || runtime.indexed_entries_count > 0)
            && path_belongs_to_workspace(
            runtime.workspace_root.as_str(),
            canonical,
            state.ignore_case,
        ) {
            assert(serves(state.runtimes.values@[i as int], canonical@, state.ignore_case, true));
            return true;
        }
    }
    false
}

/// The position of the workspace whose index is asked for a path.
pub open spec fn asked_workspace(state: IndexState, path: Seq<char>) -> Option<int> {
    deepest(
        state.runtimes.values@,
        path,
        state.ignore_case,
        true,
        state.runtimes.values@.len() as int,
    )
}

/// The key and the root of the workspace whose index is asked for a path.
pub fn indexed_workspace_for_path(state: &IndexState, canonical: &str) -> (r: Option<
    (String, String),
>)
    requires
        state.wf(),
    ensures
        r is Some == asked_workspace(*state, canonical@) is Some,
        r matches Some(found) ==> ({
            let i = asked_workspace(*state, canonical@)->0;
            &&& 0 <= i < state.runtimes.values@.len()
            &&& found.0@ == state.runtimes.keys@[i]@
            &&& found.1@ == state.runtimes.values@[i].workspace_root@
        }),
{
    match find_deepest(state, canonical, true) {
        Some(i) => Some(
            (state.runtimes.keys[i].clone(), state.runtimes.values[i].workspace_root.clone()),
        ),
        None => None,
    }
}

/// The directory that is searched below a workspace: `Some(None)` stands for all
/// of it, and there is none where the directory lies elsewhere.
pub open spec fn searched_below(root: Seq<char>, search_root: Seq<char>) -> Option<
    Option<Seq<char>>,
> {
    if parts_of(root) == parts_of(search_root) {
        Some(None)
    } else {
        match below(search_root, root) {
            Some(rest) => Some(Some(shown_path(rest))),
            None => None,
        }
    }
}

/// The directory that is searched below a workspace.
pub fn relative_root_prefix(workspace_root: &str, search_root: &str) -> (r: Option<Option<String>>)
    ensures
        (match r {
            Some(inner) => Some(opt_view(inner)),
            None => None,
        }) == searched_below(workspace_root@, search_root@),
{
    if same_path(workspace_root, search_root) {
        return Some(None);
    }
    match strip_prefix(search_root, workspace_root) {
        Some(rest) => Some(Some(normalize_display_path(rest.as_str()))),
        None => None,
    }
}

/// The paths of the index that is asked for a directory, and the directory below
/// its workspace; none where there is no such index.
pub open spec fn asked_paths(state: IndexState, search_root: Seq<char>) -> Option<
    (Seq<PathEntry>, Option<Seq<char>>),
> {
    match asked_workspace(state, search_root) {
        None => None,
        Some(i) => {
            let key = state.runtimes.keys@[i]@;
            match searched_below(state.runtimes.values@[i].workspace_root@, search_root) {
                None => None,
                Some(root) => if state.path_indexes@.contains_key(key) {
                    Some((state.path_indexes@[key]@, root))
                } else {
                    None
                },
            }
        },
    }
}

/// Offers the paths below a directory in which all words of a pattern stand, as
/// many as are asked for; there is no offer where no index holds the directory,
/// or where the words say nothing.
pub fn query_path_candidates(
    state: &IndexState,
    search_root: &str,
    pattern: &str,
    shortlist_limit: usize,
) -> (r: Option<Vec<PathQueryCandidate>>)
    requires
        state.wf(),
    ensures
        match asked_paths(*state, search_root@) {
            None => r is None,
            Some((history, root)) => exists|anchors: Seq<Seq<char>>|
                #![trigger are_distinct(terms(pattern@, 3), anchors)]
                are_distinct(terms(pattern@, 3), anchors) && (match r {
                    Some(list) => Some(offers(list@)),
                    None => None,
                }) == shortlist(history, anchors, root, shortlist_limit),
        },
{
    let found = indexed_workspace_for_path(state, search_root);
    let (key, root) = match found {
        Some(pair) => pair,
        None => return None,
    };
    let relative = match relative_root_prefix(root.as_str(), search_root) {
        Some(relative) => relative,
        None => return None,
    };
    let anchors = query_anchor_terms(pattern);
    assert(are_distinct(terms(pattern@, 3), views(anchors@)));
    match state.path_indexes.find(key.as_str()) {
        None => None,
        Some(k) => {
            let index = &state.path_indexes.values[k];
            assert(state.path_indexes.values@[k as int].wf());
            index.shortlist_candidates(anchors.as_slice(), &relative, shortlist_limit)
        },
    }
}

/// All that the index holds below a directory; nothing where no index holds the
/// directory.
pub fn indexed_entries_under(state: &IndexState, search_root: &str) -> (r: Option<
    Vec<IndexedPathRecord>,
>)
    requires
        state.wf(),
    ensures
        (match r {
            Some(list) => Some(record_views(list@)),
            None => None,
        }) == (match asked_paths(*state, search_root@) {
            Some((history, root)) => Some(records(history, root, history.len() as int)),
            None => None,
        }),
{
    let (key, root) = match indexed_workspace_for_path(state, search_root) {
        Some(pair) => pair,
        None => return None,
    };
    let relative = match relative_root_prefix(root.as_str(), search_root) {
        Some(relative) => relative,
        None => return None,
    };
    match state.path_indexes.find(key.as_str()) {
        None => None,
        Some(k) => {
            let index = &state.path_indexes.values[k];
            assert(state.path_indexes.values@[k as int].wf());
            Some(index.records_under(&relative))
        },
    }
}

} // verus!
