//! How what is known of the indexed workspaces changes.

use vstd::prelude::*;

use crate::common::{join_path, joined};
use crate::indexer::path_index::{entries_of, IndexedPathEntry, PathIndex};
use crate::indexer::refresh::{
    meta_error, RefreshSummary, WorkspaceMeta, INDEX_SCHEMA_VERSION,
};
use crate::indexer::runtime::{copy_texts, IndexRuntime, IndexState, MIN_REFRESH_INTERVAL_SECS};
use crate::indexer::settings::{identity, normalize_path_for_identity};
use crate::sorted::{
    ascending, insert_new, law_sorted_texts, position, sort_texts, sorted_texts, text_set,
};
use crate::sorted_map::{lemma_paired_update, lemma_place, SortedMap};
use crate::text::{opt_view, str_eq, views};
use crate::tools::fuzzy_find::holds;

verus! {

/// What the surroundings say when a workspace is first asked for.
pub struct IndexSettings {
    pub storage_dir: String,
    pub map_size_bytes: u64,
    pub content_enabled: bool,
    pub stale_after_secs: u64,
}

/// What was found on disk of a workspace's index: nothing, all of it, or an
/// error.
pub enum StoredIndex {
    Missing,
    Loaded { meta: WorkspaceMeta, entries: Vec<IndexedPathEntry> },
    Failed(String),
}

/// Nothing is indexed of the workspace.
pub open spec fn is_fresh(
    r: IndexRuntime,
    root: Seq<char>,
    source: Seq<char>,
    settings: IndexSettings,
) -> bool {
    &&& r.workspace_root@ == root
    &&& r.workspace_source@ == source
    &&& r.storage_dir@ == settings.storage_dir@
    &&& r.index_file@ == joined(settings.storage_dir@, "data.mdb"@)
    &&& !r.loaded_from_disk
    &&& !r.scan_complete
    &&& !r.refresh_running
    &&& r.last_loaded_entries == 0
    &&& r.last_persisted_entries == 0
    &&& r.last_persisted_at is None
    &&& r.last_scan_completed_at is None
    &&& r.last_refresh_requested_at is None
    &&& r.last_refresh_started_at is None
    &&& r.last_refresh_completed_at is None
    &&& opt_view(r.last_request_source) == Some(source)
    &&& r.last_error is None
    &&& r.indexed_entries_count == 0
    &&& r.indexed_files_count == 0
    &&& r.indexed_dirs_count == 0
    &&& r.content_index_enabled == settings.content_enabled
    &&& r.content_index_status@ == if settings.content_enabled {
        "idle"@
    } else {
        "disabled"@
    }
    &&& r.content_index_zones@.len() == 0
    &&& !r.content_index_partial
    &&& r.indexed_content_files == 0
    &&& r.indexed_content_bytes == 0
    &&& r.index_map_size_bytes == settings.map_size_bytes
}

/// What is known of a workspace of which nothing is indexed.
pub fn fresh_runtime(root: &str, source: &str, settings: &IndexSettings) -> (r: IndexRuntime)
    ensures
        is_fresh(r, root@, source@, *settings),
{
    IndexRuntime {
        workspace_root: root.to_owned(),
        workspace_source: source.to_owned(),
        storage_dir: settings.storage_dir.clone(),
        index_file: join_path(settings.storage_dir.as_str(), "data.mdb"),
        loaded_from_disk: false,
        scan_complete: false,
        refresh_running: false,
        last_loaded_entries: 0,
        last_persisted_entries: 0,
        last_persisted_at: None,
        last_scan_completed_at: None,
        last_refresh_requested_at: None,
        last_refresh_started_at: None,
        last_refresh_completed_at: None,
        last_request_source: Some(source.to_owned()),
        last_error: None,
        indexed_entries_count: 0,
        indexed_files_count: 0,
        indexed_dirs_count: 0,
        content_index_enabled: settings.content_enabled,
        content_index_status: if settings.content_enabled {
            "idle".to_owned()
        } else {
            "disabled".to_owned()
        },
        content_index_zones: Vec::new(),
        content_index_partial: false,
        indexed_content_files: 0,
        indexed_content_bytes: 0,
        index_map_size_bytes: settings.map_size_bytes,
    }
}

/// `after` is what is known of the workspace once what was on disk is taken up.
pub open spec fn is_restored(
    before: IndexRuntime,
    after: IndexRuntime,
    meta: WorkspaceMeta,
    entries: usize,
) -> bool {
    &&& after.content_index_status@ == meta.content_index_status@
    &&& views(after.content_index_zones@) == views(meta.content_index_zones@)
    &&& after == (IndexRuntime {
        loaded_from_disk: true,
        scan_complete: meta.scan_complete,
        last_loaded_entries: entries,
        last_persisted_entries: entries,
        last_persisted_at: Some(meta.saved_at),
        last_scan_completed_at: meta.last_full_scan_at,
        indexed_entries_count: entries,
        indexed_files_count: meta.indexed_files_count,
        indexed_dirs_count: meta.indexed_dirs_count,
        content_index_enabled: meta.content_index_enabled,
        content_index_status: after.content_index_status,
        content_index_zones: after.content_index_zones,
        content_index_partial: meta.content_index_partial,
        indexed_content_files: meta.indexed_content_files,
        indexed_content_bytes: meta.indexed_content_bytes,
        ..before
    })
}

/// Takes up what was on disk.
fn restore(runtime: &mut IndexRuntime, meta: &WorkspaceMeta, entries: usize)
    ensures
        is_restored(*old(runtime), *final(runtime), *meta, entries),
{
    runtime.loaded_from_disk = true;
    runtime.scan_complete = meta.scan_complete;
    runtime.last_loaded_entries = entries;
    runtime.last_persisted_entries = entries;
    runtime.last_persisted_at = Some(meta.saved_at);
    runtime.last_scan_completed_at = meta.last_full_scan_at;
    runtime.indexed_entries_count = entries;
    runtime.indexed_files_count = meta.indexed_files_count;
    runtime.indexed_dirs_count = meta.indexed_dirs_count;
    runtime.content_index_enabled = meta.content_index_enabled;
    runtime.content_index_status = meta.content_index_status.clone();
    runtime.content_index_zones = copy_texts(meta.content_index_zones.as_slice());
    runtime.content_index_partial = meta.content_index_partial;
    runtime.indexed_content_files = meta.indexed_content_files;
    runtime.indexed_content_bytes = meta.indexed_content_bytes;
}

/// `r` is what is known of a workspace that is asked for the first time.
pub open spec fn is_loaded(
    r: IndexRuntime,
    root: Seq<char>,
    source: Seq<char>,
    settings: IndexSettings,
    stored: StoredIndex,
) -> bool {
    exists|fresh: IndexRuntime| #[trigger]
        is_fresh(fresh, root, source, settings) && (match stored {
            StoredIndex::Missing => r == fresh,
            StoredIndex::Loaded { meta, entries } => is_restored(
                fresh,
                r,
                meta,
                entries@.len() as usize,
            ),
            StoredIndex::Failed(e) => opt_view(r.last_error) == Some(e@) && r == (IndexRuntime {
                last_error: r.last_error,
                ..fresh
            }),
        })
}

/// The paths of a workspace's index once what was on disk is taken up.
pub open spec fn loaded_paths(root: Seq<char>, stored: StoredIndex) -> Seq<
    crate::indexer::path_index::PathEntry,
> {
    match stored {
        StoredIndex::Loaded { meta, entries } => entries_of(root, entries@),
        _ => Seq::empty(),
    }
}

/// Every index of the map fits its paths.
proof fn lemma_indexes_wf(indexes: SortedMap<PathIndex>)
    requires
        indexes.wf(),
        forall|k: Seq<char>| #[trigger] indexes@.contains_key(k) ==> indexes@[k].wf(),
    ensures
        forall|i: int|
            0 <= i < indexes.values@.len() ==> (#[trigger] indexes.values@[i]).wf(),
{
    assert forall|i: int| 0 <= i < indexes.values@.len() implies (
    #[trigger] indexes.values@[i]).wf() by {
        let keys = views(indexes.keys@);
        lemma_place(keys, i);
        assert(indexes@.contains_key(keys[i]));
        assert(indexes@[keys[i]] == indexes.values@[i]);
    }
}

/// Every index that a key leads to fits its paths.
proof fn lemma_index_at(indexes: SortedMap<PathIndex>, key: Seq<char>)
    requires
        indexes.wf(),
        forall|i: int|
            0 <= i < indexes.values@.len() ==> (#[trigger] indexes.values@[i]).wf(),
        indexes@.contains_key(key),
    ensures
        indexes@[key].wf(),
{
    let keys = views(indexes.keys@);
    let i = crate::sorted_map::place(keys, key);
    assert(0 <= i < keys.len() && keys[i] == key);
    assert(indexes.values@[i].wf());
}

/// Puts the index of a workspace's paths in.
fn put_index(indexes: &mut SortedMap<PathIndex>, key: &str, index: PathIndex)
    requires
        old(indexes).wf(),
        forall|i: int|
            0 <= i < old(indexes).values@.len() ==> (#[trigger] old(indexes).values@[i]).wf(),
        index.wf(),
    ensures
        final(indexes).wf(),
        final(indexes)@ == old(indexes)@.insert(key@, index),
        forall|i: int|
            0 <= i < final(indexes).values@.len() ==> (#[trigger] final(indexes).values@[i]).wf(),
{
    let ghost before = *indexes;
    indexes.insert(key, index);
    proof {
        assert forall|k: Seq<char>| #[trigger] indexes@.contains_key(k) implies indexes@[k].wf() by {
            if k != key@ {
                assert(before@.contains_key(k));
                lemma_index_at(before, k);
            }
        }
        lemma_indexes_wf(*indexes);
    }
}

/// Takes a workspace up that is asked for the first time, with what was on disk
/// of its index; says whether it was.
pub fn ensure_runtime_loaded(
    state: &mut IndexState,
    key: &str,
    root: &str,
    source: &str,
    settings: &IndexSettings,
    stored: &StoredIndex,
) -> (r: bool)
    requires
        old(state).wf(),
    ensures
        final(state).wf(),
        r == !old(state).runtimes@.contains_key(key@),
        !r ==> *final(state) == *old(state),
        r ==> ({
            &&& final(state).runtimes@.contains_key(key@)
            &&& final(state).runtimes@ == old(state).runtimes@.insert(
                key@,
                final(state).runtimes@[key@],
            )
            &&& is_loaded(final(state).runtimes@[key@], root@, source@, *settings, *stored)
            &&& final(state).path_indexes@.contains_key(key@)
            &&& final(state).path_indexes@ == old(state).path_indexes@.insert(
                key@,
                final(state).path_indexes@[key@],
            )
            &&& final(state).path_indexes@[key@]@ == loaded_paths(root@, *stored)
            &&& *final(state) == (IndexState {
                runtimes: final(state).runtimes,
                path_indexes: final(state).path_indexes,
                ..*old(state)
            })
        }),
{
    if state.runtimes.find(key).is_some() {
        return false;
    }
    let mut runtime = fresh_runtime(root, source, settings);
    let ghost fresh = runtime;
    let index: PathIndex = match stored {
        StoredIndex::Missing => PathIndex::new(),
        StoredIndex::Loaded { meta, entries } => {
            let index = PathIndex::from_entries(root, entries.as_slice());
            restore(&mut runtime, meta, entries.len());
            index
        },
        StoredIndex::Failed(e) => {
            runtime.last_error = Some(e.clone());
            PathIndex::new()
        },
    };
    assert(is_fresh(fresh, root@, source@, *settings));
    put_index(&mut state.path_indexes, key, index);
    state.runtimes.insert(key, runtime);
    true
}

/// A workspace's index is to be built anew: it is not being built, and is
/// missing, not complete, or out of date.
pub open spec fn needs_refresh(runtime: IndexRuntime, now: u64, stale_after_secs: u64) -> bool {
    !runtime.refresh_running && (!runtime.scan_complete || runtime.indexed_entries_count == 0 || (
    match runtime.last_scan_completed_at {
        Some(at) => (if now >= at {
            now - at
        } else {
            0
        }) >= stale_after_secs,
        None => true,
    }))
}

/// Whether a workspace's index is to be built anew.
pub fn should_refresh(runtime: &IndexRuntime, now: u64, stale_after_secs: u64) -> (r: bool)
    ensures
        r == needs_refresh(*runtime, now, stale_after_secs),
        runtime.refresh_running ==> !r,
        !runtime.refresh_running && (!runtime.scan_complete || runtime.indexed_entries_count == 0)
            ==> r,
        !runtime.refresh_running && runtime.last_scan_completed_at is None ==> r,
        runtime.scan_complete && runtime.indexed_entries_count > 0 ==> (
        runtime.last_scan_completed_at matches Some(at) ==> now < at + stale_after_secs
            && stale_after_secs > 0 ==> !r),
        !runtime.refresh_running ==> (runtime.last_scan_completed_at matches Some(at) ==> now >= at
            + stale_after_secs ==> r),
{
    if runtime.refresh_running {
        return false;
    }
    if !runtime.scan_complete || runtime.indexed_entries_count == 0 {
        return true;
    }
    match runtime.last_scan_completed_at {
        Some(at) => now.saturating_sub(at) >= stale_after_secs,
        None => true,
    }
}

/// Enough time has passed since the last request to build the index anew.
pub open spec fn interval_elapsed(runtime: IndexRuntime, now: u64) -> bool {
    match runtime.last_refresh_requested_at {
        Some(at) => now >= at + MIN_REFRESH_INTERVAL_SECS,
        None => true,
    }
}

/// Whether enough time has passed since the last request to build the index anew.
pub fn refresh_interval_elapsed(runtime: &IndexRuntime, now: u64) -> (r: bool)
    ensures
        r == interval_elapsed(*runtime, now),
        runtime.last_refresh_requested_at is None ==> r,
        runtime.last_refresh_requested_at matches Some(at) ==> (r <==> now >= at + 30),
{
    match runtime.last_refresh_requested_at {
        Some(at) => now.saturating_sub(at) >= MIN_REFRESH_INTERVAL_SECS,
        None => true,
    }
}

/// `after` is what is known of a workspace once it was asked for, and once its
/// index was asked to be built anew where that is due.
pub open spec fn is_requested(
    before: IndexRuntime,
    after: IndexRuntime,
    source: Seq<char>,
    now: u64,
    stale_after_secs: u64,
) -> bool {
    &&& after.workspace_source@ == source
    &&& opt_view(after.last_request_source) == Some(source)
    &&& after == (IndexRuntime {
        workspace_source: after.workspace_source,
        last_request_source: after.last_request_source,
        last_refresh_requested_at: if needs_refresh(before, now, stale_after_secs)
            && interval_elapsed(before, now) {
            Some(now)
        } else {
            before.last_refresh_requested_at
        },
        ..before
    })
}

/// Notes that a workspace was asked for; says whether its index is to be built
/// anew.
fn request(runtime: &mut IndexRuntime, source: &str, now: u64, stale_after_secs: u64) -> (r: bool)
    ensures
        is_requested(*old(runtime), *final(runtime), source@, now, stale_after_secs),
        r == (needs_refresh(*old(runtime), now, stale_after_secs) && interval_elapsed(
            *old(runtime),
            now,
        )),
{
    let due = should_refresh(runtime, now, stale_after_secs) && refresh_interval_elapsed(
        runtime,
        now,
    );
    runtime.workspace_source = source.to_owned();
    runtime.last_request_source = Some(source.to_owned());
    if due {
        runtime.last_refresh_requested_at = Some(now);
    }
    due
}

/// A workspace that is asked for, and whether it is known already: what was on
/// disk of its index is needed only where it is not.
pub fn knows_workspace(state: &IndexState, root: &str) -> (r: bool)
    requires
        state.wf(),
    ensures
        r == state.runtimes@.contains_key(identity(root@, state.ignore_case)),
{
    let key = normalize_path_for_identity(root, state.ignore_case);
    state.runtimes.find(key.as_str()).is_some()
}

/// Makes sure that a workspace is indexed: takes it up where it is not known, and
/// says whether its index is to be built anew. A root that is no directory is
/// passed over.
pub fn ensure_workspace_index(
    state: &mut IndexState,
    root: &str,
    is_dir: bool,
    source: &str,
    settings: &IndexSettings,
    stored: &StoredIndex,
    now: u64,
) -> (r: bool)
    requires
        old(state).wf(),
    ensures
        final(state).wf(),
        old(state).is_keyed_by_root() ==> final(state).is_keyed_by_root(),
        !is_dir ==> !r && *final(state) == *old(state),
        is_dir ==> ({
            let key = identity(root@, old(state).ignore_case);
            let known = old(state).runtimes@.contains_key(key);
            let after = final(state).runtimes@[key];
            &&& opt_view(final(state).active_workspace) == Some(key)
            &&& final(state).runtimes@.contains_key(key)
            &&& final(state).runtimes@ == old(state).runtimes@.insert(key, after)
            &&& exists|before: IndexRuntime| #[trigger]
                is_requested(before, after, source@, now, settings.stale_after_secs) && (if known {
                    before == old(state).runtimes@[key]
                } else {
                    is_loaded(before, root@, source@, *settings, *stored)
                }) && r == (needs_refresh(before, now, settings.stale_after_secs)
                    && interval_elapsed(before, now))
            &&& known ==> final(state).path_indexes == old(state).path_indexes
            &&& !known ==> final(state).path_indexes@.contains_key(key)
                && final(state).path_indexes@ == old(state).path_indexes@.insert(
                key,
                final(state).path_indexes@[key],
            ) && final(state).path_indexes@[key]@ == loaded_paths(root@, *stored)
            &&& final(state).active_refreshes == old(state).active_refreshes
            &&& final(state).active_content_refreshes == old(state).active_content_refreshes
            &&& final(state).ignore_case == old(state).ignore_case
        }),
{
    if !is_dir {
        return false;
    }
    let key = normalize_path_for_identity(root, state.ignore_case);
    let _first = ensure_runtime_loaded(state, key.as_str(), root, source, settings, stored);
    state.active_workspace = Some(key.clone());
    match state.runtimes.find(key.as_str()) {
        None => false,
        Some(k) => {
            let ghost middle = state.runtimes;
            let due = request(
                &mut state.runtimes.values[k],
                source,
                now,
                settings.stale_after_secs,
            );
            proof {
                let keys = views(middle.keys@);
                let after = state.runtimes.values@[k as int];
                assert(keys[k as int] == key@);
                assert(state.runtimes.values@ =~= middle.values@.update(k as int, after));
                lemma_paired_update(keys, middle.values@, k as int, after);
                lemma_place(keys, k as int);
                assert(state.runtimes@ == middle@.insert(key@, after));
                assert(state.runtimes@ =~= old(state).runtimes@.insert(key@, after));
                assert(is_requested(
                    middle@[key@],
                    after,
                    source@,
                    now,
                    settings.stale_after_secs,
                ));
            }
            due
        },
    }
}

/// Notes that the index of a workspace is being built, unless it is; says whether
/// it is to be.
pub fn begin_refresh(state: &mut IndexState, key: &str, now: u64) -> (r: bool)
    requires
        old(state).wf(),
    ensures
        final(state).wf(),
        old(state).is_keyed_by_root() ==> final(state).is_keyed_by_root(),
        r == !text_set(old(state).active_refreshes@).contains(key@),
        text_set(final(state).active_refreshes@) == text_set(old(state).active_refreshes@).insert(
            key@,
        ),
        !r || !old(state).runtimes@.contains_key(key@) ==> final(state).runtimes == old(state).runtimes,
        r && old(state).runtimes@.contains_key(key@) ==> final(state).runtimes@ == old(state).runtimes@.insert(
            key@,
            (IndexRuntime {
                refresh_running: true,
                last_refresh_started_at: Some(now),
                last_error: None,
                ..old(state).runtimes@[key@]
            }),
        ),
        *final(state) == (IndexState {
            runtimes: final(state).runtimes,
            active_refreshes: final(state).active_refreshes,
            ..*old(state)
        }),
{
    if !insert_new(&mut state.active_refreshes, key) {
        return false;
    }
    if let Some(k) = state.runtimes.find(key) {
        let ghost before = state.runtimes;
        state.runtimes.values[k].refresh_running = true;
        state.runtimes.values[k].last_refresh_started_at = Some(now);
        state.runtimes.values[k].last_error = None;
        proof {
            let keys = views(before.keys@);
            assert(keys[k as int] == key@);
            let after = state.runtimes.values@[k as int];
            assert(state.runtimes.values@ =~= before.values@.update(k as int, after));
            lemma_paired_update(keys, before.values@, k as int, after);
        }
    }
    true
}

/// What is known of a workspace once its index was built.
pub open spec fn refreshed(before: IndexRuntime, summary: RefreshSummary) -> IndexRuntime {
    IndexRuntime {
        refresh_running: false,
        loaded_from_disk: true,
        scan_complete: true,
        indexed_entries_count: summary.entries,
        indexed_files_count: summary.files,
        indexed_dirs_count: summary.dirs,
        last_persisted_entries: summary.entries,
        last_loaded_entries: summary.entries,
        last_persisted_at: Some(summary.completed_at),
        last_scan_completed_at: Some(summary.completed_at),
        last_refresh_completed_at: Some(summary.completed_at),
        last_error: None,
        ..before
    }
}

/// Notes that the index of a workspace was built.
pub fn record_refresh_success(runtime: &mut IndexRuntime, summary: &RefreshSummary)
    ensures
        *final(runtime) == refreshed(*old(runtime), *summary),
        !final(runtime).refresh_running && final(runtime).scan_complete && final(
            runtime).last_error is None,
        final(runtime).indexed_entries_count == summary.entries,
        final(runtime).indexed_files_count == summary.files,
        final(runtime).indexed_dirs_count == summary.dirs,
        final(runtime).last_scan_completed_at == Some(summary.completed_at),
        final(runtime).workspace_root == old(runtime).workspace_root,
{
    runtime.refresh_running = false;
    runtime.loaded_from_disk = true;
    runtime.scan_complete = true;
    runtime.indexed_entries_count = summary.entries;
    runtime.indexed_files_count = summary.files;
    runtime.indexed_dirs_count = summary.dirs;
    runtime.last_persisted_entries = summary.entries;
    runtime.last_loaded_entries = summary.entries;
    runtime.last_persisted_at = Some(summary.completed_at);
    runtime.last_scan_completed_at = Some(summary.completed_at);
    runtime.last_refresh_completed_at = Some(summary.completed_at);
    runtime.last_error = None;
}

/// `after` is what is known of a workspace once its index could not be built.
pub open spec fn is_failed(before: IndexRuntime, after: IndexRuntime, error: Seq<char>) -> bool {
    &&& opt_view(after.last_error) == Some(error)
    &&& after == (IndexRuntime {
        refresh_running: false,
        last_error: after.last_error,
        ..before
    })
}

/// Notes that the index of a workspace could not be built.
pub fn record_runtime_error(runtime: &mut IndexRuntime, error: &str)
    ensures
        is_failed(*old(runtime), *final(runtime), error@),
{
    runtime.refresh_running = false;
    runtime.last_error = Some(error.to_owned());
}

/// Takes up the outcome of building the index of a workspace: its paths where
/// that went well. The index is then no longer being built.
pub fn finish_refresh(
    state: &mut IndexState,
    key: &str,
    root: &str,
    outcome: &Result<(RefreshSummary, Vec<IndexedPathEntry>), String>,
)
    requires
        old(state).wf(),
    ensures
        final(state).wf(),
        old(state).is_keyed_by_root() ==> final(state).is_keyed_by_root(),
        text_set(final(state).active_refreshes@) == text_set(old(state).active_refreshes@).remove(
            key@,
        ),
        !old(state).runtimes@.contains_key(key@) ==> final(state).runtimes == old(state).runtimes,
        old(state).runtimes@.contains_key(key@) ==> ({
            let before = old(state).runtimes@[key@];
            let after = final(state).runtimes@[key@];
            &&& final(state).runtimes@ == old(state).runtimes@.insert(key@, after)
            &&& match outcome {
                Ok((summary, _)) => after == refreshed(before, *summary),
                Err(e) => is_failed(before, after, e@),
            }
        }),
        match outcome {
            Ok((_, entries)) if old(state).path_indexes@.contains_key(key@) => {
                &&& final(state).path_indexes@ == old(state).path_indexes@.insert(
                    key@,
                    final(state).path_indexes@[key@],
                )
                &&& final(state).path_indexes@[key@]@ == entries_of(root@, entries@)
            },
            _ => final(state).path_indexes == old(state).path_indexes,
        },
        *final(state) == (IndexState {
            runtimes: final(state).runtimes,
            path_indexes: final(state).path_indexes,
            active_refreshes: final(state).active_refreshes,
            ..*old(state)
        }),
{
    if let Some(k) = state.runtimes.find(key) {
        let ghost before = state.runtimes;
        match outcome {
            Ok((summary, _)) => record_refresh_success(&mut state.runtimes.values[k], summary),
            Err(e) => record_runtime_error(&mut state.runtimes.values[k], e.as_str()),
        }
        proof {
            let keys = views(before.keys@);
            assert(keys[k as int] == key@);
            let after = state.runtimes.values@[k as int];
            assert(state.runtimes.values@ =~= before.values@.update(k as int, after));
            lemma_paired_update(keys, before.values@, k as int, after);
        }
    }
    if let Ok((_, entries)) = outcome {
        if state.path_indexes.find(key).is_some() {
            let index = PathIndex::from_entries(root, entries.as_slice());
            put_index(&mut state.path_indexes, key, index);
        }
    }
    remove_text(&mut state.active_refreshes, key);
}

/// Takes a text out.
pub fn remove_text(list: &mut Vec<String>, text: &str)
    requires
        ascending(views(old(list)@)),
    ensures
        ascending(views(final(list)@)),
        text_set(final(list)@) == text_set(old(list)@).remove(text@),
{
    let ghost all = views(list@);
    let ghost before = list@;
    match position(list.as_slice(), text) {
        None => {
            assert(text_set(list@) =~= text_set(list@).remove(text@));
        },
        Some(i) => {
            let _gone = list.remove(i);
            let ghost rest = views(list@);
            assert(rest =~= all.remove(i as int));
            proof {
                assert forall|a: int, b: int| 0 <= a < b < rest.len() implies crate::order::precedes(
                    #[trigger] rest[a],
                    #[trigger] rest[b],
                ) by {
                    let x = if a < i {
                        a
                    } else {
                        a + 1
                    };
                    let y = if b < i {
                        b
                    } else {
                        b + 1
                    };
                    assert(rest[a] == all[x] && rest[b] == all[y]);
                }
                assert forall|p: Seq<char>| #[trigger]
                    text_set(list@).contains(p) <==> text_set(before).remove(text@).contains(p) by {
                    if rest.contains(p) {
                        let a = choose|a: int| 0 <= a < rest.len() && rest[a] == p;
                        let x = if a < i {
                            a
                        } else {
                            a + 1
                        };
                        assert(all[x] == p);
                        crate::order::lemma_precedes_total(all[x], all[i as int]);
                        if x < i {
                            assert(crate::order::precedes(all[x], all[i as int]));
                        } else {
                            assert(crate::order::precedes(all[i as int], all[x]));
                        }
                    }
                    if all.contains(p) && p != text@ {
                        let x = choose|x: int| 0 <= x < all.len() && all[x] == p;
                        if x < i {
                            assert(rest[x] == p);
                        } else {
                            assert(rest[x - 1] == p);
                        }
                    }
                }
                assert(text_set(list@) =~= text_set(before).remove(text@));
            }
        },
    }
}

/// `after` is what is known of a workspace once its index of contents has another
/// status; a part of the workspace that is new counts with its files and bytes.
pub open spec fn is_content_noted(
    before: IndexRuntime,
    after: IndexRuntime,
    status: Seq<char>,
    zone: Option<Seq<char>>,
    partial: bool,
    files: usize,
    bytes: u64,
) -> bool {
    let zones = views(before.content_index_zones@);
    let new = zone is Some && !zones.contains(zone->0);
    &&& after.content_index_status@ == status
    &&& !new ==> views(after.content_index_zones@) == zones
    &&& new ==> views(after.content_index_zones@) == sorted_texts(zones.push(zone->0))
    &&& after == (IndexRuntime {
        content_index_status: after.content_index_status,
        content_index_partial: partial,
        content_index_zones: after.content_index_zones,
        indexed_content_files: if new {
            (if before.indexed_content_files + files > usize::MAX {
                usize::MAX as int
            } else {
                before.indexed_content_files + files
            }) as usize
        } else {
            before.indexed_content_files
        },
        indexed_content_bytes: if new {
            (if before.indexed_content_bytes + bytes > u64::MAX {
                u64::MAX as int
            } else {
                before.indexed_content_bytes + bytes
            }) as u64
        } else {
            before.indexed_content_bytes
        },
        ..before
    })
}

/// Notes the status of a workspace's index of contents. A part that is new is
/// listed in order with the others.
pub fn record_content_status(
    runtime: &mut IndexRuntime,
    status: &str,
    zone: &Option<String>,
    partial: bool,
    files: usize,
    bytes: u64,
)
    ensures
        is_content_noted(
            *old(runtime),
            *final(runtime),
            status@,
            opt_view(*zone),
            partial,
            files,
            bytes,
        ),
{
    let ghost zones = views(runtime.content_index_zones@);
    runtime.content_index_status = status.to_owned();
    runtime.content_index_partial = partial;
    if let Some(zone) = zone {
        if !holds(runtime.content_index_zones.as_slice(), zone.as_str()) {
            runtime.content_index_zones.push(zone.clone());
            assert(views(runtime.content_index_zones@) =~= zones.push(zone@));
            runtime.content_index_zones = sort_texts(runtime.content_index_zones.as_slice());
            runtime.indexed_content_files = runtime.indexed_content_files.saturating_add(files);
            runtime.indexed_content_bytes = runtime.indexed_content_bytes.saturating_add(bytes);
        }
    }
}

/// A part of a workspace is indexed: the index of contents is ready, and the part
/// is listed.
pub open spec fn zone_is_ready(runtime: IndexRuntime, zone: Seq<char>) -> bool {
    runtime.content_index_status@ == "ready"@ && views(runtime.content_index_zones@).contains(zone)
}

/// Whether a part of a workspace is indexed.
pub fn content_zone_ready(runtime: &IndexRuntime, zone: &str) -> (r: bool)
    ensures
        r == zone_is_ready(*runtime, zone@),
{
    str_eq(runtime.content_index_status.as_str(), "ready") && holds(
        runtime.content_index_zones.as_slice(),
        zone,
    )
}

/// A part of a workspace that was indexed is ready.
pub proof fn law_zone_ready(
    before: IndexRuntime,
    after: IndexRuntime,
    zone: Seq<char>,
    partial: bool,
    files: usize,
    bytes: u64,
)
    requires
        is_content_noted(before, after, "ready"@, Some(zone), partial, files, bytes),
    ensures
        zone_is_ready(after, zone),
{
    broadcast use vstd::seq_lib::group_to_multiset_ensures;

    let zones = views(before.content_index_zones@);
    if !zones.contains(zone) {
        let all = zones.push(zone);
        law_sorted_texts(all);
        assert(all[all.len() - 1] == zone);
        assert(all.contains(zone));
        assert(sorted_texts(all).to_multiset().count(zone) > 0);
        assert(sorted_texts(all).contains(zone));
    }
}

/// `meta` is what is kept on disk of a workspace whose paths were collected.
pub open spec fn is_refresh_meta(
    meta: WorkspaceMeta,
    runtime: Option<IndexRuntime>,
    root: Seq<char>,
    ignore_case: bool,
    summary: RefreshSummary,
    content_enabled: bool,
) -> bool {
    &&& meta.schema_version == INDEX_SCHEMA_VERSION
    &&& meta.workspace_root@ == identity(root, ignore_case)
    &&& meta.saved_at == summary.completed_at
    &&& meta.scan_complete
    &&& meta.indexed_entries_count == summary.entries
    &&& meta.indexed_files_count == summary.files
    &&& meta.indexed_dirs_count == summary.dirs
    &&& meta.last_full_scan_at == Some(summary.completed_at)
    &&& meta.content_index_enabled == content_enabled
    &&& meta.content_index_status@ == "idle"@
    &&& match runtime {
        Some(r) => {
            &&& views(meta.content_index_zones@) == views(r.content_index_zones@)
            &&& meta.content_index_partial == r.content_index_partial
            &&& meta.indexed_content_files == r.indexed_content_files
            &&& meta.indexed_content_bytes == r.indexed_content_bytes
        },
        None => {
            &&& meta.content_index_zones@.len() == 0
            &&& !meta.content_index_partial
            &&& meta.indexed_content_files == 0
            &&& meta.indexed_content_bytes == 0
        },
    }
}

/// What is kept on disk of a workspace whose paths were collected.
pub fn refresh_meta(
    state: &IndexState,
    key: &str,
    root: &str,
    summary: &RefreshSummary,
    content_enabled: bool,
) -> (r: WorkspaceMeta)
    requires
        state.wf(),
    ensures
        is_refresh_meta(
            r,
            if state.runtimes@.contains_key(key@) {
                Some(state.runtimes@[key@])
            } else {
                None
            },
            root@,
            state.ignore_case,
            *summary,
            content_enabled,
        ),
{
    let mut zones: Vec<String> = Vec::new();
    let mut partial = false;
    let mut files: usize = 0;
    let mut bytes: u64 = 0;
    if let Some(runtime) = state.runtimes.get(key) {
        zones = copy_texts(runtime.content_index_zones.as_slice());
        partial = runtime.content_index_partial;
        files = runtime.indexed_content_files;
        bytes = runtime.indexed_content_bytes;
    }
    WorkspaceMeta {
        schema_version: INDEX_SCHEMA_VERSION,
        workspace_root: normalize_path_for_identity(root, state.ignore_case),
        saved_at: summary.completed_at,
        scan_complete: true,
        indexed_entries_count: summary.entries,
        indexed_files_count: summary.files,
        indexed_dirs_count: summary.dirs,
        last_full_scan_at: Some(summary.completed_at),
        content_index_enabled: content_enabled,
        content_index_status: "idle".to_owned(),
        content_index_zones: zones,
        content_index_partial: partial,
        indexed_content_files: files,
        indexed_content_bytes: bytes,
    }
}

/// What is kept on disk of a workspace can be taken up again.
pub proof fn law_meta_accepted(
    meta: WorkspaceMeta,
    runtime: Option<IndexRuntime>,
    root: Seq<char>,
    ignore_case: bool,
    summary: RefreshSummary,
    content_enabled: bool,
)
    requires
        is_refresh_meta(meta, runtime, root, ignore_case, summary, content_enabled),
    ensures
        meta_error(meta, root, ignore_case) is None,
{
}

/// `after` is what is kept on disk once the status of the index of contents is
/// written down.
pub open spec fn is_content_meta(
    before: WorkspaceMeta,
    after: WorkspaceMeta,
    runtime: IndexRuntime,
    content_enabled: bool,
    now: u64,
) -> bool {
    &&& after.content_index_status@ == runtime.content_index_status@
    &&& views(after.content_index_zones@) == views(runtime.content_index_zones@)
    &&& after == (WorkspaceMeta {
        content_index_enabled: content_enabled,
        content_index_status: after.content_index_status,
        content_index_zones: after.content_index_zones,
        content_index_partial: runtime.content_index_partial,
        indexed_content_files: runtime.indexed_content_files,
        indexed_content_bytes: runtime.indexed_content_bytes,
        saved_at: now,
        ..before
    })
}

/// Writes the status of the index of contents down in what is kept on disk.
pub fn persist_content_status(
    meta: &mut WorkspaceMeta,
    runtime: &IndexRuntime,
    content_enabled: bool,
    now: u64,
)
    ensures
        is_content_meta(*old(meta), *final(meta), *runtime, content_enabled, now),
{
    meta.content_index_enabled = content_enabled;
    meta.content_index_status = runtime.content_index_status.clone();
    meta.content_index_zones = copy_texts(runtime.content_index_zones.as_slice());
    meta.content_index_partial = runtime.content_index_partial;
    meta.indexed_content_files = runtime.indexed_content_files;
    meta.indexed_content_bytes = runtime.indexed_content_bytes;
    meta.saved_at = now;
}

/// An index that was just built is not built again before it is out of date.
pub proof fn law_refreshed_is_kept(
    before: IndexRuntime,
    summary: RefreshSummary,
    now: u64,
    stale_after_secs: u64,
)
    requires
        summary.entries > 0,
        now < summary.completed_at + stale_after_secs,
        stale_after_secs > 0,
    ensures
        !needs_refresh(refreshed(before, summary), now, stale_after_secs),
{
}

} // verus!
