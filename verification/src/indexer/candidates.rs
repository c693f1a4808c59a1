//! The files that the index of contents offers for a query.

use vstd::prelude::*;

use crate::indexer::content::{
    content_zone_for_path, is_plain_query, is_tantivy_query_compatible, zone_of,
    ContentRefreshSummary,
};
use crate::indexer::path_index::{first_items, record_views, records, IndexedPathRecord};
use crate::indexer::runtime::{
    asked_workspace, indexed_workspace_for_path, IndexRuntime, IndexState,
};
use crate::indexer::updates::{
    content_zone_ready, is_content_noted, is_failed, record_content_status, record_runtime_error,
    remove_text, zone_is_ready,
};
use crate::path_order::{sort_paths, sorted_paths};
use crate::sorted::{insert_new, text_set};
use crate::sorted_map::lemma_paired_update;
use crate::text::views;

verus! {

/// A path that is searched: where it leads, and the files that the index of its
/// workspace's contents found, best first; none where that failed.
pub struct ContentPath {
    pub canonical: String,
    pub is_file: bool,
    pub hits: Option<Vec<String>>,
}

/// A part of a workspace whose contents are to be indexed.
pub struct WarmZone {
    pub workspace_root: String,
    pub workspace_key: String,
    pub zone: String,
}

/// A part of a workspace whose contents are to be indexed.
pub struct Warm {
    pub root: Seq<char>,
    pub key: Seq<char>,
    pub zone: Seq<char>,
}

impl View for WarmZone {
    type V = Warm;

    open spec fn view(&self) -> Warm {
        Warm {
            root: self.workspace_root@,
            key: self.workspace_key@,
            zone: self.zone@,
        }
    }
}

/// The parts whose contents are to be indexed.
pub open spec fn warm_views(items: Seq<WarmZone>) -> Seq<Warm> {
    Seq::new(items.len(), |i: int| items[i]@)
}

/// What the index of contents offers: `content_index_partial` says that it does
/// not speak for all that is searched, and `warming` are the parts that it is to
/// take up.
pub struct ContentCandidateResult {
    pub paths: Vec<String>,
    pub content_index_used: bool,
    pub content_index_partial: bool,
    pub zones: Vec<String>,
    pub warming: Vec<WarmZone>,
}

/// What was gathered so far; `done` says that there is enough.
pub struct Gathered {
    pub paths: Seq<Seq<char>>,
    pub zones: Seq<Seq<char>>,
    pub warming: Seq<Warm>,
    pub used: bool,
    pub partial: bool,
    pub done: bool,
}

/// Nothing was gathered.
pub open spec fn nothing_gathered() -> Gathered {
    Gathered {
        paths: Seq::empty(),
        zones: Seq::empty(),
        warming: Seq::empty(),
        used: false,
        partial: false,
        done: false,
    }
}

/// What is gathered after one more path. The index does not speak for a path
/// that is the workspace itself, nor for a part that it has not taken up.
pub open spec fn gathered_next(
    g: Gathered,
    state: IndexState,
    path: ContentPath,
    limit: usize,
) -> Gathered {
    let at = asked_workspace(state, path.canonical@);
    if g.done || at is None {
        g
    } else {
        let runtime = state.runtimes.values@[at->0];
        let root = runtime.workspace_root@;
        let key = state.runtimes.keys@[at->0]@;
        let zone = zone_of(root, path.canonical@, path.is_file);
        if zone.len() == 0 {
            Gathered { partial: true, ..g }
        } else if !zone_is_ready(runtime, zone) {
            Gathered {
                partial: true,
                warming: g.warming.push(Warm { root, key, zone }),
                ..g
            }
        } else {
            match path.hits {
                None => Gathered { partial: true, ..g },
                Some(list) => {
                    let taken = first_items(views(list@), limit - g.paths.len());
                    let paths = g.paths + taken;
                    Gathered {
                        paths,
                        zones: if taken.len() > 0 {
                            g.zones.push(zone)
                        } else {
                            g.zones
                        },
                        used: g.used || taken.len() > 0,
                        done: paths.len() >= limit,
                        ..g
                    }
                },
            }
        }
    }
}

/// What is gathered after the first `n` paths.
pub open spec fn gathered(
    state: IndexState,
    paths: Seq<ContentPath>,
    limit: usize,
    n: int,
) -> Gathered
    decreases n,
{
    if n <= 0 {
        nothing_gathered()
    } else {
        gathered_next(gathered(state, paths, limit, n - 1), state, paths[n - 1], limit)
    }
}

/// What is gathered for a query: nothing where the index of contents is switched
/// off, does not understand the query, or is asked for nothing.
pub open spec fn candidates_of(
    state: IndexState,
    enabled: bool,
    paths: Seq<ContentPath>,
    query: Seq<char>,
    limit: usize,
) -> Gathered {
    if !enabled || !is_plain_query(query) || limit == 0 {
        nothing_gathered()
    } else {
        gathered(state, paths, limit, paths.len() as int)
    }
}

/// The files that the index of contents offers for a query: at most `limit`, in
/// order, each once.
pub fn query_tantivy_content_candidates(
    state: &IndexState,
    enabled: bool,
    search_paths: &[ContentPath],
    query: &str,
    limit: usize,
) -> (r: ContentCandidateResult)
    requires
        state.wf(),
    ensures
        ({
            let g = candidates_of(*state, enabled, search_paths@, query@, limit);
            &&& views(r.paths@) == first_items(sorted_paths(g.paths), limit as int)
            &&& r.content_index_used == g.used
            &&& r.content_index_partial == g.partial
            &&& views(r.zones@) == g.zones
            &&& warm_views(r.warming@) == g.warming
        }),
{
    let mut out: Vec<String> = Vec::new();
    let mut zones: Vec<String> = Vec::new();
    let mut warming: Vec<WarmZone> = Vec::new();
    let mut used = false;
    let mut partial = false;
    let mut done = false;
    assert(views(out@) =~= Seq::<Seq<char>>::empty());
    assert(warm_views(warming@) =~= Seq::<Warm>::empty());
    if enabled && limit > 0 && is_tantivy_query_compatible(query) {
        for i in 0..search_paths.len()
            invariant
                state.wf(),
                limit > 0,
                out@.len() <= limit,
                !done ==> out@.len() < limit,
                gathered(*state, search_paths@, limit, i as int) == (Gathered {
                    paths: views(out@),
                    zones: views(zones@),
                    warming: warm_views(warming@),
                    used,
                    partial,
                    done,
                }),
        {
            let path = &search_paths[i];
            let ghost before = views(out@);
            let ghost zones_before = views(zones@);
            let ghost warm_before = warm_views(warming@);
            if !done {
                if let Some((key, root)) = indexed_workspace_for_path(
                    state,
                    path.canonical.as_str(),
                ) {
                    let ghost at = asked_workspace(*state, path.canonical@)->0;
                    let zone = content_zone_for_path(
                        root.as_str(),
                        path.canonical.as_str(),
                        path.is_file,
                    );
                    let mut ready = false;
                    if let Some(k) = state.runtimes.find(key.as_str()) {
                        ready = content_zone_ready(&state.runtimes.values[k], zone.as_str());
                        proof {
                            crate::sorted_map::lemma_place(views(state.runtimes.keys@), k as int);
                            crate::sorted_map::lemma_place(views(state.runtimes.keys@), at);
                        }
                    } else {
                        proof {
                            crate::sorted_map::lemma_place(views(state.runtimes.keys@), at);
                            assert(views(state.runtimes.keys@)[at] == key@);
                        }
                    }
                    if zone.as_str().is_empty() {
                        partial = true;
                    } else if !ready {
                        partial = true;
                        let warm = WarmZone { workspace_root: root, workspace_key: key, zone };
                        let ghost shown = warm@;
                        warming.push(warm);
                        assert(warm_views(warming@) =~= warm_before.push(shown));
                    } else {
                        match &path.hits {
                            None => {
                                partial = true;
                            },
                            Some(list) => {
                                let ghost all = views(list@);
                                let room: usize = limit - out.len();
                                let count: usize = if list.len() < room {
                                    list.len()
                                } else {
                                    room
                                };
                                let ghost taken = first_items(all, limit - before.len());
                                assert(taken =~= all.take(count as int));
                                for j in 0..count
                                    invariant
                                        count <= list@.len(),
                                        all == views(list@),
                                        views(out@) == before + all.take(j as int),
                                {
                                    let ghost held = views(out@);
                                    out.push(list[j].clone());
                                    assert(views(out@) =~= held.push(all[j as int]));
                                    assert(views(out@) =~= before + all.take(j + 1));
                                }
                                assert(views(out@) == before + taken);
                                assert(views(out@).len() == out@.len());
                                if count > 0 {
                                    used = true;
                                    let ghost name = zone@;
                                    zones.push(zone);
                                    assert(views(zones@) =~= zones_before.push(name));
                                }
                                if out.len() >= limit {
                                    done = true;
                                }
                            },
                        }
                    }
                }
            }
        }
    }
    let mut paths = sort_paths(out.as_slice());
    let ghost ordered = views(paths@);
    if paths.len() > limit {
        paths.truncate(limit);
        assert(views(paths@) =~= ordered.take(limit as int));
    }
    ContentCandidateResult {
        paths,
        content_index_used: used,
        content_index_partial: partial,
        zones,
        warming,
    }
}

/// The directory of a part of a workspace: none for all of it.
pub open spec fn zone_root(zone: Seq<char>) -> Option<Seq<char>> {
    if zone.len() == 0 {
        None
    } else {
        Some(zone)
    }
}

/// What the index holds of the paths of a part of a workspace, and whether the
/// part is to be walked through because the index holds none of it.
pub fn indexed_entries_for_content_zone(state: &IndexState, key: &str, zone: &str) -> (r: (
    Vec<IndexedPathRecord>,
    bool,
))
    requires
        state.wf(),
    ensures
        !state.path_indexes@.contains_key(key@) ==> r.0@.len() == 0 && !r.1,
        state.path_indexes@.contains_key(key@) ==> ({
            let history = state.path_indexes@[key@]@;
            &&& record_views(r.0@) == records(history, zone_root(zone@), history.len() as int)
            &&& r.1 == (r.0@.len() == 0 && zone@.len() > 0)
        }),
{
    match state.path_indexes.find(key) {
        None => (Vec::new(), false),
        Some(k) => {
            let root: Option<String> = if zone.is_empty() {
                None
            } else {
                Some(zone.to_owned())
            };
            let index = &state.path_indexes.values[k];
            assert(state.path_indexes.values@[k as int].wf());
            let found = index.records_under(&root);
            let walk = found.len() == 0 && !zone.is_empty();
            (found, walk)
        },
    }
}

/// The key of a part of a workspace that is being indexed.
pub open spec fn zone_key(key: Seq<char>, zone: Seq<char>) -> Seq<char> {
    key + "\n"@ + zone
}

/// The key of a part of a workspace that is being indexed.
fn name_zone(key: &str, zone: &str) -> (r: String)
    ensures
        r@ == zone_key(key@, zone@),
{
    let mut out = key.to_owned();
    out.append("\n");
    out.append(zone);
    out
}

/// Notes that a part of a workspace is being indexed, unless it is or the index
/// of contents is switched off; says whether it is to be.
pub fn begin_content_refresh(state: &mut IndexState, enabled: bool, key: &str, zone: &str) -> (r:
    bool)
    requires
        old(state).wf(),
    ensures
        final(state).wf(),
        old(state).is_keyed_by_root() ==> final(state).is_keyed_by_root(),
        r == (enabled && !text_set(old(state).active_content_refreshes@).contains(
            zone_key(key@, zone@),
        )),
        !enabled ==> *final(state) == *old(state),
        enabled ==> text_set(final(state).active_content_refreshes@) == text_set(
            old(state).active_content_refreshes@,
        ).insert(zone_key(key@, zone@)),
        !r || !old(state).runtimes@.contains_key(key@) ==> final(state).runtimes
            == old(state).runtimes,
        r && old(state).runtimes@.contains_key(key@) ==> ({
            let after = final(state).runtimes@[key@];
            &&& final(state).runtimes@ == old(state).runtimes@.insert(key@, after)
            &&& is_content_noted(
                old(state).runtimes@[key@],
                after,
                "warming"@,
                None,
                false,
                0,
                0,
            )
        }),
        *final(state) == (IndexState {
            runtimes: final(state).runtimes,
            active_content_refreshes: final(state).active_content_refreshes,
            ..*old(state)
        }),
{
    if !enabled {
        return false;
    }
    let name = name_zone(key, zone);
    if !insert_new(&mut state.active_content_refreshes, name.as_str()) {
        return false;
    }
    note_status(state, key, "warming", &None, false, 0, 0);
    true
}

/// Notes the status of the index of contents of a workspace that is known.
fn note_status(
    state: &mut IndexState,
    key: &str,
    status: &str,
    zone: &Option<String>,
    partial: bool,
    files: usize,
    bytes: u64,
)
    requires
        old(state).wf(),
    ensures
        final(state).wf(),
        old(state).is_keyed_by_root() ==> final(state).is_keyed_by_root(),
        !old(state).runtimes@.contains_key(key@) ==> final(state).runtimes == old(state).runtimes,
        old(state).runtimes@.contains_key(key@) ==> ({
            let after = final(state).runtimes@[key@];
            &&& final(state).runtimes@ == old(state).runtimes@.insert(key@, after)
            &&& is_content_noted(
                old(state).runtimes@[key@],
                after,
                status@,
                crate::text::opt_view(*zone),
                partial,
                files,
                bytes,
            )
        }),
        *final(state) == (IndexState { runtimes: final(state).runtimes, ..*old(state) }),
{
    if let Some(k) = state.runtimes.find(key) {
        let ghost before = state.runtimes;
        record_content_status(
            &mut state.runtimes.values[k],
            status,
            zone,
            partial,
            files,
            bytes,
        );
        proof {
            let keys = views(before.keys@);
            assert(keys[k as int] == key@);
            let after = state.runtimes.values@[k as int];
            assert(state.runtimes.values@ =~= before.values@.update(k as int, after));
            lemma_paired_update(keys, before.values@, k as int, after);
        }
    }
}

/// Takes up the outcome of indexing a part of a workspace, which is then no
/// longer being indexed.
pub fn finish_content_refresh(
    state: &mut IndexState,
    key: &str,
    zone: &str,
    outcome: &Result<ContentRefreshSummary, String>,
)
    requires
        old(state).wf(),
    ensures
        final(state).wf(),
        old(state).is_keyed_by_root() ==> final(state).is_keyed_by_root(),
        text_set(final(state).active_content_refreshes@) == text_set(
            old(state).active_content_refreshes@,
        ).remove(zone_key(key@, zone@)),
        !old(state).runtimes@.contains_key(key@) ==> final(state).runtimes == old(state).runtimes,
        old(state).runtimes@.contains_key(key@) ==> ({
            let before = old(state).runtimes@[key@];
            let after = final(state).runtimes@[key@];
            &&& final(state).runtimes@ == old(state).runtimes@.insert(key@, after)
            &&& match outcome {
                Ok(summary) => is_content_noted(
                    before,
                    after,
                    "ready"@,
                    Some(zone@),
                    summary.partial,
                    summary.files,
                    summary.bytes,
                ),
                Err(e) => exists|failed: IndexRuntime| #[trigger]
                    is_failed(before, failed, e@) && is_content_noted(
                        failed,
                        after,
                        "error"@,
                        None,
                        true,
                        0,
                        0,
                    ),
            }
        }),
        *final(state) == (IndexState {
            runtimes: final(state).runtimes,
            active_content_refreshes: final(state).active_content_refreshes,
            ..*old(state)
        }),
{
    match outcome {
        Ok(summary) => {
            note_status(
                state,
                key,
                "ready",
                &Some(zone.to_owned()),
                summary.partial,
                summary.files,
                summary.bytes,
            );
        },
        Err(e) => {
            if let Some(k) = state.runtimes.find(key) {
                let ghost before = state.runtimes;
                record_runtime_error(&mut state.runtimes.values[k], e.as_str());
                proof {
                    let keys = views(before.keys@);
                    assert(keys[k as int] == key@);
                    let after = state.runtimes.values@[k as int];
                    assert(state.runtimes.values@ =~= before.values@.update(k as int, after));
                    lemma_paired_update(keys, before.values@, k as int, after);
                    assert(is_failed(before@[key@], state.runtimes@[key@], e@));
                }
            }
            let ghost middle = state.runtimes;
            note_status(state, key, "error", &None, true, 0, 0);
            proof {
                if old(state).runtimes@.contains_key(key@) {
                    assert(state.runtimes@ =~= old(state).runtimes@.insert(
                        key@,
                        state.runtimes@[key@],
                    ));
                }
            }
        },
    }
    let name = name_zone(key, zone);
    remove_text(&mut state.active_content_refreshes, name.as_str());
}

} // verus!
