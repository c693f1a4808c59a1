//! How the index of contents stands for the paths that a caller names, and which of
//! their parts it is to take up.

use vstd::prelude::*;

use crate::indexer::candidates::{warm_views, zone_key, Warm, WarmZone};
use crate::indexer::content::{content_zone_for_path, zone_of};
use crate::indexer::runtime::{asked_workspace, indexed_workspace_for_path, IndexState};
use crate::indexer::updates::{content_zone_ready, zone_is_ready};
use crate::sorted::{ascending, insert_unique, position, text_set};
use crate::text::{opt_view, views};

verus! {

/// The longest time that is waited for the index, in milliseconds.
pub const MAX_WAIT_MS: u64 = 30_000;

/// The time between two looks at the index, in milliseconds.
pub const DEFAULT_POLL_MS: u64 = 250;

/// A path that a caller names, where it leads.
pub struct StatusPath {
    pub canonical: String,
    pub is_file: bool,
}

/// How the index of contents stands for a path. A path outside all indexed
/// workspaces has no part.
pub struct ContentZoneStatus {
    pub path: String,
    pub zone: Option<String>,
    pub ready: bool,
    pub warming: bool,
    pub status: &'static str,
}

/// How the index of contents stands for a path.
pub struct ZoneStatus {
    pub path: Seq<char>,
    pub zone: Option<Seq<char>>,
    pub ready: bool,
    pub warming: bool,
    pub status: Seq<char>,
}

impl View for ContentZoneStatus {
    type V = ZoneStatus;

    open spec fn view(&self) -> ZoneStatus {
        ZoneStatus {
            path: self.path@,
            zone: opt_view(self.zone),
            ready: self.ready,
            warming: self.warming,
            status: self.status@,
        }
    }
}

/// The paths of a request: none where it has no list of them.
pub open spec fn paths_error(paths: Option<Seq<Seq<char>>>) -> Option<Seq<char>> {
    match paths {
        None => Some("Missing paths"@),
        Some(list) => if list.len() == 0 {
            Some("paths must contain at least one path"@)
        } else {
            None
        },
    }
}

/// Checks the paths of a request.
pub fn check_paths(paths: &Option<Vec<String>>) -> (r: Result<(), &'static str>)
    ensures
        (match r {
            Ok(_) => None,
            Err(e) => Some(e@),
        }) == paths_error(
            match *paths {
                Some(list) => Some(views(list@)),
                None => None,
            },
        ),
{
    match paths {
        None => Err("Missing paths"),
        Some(list) => {
            assert(views(list@).len() == list@.len());
            if list.len() == 0 {
                Err("paths must contain at least one path")
            } else {
                Ok(())
            }
        },
    }
}

/// How long is waited: as asked for, up to the longest time.
pub fn wait_time(asked: Option<u64>) -> (r: u64)
    ensures
        r == (match asked {
            Some(n) => if n < MAX_WAIT_MS {
                n
            } else {
                MAX_WAIT_MS
            },
            None => 0,
        }),
{
    match asked {
        Some(n) => if n < MAX_WAIT_MS {
            n
        } else {
            MAX_WAIT_MS
        },
        None => 0,
    }
}

/// How the index of contents stands for a path.
pub open spec fn status_of(state: IndexState, path: StatusPath) -> ZoneStatus {
    match asked_workspace(state, path.canonical@) {
        None => ZoneStatus {
            path: path.canonical@,
            zone: None,
            ready: false,
            warming: false,
            status: "outside_workspace"@,
        },
        Some(at) => {
            let runtime = state.runtimes.values@[at];
            let zone = zone_of(runtime.workspace_root@, path.canonical@, path.is_file);
            let ready = zone_is_ready(runtime, zone);
            let warming = text_set(state.active_content_refreshes@).contains(
                zone_key(state.runtimes.keys@[at]@, zone),
            );
            ZoneStatus {
                path: path.canonical@,
                zone: Some(zone),
                ready,
                warming,
                status: if ready {
                    "ready"@
                } else if warming {
                    "warming"@
                } else {
                    "not_indexed"@
                },
            }
        },
    }
}

/// How the index of contents stands for a path, with the key and the root of its
/// workspace.
fn look_at(state: &IndexState, path: &StatusPath) -> (r: (
    ContentZoneStatus,
    Option<(String, String)>,
))
    requires
        state.wf(),
    ensures
        r.0@ == status_of(*state, *path),
        r.1 is Some == asked_workspace(*state, path.canonical@) is Some,
        r.1 matches Some((key, root)) ==> ({
            let at = asked_workspace(*state, path.canonical@)->0;
            &&& key@ == state.runtimes.keys@[at]@
            &&& root@ == state.runtimes.values@[at].workspace_root@
        }),
{
    match indexed_workspace_for_path(state, path.canonical.as_str()) {
        None => {
            let status = ContentZoneStatus {
                path: path.canonical.clone(),
                zone: None,
                ready: false,
                warming: false,
                status: "outside_workspace",
            };
            (status, None)
        },
        Some((key, root)) => {
            let ghost at = asked_workspace(*state, path.canonical@)->0;
            let zone = content_zone_for_path(
                root.as_str(),
                path.canonical.as_str(),
                path.is_file,
            );
            let mut ready = false;
            if let Some(k) = state.runtimes.find(key.as_str()) {
                ready = content_zone_ready(&state.runtimes.values[k], zone.as_str());
                proof {
                    crate::sorted_map::lemma_place(views(state.runtimes.keys@), k as int);
                    crate::sorted_map::lemma_place(views(state.runtimes.keys@), at);
                }
            } else {
                proof {
                    crate::sorted_map::lemma_place(views(state.runtimes.keys@), at);
                    assert(views(state.runtimes.keys@)[at] == key@);
                }
            }
            let mut name = key.clone();
            name.append("\n");
            name.append(zone.as_str());
            let warming = position(
                state.active_content_refreshes.as_slice(),
                name.as_str(),
            ).is_some();
            let text: &'static str = if ready {
                "ready"
            } else if warming {
                "warming"
            } else {
                "not_indexed"
            };
            let status = ContentZoneStatus {
                path: path.canonical.clone(),
                zone: Some(zone),
                ready,
                warming,
                status: text,
            };
            (status, Some((key, root)))
        },
    }
}

/// How the index of contents stands for each path, in their order.
pub fn content_status_for_paths(state: &IndexState, paths: &[StatusPath]) -> (r: Vec<
    ContentZoneStatus,
>)
    requires
        state.wf(),
    ensures
        r@.len() == paths@.len(),
        forall|i: int| 0 <= i < r@.len() ==> (#[trigger] r@[i])@ == status_of(*state, paths@[i]),
{
    let mut out: Vec<ContentZoneStatus> = Vec::new();
    for i in 0..paths.len()
        invariant
            state.wf(),
            out@.len() == i,
            forall|k: int| 0 <= k < i ==> (#[trigger] out@[k])@ == status_of(*state, paths@[k]),
    {
        let (status, _place) = look_at(state, &paths[i]);
        out.push(status);
    }
    out
}

/// The parts of the first `n` paths that the index of contents is to take up: those
/// that are not ready, or all where that is forced. A whole workspace is no part.
pub open spec fn wanted(
    state: IndexState,
    paths: Seq<StatusPath>,
    force: bool,
    n: int,
) -> Seq<Warm>
    decreases n,
{
    if n <= 0 {
        Seq::empty()
    } else {
        let before = wanted(state, paths, force, n - 1);
        let status = status_of(state, paths[n - 1]);
        match asked_workspace(state, paths[n - 1].canonical@) {
            None => before,
            Some(at) => if status.zone->0.len() > 0 && (force || !status.ready) {
                before.push(
                    Warm {
                        root: state.runtimes.values@[at].workspace_root@,
                        key: state.runtimes.keys@[at]@,
                        zone: status.zone->0,
                    },
                )
            } else {
                before
            },
        }
    }
}

/// The parts of the paths that the index of contents is to take up.
pub fn plan_warming(state: &IndexState, paths: &[StatusPath], force: bool) -> (r: Vec<WarmZone>)
    requires
        state.wf(),
    ensures
        warm_views(r@) == wanted(*state, paths@, force, paths@.len() as int),
{
    let mut out: Vec<WarmZone> = Vec::new();
    assert(warm_views(out@) =~= Seq::<Warm>::empty());
    for i in 0..paths.len()
        invariant
            state.wf(),
            warm_views(out@) == wanted(*state, paths@, force, i as int),
    {
        let (status, place) = look_at(state, &paths[i]);
        if let Some((key, root)) = place {
            if let Some(zone) = status.zone {
                if !zone.as_str().is_empty() && (force || !status.ready) {
                    let ghost before = warm_views(out@);
                    let warm = WarmZone { workspace_root: root, workspace_key: key, zone };
                    let ghost shown = warm@;
                    out.push(warm);
                    assert(warm_views(out@) =~= before.push(shown));
                }
            }
        }
    }
    out
}

/// Nothing is waited for any more: every part is ready, or is not being taken up.
pub open spec fn settled(statuses: Seq<ContentZoneStatus>) -> bool {
    forall|i: int|
        0 <= i < statuses.len() ==> (#[trigger] statuses[i]).ready || !statuses[i].warming
}

/// Whether nothing is waited for any more.
pub fn is_settled(statuses: &[ContentZoneStatus]) -> (r: bool)
    ensures
        r == settled(statuses@),
{
    for i in 0..statuses.len()
        invariant
            forall|k: int|
                0 <= k < i ==> (#[trigger] statuses@[k]).ready || !statuses@[k].warming,
    {
        if !statuses[i].ready && statuses[i].warming {
            return false;
        }
    }
    true
}

/// The part of some path is this one.
pub open spec fn is_zone_of(statuses: Seq<ContentZoneStatus>, zone: Seq<char>) -> bool {
    exists|i: int| 0 <= i < statuses.len() && opt_view((#[trigger] statuses[i]).zone) == Some(zone)
}

/// The parts of the paths, in order, each once.
pub fn zones_from_statuses(statuses: &[ContentZoneStatus]) -> (r: Vec<String>)
    ensures
        ascending(views(r@)),
        forall|p: Seq<char>| #[trigger] views(r@).contains(p) <==> is_zone_of(statuses@, p),
{
    let mut out: Vec<String> = Vec::new();
    assert(statuses@.take(0) =~= Seq::<ContentZoneStatus>::empty());
    for i in 0..statuses.len()
        invariant
            ascending(views(out@)),
            forall|p: Seq<char>| #[trigger]
                views(out@).contains(p) <==> is_zone_of(statuses@.take(i as int), p),
    {
        let ghost before = views(out@);
        let ghost seen = statuses@.take(i as int);
        let ghost all = statuses@.take(i + 1);
        if let Some(zone) = &statuses[i].zone {
            insert_unique(&mut out, zone.clone());
        }
        assert forall|p: Seq<char>| #[trigger] views(out@).contains(p) <==> is_zone_of(all, p) by {
            assert(all[i as int] == statuses@[i as int]);
            assert(before.contains(p) <==> is_zone_of(seen, p));
            if is_zone_of(seen, p) {
                let k = choose|k: int|
                    0 <= k < seen.len() && opt_view((#[trigger] seen[k]).zone) == Some(p);
                assert(all[k] == seen[k]);
            }
            if is_zone_of(all, p) {
                let k = choose|k: int|
                    0 <= k < all.len() && opt_view((#[trigger] all[k]).zone) == Some(p);
                if k < i {
                    assert(seen[k] == all[k]);
                }
            }
        }
    }
    assert(statuses@.take(statuses@.len() as int) =~= statuses@);
    out
}

/// The parts of the first `n` paths that are ready, or that are being taken up.
pub open spec fn zones_that(
    statuses: Seq<ContentZoneStatus>,
    ready: bool,
    n: int,
) -> Seq<Seq<char>>
    decreases n,
{
    if n <= 0 {
        Seq::empty()
    } else {
        let before = zones_that(statuses, ready, n - 1);
        let status = statuses[n - 1];
        let fits = if ready {
            status.ready
        } else {
            status.warming
        };
        match status.zone {
            Some(zone) => if fits {
                before.push(zone@)
            } else {
                before
            },
            None => before,
        }
    }
}

/// The parts of the paths that are ready, or with `ready` unset those that are being
/// taken up, in the order of the paths.
pub fn zones_by_state(statuses: &[ContentZoneStatus], ready: bool) -> (r: Vec<String>)
    ensures
        views(r@) == zones_that(statuses@, ready, statuses@.len() as int),
{
    let mut out: Vec<String> = Vec::new();
    assert(views(out@) =~= Seq::<Seq<char>>::empty());
    for i in 0..statuses.len()
        invariant
            views(out@) == zones_that(statuses@, ready, i as int),
    {
        let fits = if ready {
            statuses[i].ready
        } else {
            statuses[i].warming
        };
        if let Some(zone) = &statuses[i].zone {
            if fits {
                let ghost before = views(out@);
                out.push(zone.clone());
                assert(views(out@) =~= before.push(zone@));
            }
        }
    }
    out
}

/// The word for a zone says what is so: it is ready, it is being warmed, it is neither, or no
/// workspace holds the path.
pub proof fn law_status_words(state: IndexState, path: StatusPath)
    ensures
        ({
            let shown = status_of(state, path);
            &&& shown.path == path.canonical@
            &&& shown.zone is None <==> asked_workspace(state, path.canonical@) is None
            &&& shown.ready ==> shown.status == "ready"@ && shown.zone is Some
            &&& !shown.ready && shown.warming ==> shown.status == "warming"@
            &&& !shown.ready && !shown.warming && shown.zone is Some ==> shown.status
                == "not_indexed"@
            &&& shown.zone is None ==> shown.status == "outside_workspace"@ && !shown.ready
                && !shown.warming
            &&& asked_workspace(state, path.canonical@) matches Some(at) ==> (shown.ready <==>
                state.runtimes.values@[at].content_index_status@ == "ready"@ && views(
                state.runtimes.values@[at].content_index_zones@,
            ).contains(shown.zone->0))
        }),
{
}

} // verus!
