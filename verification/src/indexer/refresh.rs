//! Building the index of a workspace from what a walk through it finds.

use vstd::prelude::*;

use crate::indexer::path_index::{
    file_name_from_relative_path, last_name, IndexedPathEntry, IndexedPathRecord, PathRecord,
};
use crate::indexer::settings::{identity, normalize_path_for_identity};
use crate::common::{join_path, joined};
use crate::numbers::{decimal, u64_decimal};
use crate::order::{
    lemma_precedes_total, lemma_precedes_transitive, precedes, str_precedes,
};
use crate::paths::{
    below, extension, extension_of, is_rooted, lemma_below_name, normalize_display_path, parent_of,
    parent_path, parts_of, same_path, shown_path, strip_prefix,
};
use crate::sorted::{ascending, insert_unique};
use crate::sorted_map::SortedMap;
use crate::text::{ascii_lower, str_ascii_lower, str_eq, views};

verus! {

/// The version of what is kept on disk.
pub const INDEX_SCHEMA_VERSION: u32 = 1;

/// The key under which the names of the workspace's own entries are kept.
pub open spec fn root_children_key() -> Seq<char> {
    "."@
}

/// A path as it is kept on disk.
pub struct StoredEntry {
    pub relative: Seq<char>,
    pub is_dir: bool,
    pub size: u64,
    pub modified_at: u64,
    pub extension: Seq<char>,
    pub parent: Seq<char>,
    pub indexed_at: u64,
}

impl View for IndexedPathEntry {
    type V = StoredEntry;

    open spec fn view(&self) -> StoredEntry {
        StoredEntry {
            relative: self.relative_path@,
            is_dir: self.is_dir,
            size: self.size,
            modified_at: self.modified_at,
            extension: self.extension_lower@,
            parent: self.parent_relative_path@,
            indexed_at: self.indexed_at,
        }
    }
}

/// The paths as they are kept on disk.
pub open spec fn stored_views(entries: Seq<IndexedPathEntry>) -> Seq<StoredEntry> {
    Seq::new(entries.len(), |i: int| entries[i]@)
}

/// What a walk found at a path.
pub struct FoundPath {
    pub path: String,
    pub is_dir: bool,
    pub size: u64,
    pub modified_at: u64,
}

/// The path below the workspace that a path is; none where it is the workspace
/// itself, or lies elsewhere.
pub open spec fn stored_of(root: Seq<char>, found: FoundPath, indexed_at: u64) -> Option<
    StoredEntry,
> {
    let path = found.path@;
    if parts_of(path) == parts_of(root) || below(path, root) is None || shown_path(
        below(path, root)->0,
    ).len() == 0 {
        None
    } else {
        Some(
            StoredEntry {
                relative: shown_path(below(path, root)->0),
                is_dir: found.is_dir,
                size: if found.is_dir {
                    0
                } else {
                    found.size
                },
                modified_at: found.modified_at,
                extension: match extension_of(path) {
                    Some(ext) => if found.is_dir {
                        Seq::empty()
                    } else {
                        ascii_lower(ext)
                    },
                    None => Seq::empty(),
                },
                parent: match parent_of(path) {
                    Some(parent) => match below(parent, root) {
                        Some(rest) => shown_path(rest),
                        None => Seq::empty(),
                    },
                    None => Seq::empty(),
                },
                indexed_at,
            },
        )
    }
}

/// What is kept of a file names the extension that the kept path has, in lower
/// case, and what is kept of a directory names none. A backslash in a path is shown
/// as a slash and may end its name earlier.
pub proof fn law_stored_extension(root: Seq<char>, found: FoundPath, indexed_at: u64)
    requires
        is_rooted(root),
        !found.path@.contains('\\'),
    ensures
        stored_of(root, found, indexed_at) matches Some(e) ==> e.extension == if e.is_dir {
            Seq::empty()
        } else {
            match extension_of(e.relative) {
                Some(ext) => ascii_lower(ext),
                None => Seq::empty(),
            }
        },
{
    if stored_of(root, found, indexed_at) is Some {
        lemma_below_name(found.path@, root);
    }
}

/// The entry tells of the path that was found below the root.
pub open spec fn is_entry_of(e: StoredEntry, root: Seq<char>, found: FoundPath) -> bool {
    &&& below(found.path@, root) matches Some(rest) && e.relative == shown_path(rest)
    &&& e.is_dir == found.is_dir
    &&& e.modified_at == found.modified_at
    &&& found.is_dir ==> e.size == 0 && e.extension.len() == 0
    &&& !found.is_dir ==> e.size == found.size && (extension_of(found.path@) matches Some(ext)
        ==> e.extension == ascii_lower(ext))
}

/// What is kept on disk of a path that a walk found.
pub fn indexed_entry_from_metadata(root: &str, found: &FoundPath, indexed_at: u64) -> (r: Option<
    IndexedPathEntry,
>)
    ensures
        (match r {
            Some(e) => Some(e@),
            None => None,
        }) == stored_of(root@, *found, indexed_at),
        r matches Some(e) ==> is_entry_of(e@, root@, *found) && e.indexed_at == indexed_at,
        r is Some <==> parts_of(found.path@) != parts_of(root@) && (below(
            found.path@,
            root@,
        ) matches Some(rest) && shown_path(rest).len() > 0),
{
    let path = found.path.as_str();
    if same_path(path, root) {
        return None;
    }
    let relative: String = match strip_prefix(path, root) {
        Some(rest) => normalize_display_path(rest.as_str()),
        None => return None,
    };
    if relative.as_str().is_empty() {
        return None;
    }
    let mut parent = String::new();
    assert(parent@ =~= Seq::<char>::empty());
    if let Some(dir) = parent_path(path) {
        if let Some(rest) = strip_prefix(dir.as_str(), root) {
            parent = normalize_display_path(rest.as_str());
        }
    }
    let mut extension_lower = String::new();
    assert(extension_lower@ =~= Seq::<char>::empty());
    if !found.is_dir {
        if let Some(ext) = extension(path) {
            extension_lower = str_ascii_lower(ext.as_str());
        }
    }
    Some(
        IndexedPathEntry {
            relative_path: relative,
            is_dir: found.is_dir,
            size: if found.is_dir {
                0
            } else {
                found.size
            },
            modified_at: found.modified_at,
            extension_lower,
            parent_relative_path: parent,
            indexed_at,
        },
    )
}

/// All that the index holds of a path that is kept on disk.
pub open spec fn record_of_stored(root: Seq<char>, e: StoredEntry) -> PathRecord {
    PathRecord {
        path: joined(root, e.relative),
        relative: e.relative,
        name: last_name(e.relative),
        extension: e.extension,
        is_dir: e.is_dir,
        size: e.size,
        modified_at: e.modified_at,
    }
}

impl IndexedPathEntry {
    /// All that the index holds of the path.
    pub fn to_record(&self, workspace_root: &str) -> (r: IndexedPathRecord)
        ensures
            r@ == record_of_stored(workspace_root@, self@),
    {
        let name: String = match file_name_from_relative_path(self.relative_path.as_str()) {
            Some(name) => name,
            None => {
                let none = String::new();
                assert(none@ =~= last_name(self.relative_path@));
                none
            },
        };
        IndexedPathRecord {
            path: join_path(workspace_root, self.relative_path.as_str()),
            relative_path: self.relative_path.clone(),
            file_name: name,
            extension_lower: self.extension_lower.clone(),
            is_dir: self.is_dir,
            size: self.size,
            modified_at: self.modified_at,
        }
    }
}

/// The place of a path among paths in order of their text: behind those that do
/// not come after it.
pub open spec fn stored_slot(list: Seq<StoredEntry>, e: StoredEntry) -> int
    decreases list.len(),
{
    if list.len() > 0 && precedes(e.relative, list.last().relative) {
        stored_slot(list.drop_last(), e)
    } else {
        list.len() as int
    }
}

/// The paths that a walk found below the workspace, in order of their text.
pub open spec fn collected(root: Seq<char>, found: Seq<FoundPath>, indexed_at: u64) -> Seq<
    StoredEntry,
>
    decreases found.len(),
{
    if found.len() == 0 {
        Seq::empty()
    } else {
        let before = collected(root, found.drop_last(), indexed_at);
        match stored_of(root, found.last(), indexed_at) {
            Some(e) => before.insert(stored_slot(before, e), e),
            None => before,
        }
    }
}

/// Where an entry goes is behind those whose paths do not come after its own.
proof fn lemma_stored_slot(list: Seq<StoredEntry>, e: StoredEntry)
    requires
        forall|i: int, j: int|
            0 <= i < j < list.len() ==> !precedes(
                (#[trigger] list[j]).relative,
                (#[trigger] list[i]).relative,
            ),
    ensures
        0 <= stored_slot(list, e) <= list.len(),
        forall|i: int|
            0 <= i < stored_slot(list, e) ==> !precedes(e.relative, (#[trigger] list[i]).relative),
        forall|i: int|
            stored_slot(list, e) <= i < list.len() ==> precedes(
                e.relative,
                (#[trigger] list[i]).relative,
            ),
    decreases list.len(),
{
    if list.len() > 0 {
        if precedes(e.relative, list.last().relative) {
            let front = list.drop_last();
            lemma_stored_slot(front, e);
            assert forall|i: int| 0 <= i < stored_slot(list, e) implies !precedes(
                e.relative,
                (#[trigger] list[i]).relative,
            ) by {
                assert(front[i] == list[i]);
            }
            assert forall|i: int| stored_slot(list, e) <= i < list.len() implies precedes(
                e.relative,
                (#[trigger] list[i]).relative,
            ) by {
                if i < front.len() {
                    assert(front[i] == list[i]);
                }
            }
        } else {
            assert forall|i: int| 0 <= i < list.len() implies !precedes(
                e.relative,
                (#[trigger] list[i]).relative,
            ) by {
                if i < list.len() - 1 && precedes(e.relative, list[i].relative) {
                    assert(!precedes(list[list.len() - 1].relative, list[i].relative));
                    lemma_precedes_total(list[i].relative, list.last().relative);
                    if list[i].relative != list.last().relative {
                        lemma_precedes_transitive(
                            e.relative,
                            list[i].relative,
                            list.last().relative,
                        );
                    }
                }
            }
        }
    }
}

/// The entries of a workspace stand in the order of their paths.
pub proof fn law_collected_ordered(root: Seq<char>, found: Seq<FoundPath>, indexed_at: u64)
    ensures
        forall|i: int, j: int|
            0 <= i < j < collected(root, found, indexed_at).len() ==> !precedes(
                (#[trigger] collected(root, found, indexed_at)[j]).relative,
                (#[trigger] collected(root, found, indexed_at)[i]).relative,
            ),
    decreases found.len(),
{
    if found.len() > 0 {
        law_collected_ordered(root, found.drop_last(), indexed_at);
        if let Some(new) = stored_of(root, found.last(), indexed_at) {
            lemma_placed_ordered(collected(root, found.drop_last(), indexed_at), new);
        }
    }
}

/// An entry that is put in its place keeps the order.
proof fn lemma_placed_ordered(before: Seq<StoredEntry>, new: StoredEntry)
    requires
        forall|i: int, j: int|
            0 <= i < j < before.len() ==> !precedes(
                (#[trigger] before[j]).relative,
                (#[trigger] before[i]).relative,
            ),
    ensures
        before.insert(stored_slot(before, new), new).len() == before.len() + 1,
        forall|i: int, j: int|
            0 <= i < j < before.len() + 1 ==> !precedes(
                (#[trigger] before.insert(stored_slot(before, new), new)[j]).relative,
                (#[trigger] before.insert(stored_slot(before, new), new)[i]).relative,
            ),
{
    lemma_stored_slot(before, new);
    let at = stored_slot(before, new);
    let all = before.insert(at, new);
    assert forall|i: int, j: int| 0 <= i < j < all.len() implies !precedes(
        (#[trigger] all[j]).relative,
        (#[trigger] all[i]).relative,
    ) by {
        if i == at {
            assert(all[j] == before[j - 1]);
            assert(precedes(new.relative, before[j - 1].relative));
            lemma_precedes_total(new.relative, before[j - 1].relative);
        } else if j == at {
            assert(all[i] == before[i]);
        } else {
            let a = if i < at {
                i
            } else {
                i - 1
            };
            let b = if j < at {
                j
            } else {
                j - 1
            };
            assert(all[i] == before[a] && all[j] == before[b]);
        }
    }
}

/// The entries of a workspace are those of the paths found below its root, no more and no
/// fewer.
pub proof fn law_collected(
    root: Seq<char>,
    found: Seq<FoundPath>,
    indexed_at: u64,
    e: StoredEntry,
)
    ensures
        collected(root, found, indexed_at).contains(e) <==> exists|k: int|
            0 <= k < found.len() && stored_of(root, #[trigger] found[k], indexed_at) == Some(e),
    decreases found.len(),
{
    if found.len() > 0 {
        let front = found.drop_last();
        law_collected(root, front, indexed_at, e);
        law_collected_ordered(root, front, indexed_at);
        let before = collected(root, front, indexed_at);
        let all = collected(root, found, indexed_at);
        let last = stored_of(root, found[found.len() - 1], indexed_at);
        if let Some(new) = last {
            lemma_stored_slot(before, new);
            lemma_placed_held(before, new, stored_slot(before, new), e);
        }
        if exists|k: int|
            0 <= k < found.len() && stored_of(root, #[trigger] found[k], indexed_at) == Some(e) {
            let k = choose|k: int|
                0 <= k < found.len() && stored_of(root, #[trigger] found[k], indexed_at) == Some(e);
            if k < found.len() - 1 {
                assert(stored_of(root, front[k], indexed_at) == Some(e));
            }
        }
        if before.contains(e) {
            let k = choose|k: int|
                0 <= k < front.len() && stored_of(root, #[trigger] front[k], indexed_at) == Some(e);
            assert(stored_of(root, found[k], indexed_at) == Some(e));
        }
    }
}

/// What is held once one more is put in its place.
proof fn lemma_placed_held(before: Seq<StoredEntry>, new: StoredEntry, at: int, e: StoredEntry)
    requires
        0 <= at <= before.len(),
    ensures
        before.insert(at, new).contains(e) <==> before.contains(e) || e == new,
{
    let all = before.insert(at, new);
    assert(all[at] == new);
    if before.contains(e) {
        let a = before.index_of(e);
        if a < at {
            assert(all[a] == e);
        } else {
            assert(all[a + 1] == e);
        }
    }
    if all.contains(e) {
        let i = all.index_of(e);
        if i < at {
            assert(before[i] == e);
        } else if i > at {
            assert(before[i - 1] == e);
        }
    }
}

/// The paths that a walk found below the workspace, in order of their text.
pub fn collect_workspace_entries(root: &str, found: &[FoundPath], indexed_at: u64) -> (r: Vec<
    IndexedPathEntry,
>)
    ensures
        stored_views(r@) == collected(root@, found@, indexed_at),
        forall|i: int, j: int|
            0 <= i < j < r@.len() ==> !precedes(
                (#[trigger] r@[j]).relative_path@,
                (#[trigger] r@[i]).relative_path@,
            ),
{
    let mut out: Vec<IndexedPathEntry> = Vec::new();
    assert(stored_views(out@) =~= Seq::<StoredEntry>::empty());
    assert(found@.take(0) =~= Seq::<FoundPath>::empty());
    for i in 0..found.len()
        invariant
            stored_views(out@) == collected(root@, found@.take(i as int), indexed_at),
    {
        assert(found@.take(i + 1).drop_last() =~= found@.take(i as int));
        if let Some(entry) = indexed_entry_from_metadata(root, &found[i], indexed_at) {
            let ghost before = stored_views(out@);
            let ghost e = entry@;
            let mut at: usize = out.len();
            assert(before.len() == out@.len());
            assert(before.take(at as int) =~= before);
            while at > 0 && str_precedes(
                entry.relative_path.as_str(),
                out[at - 1].relative_path.as_str(),
            )
                invariant
                    before == stored_views(out@),
                    e == entry@,
                    at <= out@.len(),
                    stored_slot(before.take(at as int), e) == stored_slot(before, e),
                ensures
                    at <= out@.len(),
                    at == stored_slot(before, e),
                decreases at,
            {
                assert(before.take(at as int).last() == out@[at - 1]@);
                assert(before.take(at as int).drop_last() =~= before.take(at - 1));
                at -= 1;
            }
            out.insert(at, entry);
            assert(stored_views(out@) =~= before.insert(at as int, e));
        }
    }
    assert(found@.take(found@.len() as int) =~= found@);
    proof {
        law_collected_ordered(root@, found@, indexed_at);
        let all = stored_views(out@);
        assert forall|i: int, j: int| 0 <= i < j < out@.len() implies !precedes(
            (#[trigger] out@[j]).relative_path@,
            (#[trigger] out@[i]).relative_path@,
        ) by {
            assert(!precedes(all[j].relative, all[i].relative));
        }
    }
    out
}

/// The key under which the names of the entries of a directory are kept.
pub open spec fn children_key(parent: Seq<char>) -> Seq<char> {
    if parent.len() == 0 {
        root_children_key()
    } else {
        parent
    }
}

/// The key under which the names of the entries of a directory are kept.
pub fn children_store_key(parent: &str) -> (r: String)
    ensures
        r@ == children_key(parent@),
{
    if parent.is_empty() {
        ".".to_owned()
    } else {
        parent.to_owned()
    }
}

/// One of the paths is an entry of this name in this directory.
pub open spec fn is_child(entries: Seq<StoredEntry>, parent: Seq<char>, name: Seq<char>) -> bool {
    exists|i: int|
        0 <= i < entries.len() && (#[trigger] entries[i]).parent == parent && last_name(
            entries[i].relative,
        ) == name && name.len() > 0
}

/// The lists hold the names of the entries of each directory, in ascending
/// order.
pub open spec fn children_fit(
    children: Map<Seq<char>, Vec<String>>,
    entries: Seq<StoredEntry>,
) -> bool {
    &&& forall|p: Seq<char>| #[trigger]
        children.contains_key(p) ==> ascending(views(children[p]@)) && forall|n: Seq<char>| #[trigger]
            views(children[p]@).contains(n) <==> is_child(entries, p, n)
    &&& forall|p: Seq<char>, n: Seq<char>| #[trigger]
        is_child(entries, p, n) ==> children.contains_key(p)
    &&& forall|p: Seq<char>| #[trigger]
        children.contains_key(p) ==> exists|n: Seq<char>| is_child(entries, p, n)
}

/// The names of the entries of each directory, by the directory's path below the
/// workspace.
pub fn children_by_parent(entries: &[IndexedPathEntry]) -> (r: SortedMap<Vec<String>>)
    ensures
        r.wf(),
        children_fit(r@, stored_views(entries@)),
{
    let ghost all = stored_views(entries@);
    let mut out: SortedMap<Vec<String>> = SortedMap::new();
    for i in 0..entries.len()
        invariant
            all == stored_views(entries@),
            out.wf(),
            children_fit(out@, all.take(i as int)),
    {
        let ghost past = all.take(i as int);
        let ghost now = all.take(i + 1);
        let ghost e = all[i as int];
        assert(e == entries@[i as int]@);
        proof {
            assert forall|p: Seq<char>, n: Seq<char>| #[trigger]
                is_child(now, p, n) <==> (is_child(past, p, n) || (e.parent == p && last_name(
                    e.relative,
                ) == n && n.len() > 0)) by {
                if is_child(past, p, n) {
                    let k = choose|k: int|
                        0 <= k < past.len() && (#[trigger] past[k]).parent == p && last_name(
                            past[k].relative,
                        ) == n && n.len() > 0;
                    assert(now[k] == past[k]);
                }
                if e.parent == p && last_name(e.relative) == n && n.len() > 0 {
                    assert(now[i as int] == e);
                }
                if is_child(now, p, n) {
                    let k = choose|k: int|
                        0 <= k < now.len() && (#[trigger] now[k]).parent == p && last_name(
                            now[k].relative,
                        ) == n && n.len() > 0;
                    if k < i {
                        assert(past[k] == now[k]);
                    }
                }
            }
        }
        let ghost before = out@;
        if let Some(name) = file_name_from_relative_path(entries[i].relative_path.as_str()) {
            let parent = entries[i].parent_relative_path.as_str();
            let ghost own = name@;
            let mut names: Vec<String> = Vec::new();
            if let Some(list) = out.get(parent) {
                for k in 0..list.len()
                    invariant
                        views(names@) =~= views(list@).take(k as int),
                {
                    let ghost held = views(names@);
                    names.push(list[k].clone());
                    assert(views(names@) =~= held.push(views(list@)[k as int]));
                }
                assert(views(list@).take(list@.len() as int) =~= views(list@));
            }
            let ghost held = views(names@);
            proof {
                assert(ascending(held));
                assert forall|n: Seq<char>| held.contains(n) <==> is_child(past, parent@, n) by {
                    if !before.contains_key(parent@) {
                        assert(held.len() == 0);
                        assert(is_child(past, parent@, n) ==> before.contains_key(parent@));
                    }
                }
            }
            insert_unique(&mut names, name);
            let ghost kept = names;
            out.insert(parent, names);
            proof {
                assert(is_child(now, parent@, own));
                assert forall|p: Seq<char>| #[trigger] out@.contains_key(p) implies ascending(
                    views(out@[p]@),
                ) && forall|n: Seq<char>| #[trigger]
                    views(out@[p]@).contains(n) <==> is_child(now, p, n) by {
                    if p == parent@ {
                        assert(out@[p] == kept);
                        assert forall|n: Seq<char>| #[trigger]
                            views(out@[p]@).contains(n) <==> is_child(now, p, n) by {
                            assert(views(kept@).contains(n) <==> (held.contains(n) || n == own));
                        }
                    } else {
                        assert(before.contains_key(p));
                    }
                }
                assert forall|p: Seq<char>, n: Seq<char>| #[trigger]
                    is_child(now, p, n) implies out@.contains_key(p) by {
                    if is_child(past, p, n) {
                        assert(before.contains_key(p));
                    }
                }
                assert forall|p: Seq<char>| #[trigger] out@.contains_key(p) implies exists|
                    n: Seq<char>,
                |
                    is_child(now, p, n) by {
                    if p != parent@ {
                        assert(before.contains_key(p));
                        let n = choose|n: Seq<char>| is_child(past, p, n);
                        assert(is_child(now, p, n));
                    }
                }
            }
        } else {
            proof {
                assert(last_name(e.relative).len() == 0);
                assert forall|p: Seq<char>| #[trigger] out@.contains_key(p) implies exists|
                    n: Seq<char>,
                |
                    is_child(now, p, n) by {
                    let n = choose|n: Seq<char>| is_child(past, p, n);
                    assert(is_child(now, p, n));
                }
                assert forall|p: Seq<char>| #[trigger] out@.contains_key(p) implies ascending(
                    views(out@[p]@),
                ) && forall|n: Seq<char>| #[trigger]
                    views(out@[p]@).contains(n) <==> is_child(now, p, n) by {
                    assert forall|n: Seq<char>| #[trigger]
                        views(out@[p]@).contains(n) <==> is_child(now, p, n) by {
                        assert(is_child(now, p, n) <==> is_child(past, p, n));
                    }
                }
                assert forall|p: Seq<char>, n: Seq<char>| #[trigger]
                    is_child(now, p, n) implies out@.contains_key(p) by {
                    assert(is_child(past, p, n));
                }
            }
        }
    }
    assert(all.take(all.len() as int) =~= all);
    assert(all.len() == entries@.len());
    out
}

/// How many of the paths are directories.
pub open spec fn dir_count(entries: Seq<StoredEntry>) -> nat
    decreases entries.len(),
{
    if entries.len() == 0 {
        0
    } else {
        dir_count(entries.drop_last()) + if entries.last().is_dir {
            1nat
        } else {
            0nat
        }
    }
}

/// What came of a walk through a workspace.
pub struct RefreshSummary {
    pub entries: usize,
    pub files: usize,
    pub dirs: usize,
    pub completed_at: u64,
}

/// Counts the paths that a walk found.
pub fn summarize_entries(entries: &[IndexedPathEntry], completed_at: u64) -> (r: RefreshSummary)
    ensures
        r.entries == entries@.len(),
        r.dirs == dir_count(stored_views(entries@)),
        r.files + r.dirs == entries@.len(),
        r.completed_at == completed_at,
{
    let ghost all = stored_views(entries@);
    let mut dirs: usize = 0;
    let mut files: usize = 0;
    assert(all.take(0) =~= Seq::<StoredEntry>::empty());
    for i in 0..entries.len()
        invariant
            all == stored_views(entries@),
            dirs == dir_count(all.take(i as int)),
            files + dirs == i,
    {
        assert(all.take(i + 1).drop_last() =~= all.take(i as int));
        assert(all.take(i + 1).last() == entries@[i as int]@);
        if entries[i].is_dir {
            dirs = dirs + 1;
        } else {
            files = files + 1;
        }
    }
    assert(all.take(all.len() as int) =~= all);
    assert(all.len() == entries@.len());
    RefreshSummary { entries: entries.len(), files, dirs, completed_at }
}

/// What is kept on disk of a workspace as a whole.
pub struct WorkspaceMeta {
    pub schema_version: u32,
    pub workspace_root: String,
    pub saved_at: u64,
    pub scan_complete: bool,
    pub indexed_entries_count: usize,
    pub indexed_files_count: usize,
    pub indexed_dirs_count: usize,
    pub last_full_scan_at: Option<u64>,
    pub content_index_enabled: bool,
    pub content_index_status: String,
    pub content_index_zones: Vec<String>,
    pub content_index_partial: bool,
    pub indexed_content_files: usize,
    pub indexed_content_bytes: u64,
}

/// What is wrong with what is kept on disk: it has another version, or is of
/// another workspace.
pub open spec fn meta_error(meta: WorkspaceMeta, root: Seq<char>, ignore_case: bool) -> Option<
    Seq<char>,
> {
    if meta.schema_version != INDEX_SCHEMA_VERSION {
        Some(
            "unsupported_schema_version: got="@ + decimal(meta.schema_version as nat)
                + ", expected="@ + decimal(INDEX_SCHEMA_VERSION as nat),
        )
    } else if meta.workspace_root@ != identity(root, ignore_case) {
        Some("workspace_mismatch"@)
    } else {
        None
    }
}

/// Checks that what is kept on disk can be taken up.
pub fn check_meta(meta: &WorkspaceMeta, workspace_root: &str, ignore_case: bool) -> (r: Result<
    (),
    String,
>)
    ensures
        (match r {
            Ok(_) => None,
            Err(e) => Some(e@),
        }) == meta_error(*meta, workspace_root@, ignore_case),
        r is Ok <==> meta.schema_version == 1 && meta.workspace_root@ == identity(
            workspace_root@,
            ignore_case,
        ),
{
    if meta.schema_version != INDEX_SCHEMA_VERSION {
        let mut text = "unsupported_schema_version: got=".to_owned();
        let got = u64_decimal(meta.schema_version as u64);
        let expected = u64_decimal(INDEX_SCHEMA_VERSION as u64);
        text.append(got.as_str());
        text.append(", expected=");
        text.append(expected.as_str());
        return Err(text);
    }
    let key = normalize_path_for_identity(workspace_root, ignore_case);
    if !str_eq(meta.workspace_root.as_str(), key.as_str()) {
        return Err("workspace_mismatch".to_owned());
    }
    Ok(())
}

} // verus!
