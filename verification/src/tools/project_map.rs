//! The tree of a directory, within limits.

use vstd::prelude::*;

use crate::lines::{split, str_split};
use crate::paths::{
    below, file_name, file_name_of, normalize_display_path, parent_of, parent_path, parts_of,
    same_path, shown_path, strip_prefix,
};
use crate::sorted::{ascending, insert_new, text_set};
use crate::sorted_map::SortedMap;
use crate::text::{str_trim, trim, views};
use crate::tools::compare_directories::{arg_usize, clamped};
use crate::tools::path_filters::{
    any_value_matches, compile_patterns, is_hit, law_hit, matches_any_pattern, parse_pattern_strings,
    patterns_error, trimmed_patterns,
};

verus! {

/// How many entries of a directory are listed where the caller does not say.
pub const DEFAULT_MAX_CHILDREN_PER_DIR: usize = 250;

/// How many entries of a directory are listed at most.
pub const MAX_CHILDREN_PER_DIR_LIMIT: usize = 5_000;

/// How many entries are listed in all.
pub const MAX_TOTAL_ENTRIES: usize = 20_000;

/// How many of the directories that were cut are named.
pub const MAX_NAMED_DIRECTORIES: usize = 50;

/// The texts of an entry that patterns are held against: its path below the
/// directory, its whole path, and its name.
pub open spec fn filter_texts(path: Seq<char>, relative: Seq<char>) -> Seq<Seq<char>> {
    seq![
        relative,
        shown_path(path),
        match file_name_of(path) {
            Some(name) => name,
            None => Seq::empty(),
        },
    ]
}

/// The name of a path; empty where it has none.
pub open spec fn name_or_none(path: Seq<char>) -> Seq<char> {
    match file_name_of(path) {
        Some(name) => name,
        None => Seq::empty(),
    }
}

/// One of the patterns matches the entry.
pub open spec fn entry_matches(
    path: Seq<char>,
    relative: Seq<char>,
    patterns: Seq<Seq<char>>,
) -> bool {
    any_value_matches(filter_texts(path, relative), patterns)
}

/// Whether one of the patterns matches an entry.
pub fn matches_patterns(path: &str, relative: &str, patterns: &[String]) -> (r: bool)
    ensures
        r == entry_matches(path@, relative@, views(patterns@)),
{
    let name: String = match file_name(path) {
        Some(name) => name,
        None => String::new(),
    };
    assert(file_name_of(path@) is None ==> name@ =~= Seq::<char>::empty());
    let values: Vec<String> = vec![relative.to_owned(), normalize_display_path(path), name];
    assert(views(values@) =~= filter_texts(path@, relative@));
    matches_any_pattern(values.as_slice(), patterns)
}

/// The entry is among those that are taken in, where there are such patterns,
/// and not among those that are left out.
pub open spec fn entry_passes(
    path: Seq<char>,
    relative: Seq<char>,
    includes: Seq<Seq<char>>,
    excludes: Seq<Seq<char>>,
) -> bool {
    (includes.len() == 0 || entry_matches(path, relative, includes)) && !entry_matches(
        path,
        relative,
        excludes,
    )
}

/// Whether an entry is taken in and not left out.
pub fn passes_patterns(
    path: &str,
    relative: &str,
    includes: &[String],
    excludes: &[String],
) -> (r: bool)
    ensures
        r == entry_passes(path@, relative@, views(includes@), views(excludes@)),
        r == ((includes@.len() == 0 || is_hit(
            relative@,
            shown_path(path@),
            name_or_none(path@),
            views(includes@),
        )) && !is_hit(relative@, shown_path(path@), name_or_none(path@), views(excludes@))),
{
    proof {
        law_hit(relative@, shown_path(path@), name_or_none(path@), views(includes@));
        law_hit(relative@, shown_path(path@), name_or_none(path@), views(excludes@));
    }
    assert(views(includes@).len() == includes@.len());
    if includes.len() > 0 && !matches_patterns(path, relative, includes) {
        return false;
    }
    !matches_patterns(path, relative, excludes)
}

/// The path below the directory; the whole path where it does not lie below it.
pub open spec fn relative_of(path: Seq<char>, root: Seq<char>) -> Seq<char> {
    if below(path, root) is Some && shown_path(below(path, root)->0).len() > 0 {
        shown_path(below(path, root)->0)
    } else {
        shown_path(path)
    }
}

/// The path below the directory.
pub fn relative_path(path: &str, root: &str) -> (r: String)
    ensures
        r@ == relative_of(path@, root@),
{
    if let Some(rest) = strip_prefix(path, root) {
        let shown = normalize_display_path(rest.as_str());
        if !shown.as_str().is_empty() {
            return shown;
        }
    }
    normalize_display_path(path)
}

/// How many of the parts are not empty.
pub open spec fn full_parts(parts: Seq<Seq<char>>) -> nat
    decreases parts.len(),
{
    if parts.len() == 0 {
        0
    } else {
        full_parts(parts.drop_last()) + if parts.last().len() > 0 {
            1nat
        } else {
            0nat
        }
    }
}

/// How deep a path lies below the directory.
pub fn relative_depth(relative: &str) -> (r: usize)
    ensures
        r == full_parts(split(relative@, '/')),
{
    let parts = str_split(relative, '/');
    let ghost all = split(relative@, '/');
    let mut count: usize = 0;
    assert(all.take(0) =~= Seq::<Seq<char>>::empty());
    for i in 0..parts.len()
        invariant
            views(parts@) == all,
            count <= i,
            count == full_parts(all.take(i as int)),
    {
        assert(all.take(i + 1).drop_last() =~= all.take(i as int));
        assert(all.take(i + 1).last() == parts@[i as int]@);
        if !parts[i].as_str().is_empty() {
            count = count + 1;
        }
    }
    assert(views(parts@).len() == parts@.len());
    assert(all.take(all.len() as int) =~= all);
    count
}

/// A walk goes into the directory: it is the root, or none of the patterns
/// leaves it out. A walk comes to every file.
pub fn enters_directory(excludes: &[String], root: &str, path: &str, is_dir: bool) -> (r: bool)
    ensures
        r == (parts_of(path@) == parts_of(root@) || !is_dir || !entry_matches(
            path@,
            relative_of(path@, root@),
            views(excludes@),
        )),
{
    if same_path(path, root) || !is_dir {
        return true;
    }
    let relative = relative_path(path, root);
    !matches_patterns(path, relative.as_str(), excludes)
}

/// What a caller asks for.
pub struct MapArgs {
    pub path: Option<String>,
    pub max_depth: Option<u64>,
    pub show_sizes: Option<bool>,
    pub max_children_per_dir: Option<u64>,
    pub includes: Option<Vec<String>>,
    pub excludes: Option<Vec<String>>,
}

/// How the tree is built.
pub struct MapOptions {
    pub max_depth: usize,
    pub show_sizes: bool,
    pub max_children_per_dir: usize,
    pub includes: Vec<String>,
    pub excludes: Vec<String>,
}

/// The patterns of a list that may be missing.
pub open spec fn given_patterns(raw: Option<Vec<String>>) -> Seq<Seq<char>> {
    match raw {
        Some(list) => trimmed_patterns(views(list@)),
        None => Seq::empty(),
    }
}

/// What is wrong with what is asked for: the path is missing or no directory, or
/// a pattern is none.
pub open spec fn map_error(args: MapArgs, is_dir: bool) -> Option<Seq<char>> {
    if args.path is None || trim(args.path->0@).len() == 0 {
        Some("Missing path"@)
    } else if !is_dir {
        Some("Path is not a valid directory: "@ + args.path->0@)
    } else if patterns_error(given_patterns(args.includes)) is Some {
        patterns_error(given_patterns(args.includes))
    } else {
        patterns_error(given_patterns(args.excludes))
    }
}

/// The options are those for what was asked for.
pub open spec fn is_map_options(args: MapArgs, r: MapOptions) -> bool {
    &&& r.max_depth == (match args.max_depth {
        Some(n) => if n <= usize::MAX {
            n as int
        } else {
            usize::MAX as int
        },
        None => 3,
    })
    &&& r.show_sizes == (args.show_sizes == Some(true))
    &&& r.max_children_per_dir == clamped(
        args.max_children_per_dir,
        DEFAULT_MAX_CHILDREN_PER_DIR,
        1,
        MAX_CHILDREN_PER_DIR_LIMIT,
    )
    &&& views(r.includes@) == given_patterns(args.includes)
    &&& views(r.excludes@) == given_patterns(args.excludes)
}

/// Checks what is asked for; `is_dir` says that the path leads to a directory.
/// A depth that the machine does not hold is its deepest.
pub fn map_options(args: &MapArgs, is_dir: bool) -> (r: Result<MapOptions, String>)
    ensures
        match r {
            Err(e) => map_error(*args, is_dir) == Some(e@),
            Ok(options) => map_error(*args, is_dir) is None && is_map_options(*args, options),
        },
{
    let path: &String = match &args.path {
        Some(path) => path,
        None => return Err("Missing path".to_owned()),
    };
    if str_trim(path.as_str()).as_str().is_empty() {
        return Err("Missing path".to_owned());
    }
    if !is_dir {
        let mut text = "Path is not a valid directory: ".to_owned();
        text.append(path.as_str());
        return Err(text);
    }
    let includes = parse_pattern_strings(&args.includes);
    let excludes = parse_pattern_strings(&args.excludes);
    if let Err(e) = compile_patterns(includes.as_slice()) {
        return Err(e);
    }
    if let Err(e) = compile_patterns(excludes.as_slice()) {
        return Err(e);
    }
    let max_depth: usize = match args.max_depth {
        Some(n) => if n <= usize::MAX as u64 {
            n as usize
        } else {
            usize::MAX
        },
        None => 3,
    };
    let show_sizes = match args.show_sizes {
        Some(b) => b,
        None => false,
    };
    Ok(
        MapOptions {
            max_depth,
            show_sizes,
            max_children_per_dir: arg_usize(
                args.max_children_per_dir,
                DEFAULT_MAX_CHILDREN_PER_DIR,
                1,
                MAX_CHILDREN_PER_DIR_LIMIT,
            ),
            includes,
            excludes,
        },
    )
}

/// An entry below the directory.
pub struct MapEntry {
    pub path: String,
    pub name: String,
    pub is_dir: bool,
    pub size: u64,
}

/// An entry of the tree; its size where it is shown.
pub struct TreeItem {
    pub name: String,
    pub kind: &'static str,
    pub size: Option<u64>,
}

/// An entry of the tree.
pub struct Item {
    pub name: Seq<char>,
    pub kind: Seq<char>,
    pub size: Option<u64>,
}

impl View for TreeItem {
    type V = Item;

    open spec fn view(&self) -> Item {
        Item { name: self.name@, kind: self.kind@, size: self.size }
    }
}

/// The entries of the tree.
pub open spec fn item_views(items: Seq<TreeItem>) -> Seq<Item> {
    Seq::new(items.len(), |i: int| items[i]@)
}

/// The tree: the entries of each directory.
pub open spec fn tree_view(tree: Map<Seq<char>, Vec<TreeItem>>) -> Map<Seq<char>, Seq<Item>> {
    Map::new(|k: Seq<char>| tree.contains_key(k), |k: Seq<char>| item_views(tree[k]@))
}

/// How far the tree is built.
pub struct Mapped {
    pub tree: Map<Seq<char>, Seq<Item>>,
    pub children: Map<Seq<char>, usize>,
    pub truncated: Set<Seq<char>>,
    pub seen: nat,
    pub returned: nat,
    pub skipped: nat,
    pub full: bool,
}

/// Nothing of the tree is built.
pub open spec fn empty_map() -> Mapped {
    Mapped {
        tree: Map::empty(),
        children: Map::empty(),
        truncated: Set::empty(),
        seen: 0,
        returned: 0,
        skipped: 0,
        full: false,
    }
}

/// The entry of the tree for an entry below the directory.
pub open spec fn item_of(entry: MapEntry, show_sizes: bool) -> Item {
    Item {
        name: entry.name@,
        kind: if entry.is_dir {
            "dir"@
        } else {
            "file"@
        },
        size: if show_sizes && !entry.is_dir {
            Some(entry.size)
        } else {
            None
        },
    }
}

/// The directory of an entry.
pub open spec fn parent_key(path: Seq<char>) -> Seq<char> {
    match parent_of(path) {
        Some(parent) => shown_path(parent),
        None => Seq::empty(),
    }
}

/// How many entries of a directory were seen.
pub open spec fn children_of(m: Mapped, parent: Seq<char>) -> int {
    if m.children.contains_key(parent) {
        m.children[parent] as int
    } else {
        0
    }
}

/// Where the entries come from: `root` is the directory as it was named,
/// `canonical` where it leads; the index, unlike a walk, does not keep to the
/// depth.
pub struct MapSource {
    pub root: String,
    pub canonical: String,
    pub by_index: bool,
}

/// The entry is the directory itself, or lies too deep.
pub open spec fn is_outside(options: MapOptions, source: MapSource, entry: MapEntry) -> bool {
    let rel = relative_of(entry.path@, source.canonical@);
    if source.by_index {
        parts_of(entry.path@) == parts_of(source.canonical@) || rel.len() == 0 || full_parts(
            split(rel, '/'),
        ) > options.max_depth
    } else {
        parts_of(entry.path@) == parts_of(source.root@)
    }
}

/// How far the tree is built after one more entry.
pub open spec fn mapped_next(
    m: Mapped,
    options: MapOptions,
    source: MapSource,
    entry: MapEntry,
) -> Mapped {
    let rel = relative_of(entry.path@, source.canonical@);
    let parent = parent_key(entry.path@);
    if m.full || is_outside(options, source, entry) {
        m
    } else if !entry_passes(
        entry.path@,
        rel,
        views(options.includes@),
        views(options.excludes@),
    ) {
        Mapped { skipped: m.skipped + 1, ..m }
    } else if m.returned >= MAX_TOTAL_ENTRIES {
        Mapped { seen: m.seen + 1, full: true, ..m }
    } else {
        let count = children_of(m, parent) + 1;
        let counted = Mapped {
            seen: m.seen + 1,
            children: m.children.insert(parent, count as usize),
            ..m
        };
        if count > options.max_children_per_dir {
            Mapped { truncated: m.truncated.insert(parent), ..counted }
        } else {
            let items = if m.tree.contains_key(parent) {
                m.tree[parent]
            } else {
                Seq::empty()
            };
            Mapped {
                tree: m.tree.insert(parent, items.push(item_of(entry, options.show_sizes))),
                returned: m.returned + 1,
                ..counted
            }
        }
    }
}

/// How far the tree is built after the first `n` entries.
pub open spec fn mapped(
    options: MapOptions,
    source: MapSource,
    entries: Seq<MapEntry>,
    n: int,
) -> Mapped
    decreases n,
{
    if n <= 0 {
        empty_map()
    } else {
        mapped_next(mapped(options, source, entries, n - 1), options, source, entries[n - 1])
    }
}

/// The tree of a directory, with what was left out of it.
pub struct ProjectMap {
    pub tree: SortedMap<Vec<TreeItem>>,
    pub entries_visited: usize,
    pub entries_seen: usize,
    pub entries_returned: usize,
    pub entries_skipped_by_patterns: usize,
    pub total_entries_truncated: bool,
    pub truncated_directory_count: usize,
    pub truncated_directories: Vec<String>,
    pub limit_reached: bool,
    pub limit_reason: Option<&'static str>,
    pub warnings: Vec<String>,
}

/// What a limit left out, where one did.
pub open spec fn limit_of(m: Mapped) -> Option<Seq<char>> {
    if m.full {
        Some("max_total_entries"@)
    } else if !m.truncated.is_empty() {
        Some("max_children_per_dir"@)
    } else {
        None
    }
}

/// The advice for a large tree.
pub open spec fn large_tree_words() -> Seq<char> {
    "Large indexed tree detected; prefer a module path plus max_depth <= 2 and max_children_per_dir <= 100 for Chromium-sized workspaces."@
}

/// The tree is large, and much of it is asked for.
pub open spec fn is_large(options: MapOptions, source: MapSource, visited: int) -> bool {
    source.by_index && visited >= 200_000 && (options.max_depth > 2
        || options.max_children_per_dir > 100)
}

/// How many entries were looked at until there were enough.
pub open spec fn visited(
    options: MapOptions,
    source: MapSource,
    entries: Seq<MapEntry>,
    n: int,
) -> nat
    decreases n,
{
    if n <= 0 {
        0
    } else if mapped(options, source, entries, n - 1).full {
        visited(options, source, entries, n - 1)
    } else {
        visited(options, source, entries, n - 1) + 1
    }
}

/// Puts an entry in its place in the tree.
fn place_item(tree: &mut SortedMap<Vec<TreeItem>>, parent: &str, item: TreeItem)
    requires
        old(tree).wf(),
    ensures
        final(tree).wf(),
        ({
            let before = tree_view(old(tree)@);
            tree_view(final(tree)@) == before.insert(
                parent@,
                (if before.contains_key(parent@) {
                    before[parent@]
                } else {
                    Seq::empty()
                }).push(item@),
            )
        }),
{
    let ghost before = tree@;
    let ghost shown = item@;
    let ghost whole = item;
    tree.push_to(parent, item);
    proof {
        let after = tree_view(tree@);
        let wanted = tree_view(before).insert(
            parent@,
            (if tree_view(before).contains_key(parent@) {
                tree_view(before)[parent@]
            } else {
                Seq::empty()
            }).push(shown),
        );
        if before.contains_key(parent@) {
            assert(item_views(tree@[parent@]@) =~= item_views(before[parent@]@).push(shown));
        } else {
            assert(item_views(tree@[parent@]@) =~= Seq::<Item>::empty().push(shown));
        }
        assert forall|k: Seq<char>| #[trigger] after.contains_key(k) implies after[k]
            == wanted[k] by {
            if k != parent@ {
                assert(tree@[k] == before[k]);
            }
        }
        assert(after =~= wanted);
    }
}

/// Builds the tree of a directory from its entries.
pub fn build_project_map(options: &MapOptions, source: &MapSource, entries: &[MapEntry]) -> (r:
    ProjectMap)
    ensures
        ({
            let m = mapped(*options, *source, entries@, entries@.len() as int);
            &&& r.tree.wf()
            &&& tree_view(r.tree@) == m.tree
            &&& r.entries_visited == visited(
                *options,
                *source,
                entries@,
                entries@.len() as int,
            )
            &&& r.entries_seen == m.seen
            &&& r.entries_returned == m.returned
            &&& r.entries_skipped_by_patterns == m.skipped
            &&& r.total_entries_truncated == m.full
            &&& exists|all: Seq<Seq<char>>|
                #![trigger ascending(all)]
                ascending(all) && (forall|d: Seq<char>| all.contains(d) <==> m.truncated.contains(
                    d,
                )) && r.truncated_directory_count == all.len() && views(r.truncated_directories@)
                    == (if all.len() > MAX_NAMED_DIRECTORIES {
                    all.take(MAX_NAMED_DIRECTORIES as int)
                } else {
                    all
                })
            &&& r.limit_reached == limit_of(m) is Some
            &&& (match r.limit_reason {
                Some(s) => Some(s@),
                None => None,
            }) == limit_of(m)
            &&& views(r.warnings@) == (if is_large(
                *options,
                *source,
                visited(*options, *source, entries@, entries@.len() as int) as int,
            ) {
                seq![large_tree_words()]
            } else {
                Seq::empty()
            })
        }),
        map_shows(tree_view(r.tree@), *options, *source, entries@),
        r.limit_reached == (r.total_entries_truncated || r.truncated_directory_count > 0),
        !r.limit_reached ==> map_shows_all(tree_view(r.tree@), *options, *source, entries@),
{
    let mut tree: SortedMap<Vec<TreeItem>> = SortedMap::new();
    let mut children: SortedMap<usize> = SortedMap::new();
    let mut truncated: Vec<String> = Vec::new();
    let mut seen: usize = 0;
    let mut returned: usize = 0;
    let mut skipped: usize = 0;
    let mut looked: usize = 0;
    let mut full = false;
    assert(tree_view(tree@) =~= Map::<Seq<char>, Seq<Item>>::empty());
    assert(text_set(truncated@) =~= Set::<Seq<char>>::empty());
    for i in 0..entries.len()
        invariant
            tree.wf(),
            children.wf(),
            ascending(views(truncated@)),
            seen <= i,
            returned <= i,
            skipped <= i,
            looked <= i,
            looked == visited(*options, *source, entries@, i as int),
            forall|k: Seq<char>| #[trigger] children@.contains_key(k) ==> children@[k] <= i,
            mapped(*options, *source, entries@, i as int) == (Mapped {
                tree: tree_view(tree@),
                children: children@,
                truncated: text_set(truncated@),
                seen: seen as nat,
                returned: returned as nat,
                skipped: skipped as nat,
                full,
            }),
    {
        if !full {
            looked = looked + 1;
            let entry = &entries[i];
            let path = entry.path.as_str();
            let rel = relative_path(path, source.canonical.as_str());
            let outside = if source.by_index {
                same_path(path, source.canonical.as_str()) || rel.as_str().is_empty()
                    || relative_depth(rel.as_str()) > options.max_depth
            } else {
                same_path(path, source.root.as_str())
            };
            if !outside {
                if !passes_patterns(
                    path,
                    rel.as_str(),
                    options.includes.as_slice(),
                    options.excludes.as_slice(),
                ) {
                    skipped = skipped + 1;
                } else {
                    seen = seen + 1;
                    if returned >= MAX_TOTAL_ENTRIES {
                        full = true;
                    } else {
                        let parent: String = match parent_path(path) {
                            Some(parent) => normalize_display_path(parent.as_str()),
                            None => String::new(),
                        };
                        assert(parent@ =~= parent_key(path@));
                        let known: usize = match children.get(parent.as_str()) {
                            Some(n) => *n,
                            None => 0,
                        };
                        let count: usize = known + 1;
                        children.insert(parent.as_str(), count);
                        if count > options.max_children_per_dir {
                            let _new = insert_new(&mut truncated, parent.as_str());
                        } else {
                            let item = TreeItem {
                                name: entry.name.clone(),
                                kind: if entry.is_dir {
                                    "dir"
                                } else {
                                    "file"
                                },
                                size: if options.show_sizes && !entry.is_dir {
                                    Some(entry.size)
                                } else {
                                    None
                                },
                            };
                            place_item(&mut tree, parent.as_str(), item);
                            returned = returned + 1;
                        }
                    }
                }
            }
        }
    }
    let ghost m = mapped(*options, *source, entries@, entries@.len() as int);
    let ghost all = views(truncated@);
    let truncated_directory_count: usize = truncated.len();
    proof {
        assert forall|d: Seq<char>| all.contains(d) <==> m.truncated.contains(d) by {}
        if truncated_directory_count > 0 {
            assert(all.contains(all[0]));
            assert(m.truncated.contains(all[0]));
        } else {
            assert(m.truncated =~= Set::<Seq<char>>::empty());
        }
    }
    if truncated.len() > MAX_NAMED_DIRECTORIES {
        truncated.truncate(MAX_NAMED_DIRECTORIES);
        assert(views(truncated@) =~= all.take(MAX_NAMED_DIRECTORIES as int));
    }
    let mut warnings: Vec<String> = Vec::new();
    assert(views(warnings@) =~= Seq::<Seq<char>>::empty());
    if source.by_index && looked >= 200_000 && (options.max_depth > 2
        || options.max_children_per_dir > 100) {
        warnings.push(
            "Large indexed tree detected; prefer a module path plus max_depth <= 2 and max_children_per_dir <= 100 for Chromium-sized workspaces.".to_owned(),
        );
        assert(views(warnings@) =~= seq![large_tree_words()]);
    }
    let limit_reason: Option<&'static str> = if full {
        Some("max_total_entries")
    } else if truncated_directory_count > 0 {
        Some("max_children_per_dir")
    } else {
        None
    };
    assert(ascending(all));
    proof {
        let end = entries@.len() as int;
        assert(map_shows(m.tree, *options, *source, entries@)) by {
            assert forall|d: Seq<char>, i: int|
                #![trigger m.tree[d][i]]
                m.tree.contains_key(d) && 0 <= i < m.tree[d].len() implies comes_from(
                m.tree[d][i],
                d,
                *options,
                *source,
                entries@,
                end,
            ) by {
                law_map_shows(*options, *source, entries@, end, d, i);
            }
        }
        if !full && truncated_directory_count == 0 {
            assert(map_shows_all(m.tree, *options, *source, entries@)) by {
                assert forall|k: int|
                    0 <= k < entries@.len() && #[trigger] belongs(*options, *source, entries@[k])
                    implies is_shown(m.tree, *options, entries@[k]) by {
                    law_map_complete(*options, *source, entries@, end, k);
                }
            }
        }
        assert(tree_view(tree@) == m.tree);
    }
    ProjectMap {
        tree,
        entries_visited: looked,
        entries_seen: seen,
        entries_returned: returned,
        entries_skipped_by_patterns: skipped,
        total_entries_truncated: full,
        truncated_directory_count,
        truncated_directories: truncated,
        limit_reached: truncated_directory_count > 0 || full,
        limit_reason,
        warnings,
    }
}

/// No more entries are listed than the limits allow, neither in all nor of one
/// directory, and none without having been seen.
pub proof fn law_map_bounded(
    options: MapOptions,
    source: MapSource,
    entries: Seq<MapEntry>,
    n: int,
)
    requires
        0 <= n <= entries.len() <= usize::MAX,
    ensures
        ({
            let m = mapped(options, source, entries, n);
            &&& m.returned <= MAX_TOTAL_ENTRIES
            &&& m.returned <= m.seen
            &&& m.seen + m.skipped <= n
            &&& forall|d: Seq<char>| #[trigger]
                m.tree.contains_key(d) ==> m.tree[d].len() <= options.max_children_per_dir
                    && m.tree[d].len() <= children_of(m, d)
            &&& forall|d: Seq<char>| #[trigger] m.children.contains_key(d) ==> m.children[d] <= n
        }),
    decreases n,
{
    if n > 0 {
        law_map_bounded(options, source, entries, n - 1);
        let before = mapped(options, source, entries, n - 1);
        let after = mapped(options, source, entries, n);
        let parent = parent_key(entries[n - 1].path@);
        assert forall|d: Seq<char>| #[trigger] after.tree.contains_key(d) implies after.tree[d].len()
            <= options.max_children_per_dir && after.tree[d].len() <= children_of(after, d) by {
            if before.tree.contains_key(d) {
                assert(before.tree[d].len() <= children_of(before, d));
            }
        }
    }
}

/// Whether an entry belongs on the map: it is not the root, nor too deep below it, and the
/// patterns take it in.
pub open spec fn belongs(options: MapOptions, source: MapSource, entry: MapEntry) -> bool {
    let rel = relative_of(entry.path@, source.canonical@);
    &&& if source.by_index {
        parts_of(entry.path@) != parts_of(source.canonical@) && rel.len() > 0 && full_parts(
            split(rel, '/'),
        ) <= options.max_depth
    } else {
        parts_of(entry.path@) != parts_of(source.root@)
    }
    &&& options.includes@.len() == 0 || is_hit(
        rel,
        shown_path(entry.path@),
        name_or_none(entry.path@),
        views(options.includes@),
    )
    &&& !is_hit(
        rel,
        shown_path(entry.path@),
        name_or_none(entry.path@),
        views(options.excludes@),
    )
}

/// The item shows the entry, which stands in the directory.
pub open spec fn shows_entry(
    item: Item,
    directory: Seq<char>,
    options: MapOptions,
    entry: MapEntry,
) -> bool {
    &&& item.name == entry.name@
    &&& entry.is_dir ==> item.kind == "dir"@ && item.size is None
    &&& !entry.is_dir ==> item.kind == "file"@ && (item.size == if options.show_sizes {
        Some(entry.size)
    } else {
        None
    })
    &&& parent_of(entry.path@) matches Some(parent) ==> directory == shown_path(parent)
}

/// The item shows one of the first `n` entries, which belongs on the map.
pub open spec fn comes_from(
    item: Item,
    directory: Seq<char>,
    options: MapOptions,
    source: MapSource,
    entries: Seq<MapEntry>,
    n: int,
) -> bool {
    exists|k: int|
        0 <= k < n && #[trigger] belongs(options, source, entries[k]) && shows_entry(
            item,
            directory,
            options,
            entries[k],
        )
}

/// Every item on the map shows an entry that belongs there, under its directory.
pub open spec fn map_shows(
    tree: Map<Seq<char>, Seq<Item>>,
    options: MapOptions,
    source: MapSource,
    entries: Seq<MapEntry>,
) -> bool {
    forall|d: Seq<char>, i: int|
        #![trigger tree[d][i]]
        tree.contains_key(d) && 0 <= i < tree[d].len() ==> comes_from(
            tree[d][i],
            d,
            options,
            source,
            entries,
            entries.len() as int,
        )
}

/// An item on the map shows the entry.
pub open spec fn is_shown(
    tree: Map<Seq<char>, Seq<Item>>,
    options: MapOptions,
    entry: MapEntry,
) -> bool {
    let d = parent_key(entry.path@);
    tree.contains_key(d) && exists|i: int|
        0 <= i < tree[d].len() && shows_entry(#[trigger] tree[d][i], d, options, entry)
}

/// Every entry that belongs on the map is shown there.
pub open spec fn map_shows_all(
    tree: Map<Seq<char>, Seq<Item>>,
    options: MapOptions,
    source: MapSource,
    entries: Seq<MapEntry>,
) -> bool {
    forall|k: int|
        0 <= k < entries.len() && #[trigger] belongs(options, source, entries[k]) ==> is_shown(
            tree,
            options,
            entries[k],
        )
}

/// The entries that are skipped are those that do not belong, and the others are shown.
proof fn lemma_belongs(options: MapOptions, source: MapSource, entry: MapEntry)
    ensures
        belongs(options, source, entry) == (!is_outside(options, source, entry) && entry_passes(
            entry.path@,
            relative_of(entry.path@, source.canonical@),
            views(options.includes@),
            views(options.excludes@),
        )),
        shows_entry(
            item_of(entry, options.show_sizes),
            parent_key(entry.path@),
            options,
            entry,
        ),
{
    let rel = relative_of(entry.path@, source.canonical@);
    let name = name_or_none(entry.path@);
    law_hit(rel, shown_path(entry.path@), name, views(options.includes@));
    law_hit(rel, shown_path(entry.path@), name, views(options.excludes@));
}

/// Every item on the map shows an entry that belongs there, under its directory.
pub proof fn law_map_shows(
    options: MapOptions,
    source: MapSource,
    entries: Seq<MapEntry>,
    n: int,
    d: Seq<char>,
    i: int,
)
    requires
        0 <= n <= entries.len(),
        mapped(options, source, entries, n).tree.contains_key(d),
        0 <= i < mapped(options, source, entries, n).tree[d].len(),
    ensures
        comes_from(
            mapped(options, source, entries, n).tree[d][i],
            d,
            options,
            source,
            entries,
            n,
        ),
    decreases n,
{
    if n > 0 {
        let before = mapped(options, source, entries, n - 1);
        let after = mapped(options, source, entries, n);
        let entry = entries[n - 1];
        lemma_belongs(options, source, entry);
        if before.tree.contains_key(d) && i < before.tree[d].len() {
            law_map_shows(options, source, entries, n - 1, d, i);
            let item = before.tree[d][i];
            let k = choose|k: int|
                0 <= k < n - 1 && #[trigger] belongs(options, source, entries[k]) && shows_entry(
                    item,
                    d,
                    options,
                    entries[k],
                );
            assert(belongs(options, source, entries[k]));
            assert(after.tree[d][i] == item);
        } else {
            assert(belongs(options, source, entries[n - 1]));
        }
    }
}

/// Where no limit was reached, every entry that belongs on the map is shown there.
pub proof fn law_map_complete(
    options: MapOptions,
    source: MapSource,
    entries: Seq<MapEntry>,
    n: int,
    k: int,
)
    requires
        0 <= k < n <= entries.len(),
        !mapped(options, source, entries, n).full,
        !mapped(options, source, entries, n).truncated.contains(parent_key(entries[k].path@)),
        belongs(options, source, entries[k]),
    ensures
        ({
            let m = mapped(options, source, entries, n);
            let d = parent_key(entries[k].path@);
            m.tree.contains_key(d) && exists|i: int|
                0 <= i < m.tree[d].len() && shows_entry(
                    #[trigger] m.tree[d][i],
                    d,
                    options,
                    entries[k],
                )
        }),
    decreases n,
{
    let before = mapped(options, source, entries, n - 1);
    let after = mapped(options, source, entries, n);
    let d = parent_key(entries[k].path@);
    lemma_belongs(options, source, entries[n - 1]);
    if k == n - 1 {
        let last = after.tree[d].len() - 1;
        assert(after.tree[d][last] == item_of(entries[k], options.show_sizes));
    } else {
        law_map_complete(options, source, entries, n - 1, k);
        let i = choose|i: int|
            0 <= i < before.tree[d].len() && shows_entry(
                #[trigger] before.tree[d][i],
                d,
                options,
                entries[k],
            );
        assert(after.tree[d][i] == before.tree[d][i]);
    }
}

} // verus!
