//! Which workspaces are indexed: those that the client names, and those that the
//! arguments of its calls lie in.

use vstd::prelude::*;

use crate::common::{
    ancestors, ancestors_of, canonical_or_normal, canonicalize_if_exists, fact_of, input_path,
    is_directory, is_known_directory, is_workspace_root, keys_distinct, law_with_path_distinct,
    looks_like_workspace_root, lookup, nearest_root, nearest_workspace_root, path_from_input,
    push_unique_path, resolve_tool_path, tool_path, uri_path, uri_to_path, with_path, PathFact,
};
use crate::indexer::runtime::{indexed_root, indexed_workspace_root_for_path, IndexState};
use crate::json::{as_text, field_of, items_of, lemma_item_smaller, text_of, Json};
use crate::paths::{parent_of, parent_path};
use crate::text::{contains, opt_view, str_contains, str_eq, views};

verus! {

/// The path that the address of a root means: that of a file, or a plain path.
pub open spec fn root_path(uri: Seq<char>) -> Option<Seq<char>> {
    match uri_path(uri) {
        Some(path) => Some(path),
        None => if contains(uri, "://"@) {
            None
        } else {
            Some(uri)
        },
    }
}

/// The path that the address of a root means.
pub fn root_uri_to_path(uri: &str) -> (r: Option<String>)
    ensures
        opt_view(r) == root_path(uri@),
{
    match uri_to_path(uri) {
        Some(path) => Some(path),
        None => if str_contains(uri, "://") {
            None
        } else {
            Some(uri.to_owned())
        },
    }
}

/// The roots with the one that an address means.
pub open spec fn with_uri(
    roots: Seq<Seq<char>>,
    uri: Option<Json>,
    ignore_case: bool,
) -> Seq<Seq<char>> {
    match text_of(uri) {
        Some(text) => match root_path(text) {
            Some(path) => with_path(roots, path, ignore_case),
            None => roots,
        },
        None => roots,
    }
}

/// The roots with those of the first `n` items.
pub open spec fn with_uris(
    roots: Seq<Seq<char>>,
    items: Seq<Json>,
    n: int,
    ignore_case: bool,
) -> Seq<Seq<char>>
    decreases n,
{
    if n <= 0 {
        roots
    } else {
        with_uri(
            with_uris(roots, items, n - 1, ignore_case),
            field_of(items[n - 1], "uri"@),
            ignore_case,
        )
    }
}

/// The roots that a client names when it begins.
pub open spec fn named_roots(params: Json, ignore_case: bool) -> Seq<Seq<char>> {
    let own = match field_of(params, "clientInfo"@) {
        Some(info) => text_of(field_of(info, "workspaceRoot"@)),
        None => None,
    };
    let first = match own {
        Some(raw) => with_path(Seq::empty(), input_path(raw), ignore_case),
        None => Seq::empty(),
    };
    let listed = items_of(field_of(params, "roots"@));
    let second = with_uris(first, listed, listed.len() as int, ignore_case);
    let third = with_uri(second, field_of(params, "rootUri"@), ignore_case);
    let folders = items_of(field_of(params, "workspaceFolders"@));
    with_uris(third, folders, folders.len() as int, ignore_case)
}

/// The roots of the items keep the roots distinct.
proof fn lemma_uris_distinct(roots: Seq<Seq<char>>, items: Seq<Json>, n: int, ignore_case: bool)
    requires
        keys_distinct(roots, ignore_case),
    ensures
        keys_distinct(with_uris(roots, items, n, ignore_case), ignore_case),
    decreases n,
{
    if n > 0 {
        lemma_uris_distinct(roots, items, n - 1, ignore_case);
        lemma_uri_distinct(
            with_uris(roots, items, n - 1, ignore_case),
            field_of(items[n - 1], "uri"@),
            ignore_case,
        );
    }
}

/// The root of an address keeps the roots distinct.
proof fn lemma_uri_distinct(roots: Seq<Seq<char>>, uri: Option<Json>, ignore_case: bool)
    requires
        keys_distinct(roots, ignore_case),
    ensures
        keys_distinct(with_uri(roots, uri, ignore_case), ignore_case),
{
    if let Some(text) = text_of(uri) {
        if let Some(path) = root_path(text) {
            law_with_path_distinct(roots, path, ignore_case);
        }
    }
}

/// However often a client names a root, it stands once among those it named.
pub proof fn law_named_once(params: Json, ignore_case: bool)
    ensures
        keys_distinct(named_roots(params, ignore_case), ignore_case),
{
    let own = match field_of(params, "clientInfo"@) {
        Some(info) => text_of(field_of(info, "workspaceRoot"@)),
        None => None,
    };
    let none = Seq::<Seq<char>>::empty();
    let first = match own {
        Some(raw) => with_path(none, input_path(raw), ignore_case),
        None => none,
    };
    if let Some(raw) = own {
        law_with_path_distinct(none, input_path(raw), ignore_case);
    }
    let listed = items_of(field_of(params, "roots"@));
    lemma_uris_distinct(first, listed, listed.len() as int, ignore_case);
    let second = with_uris(first, listed, listed.len() as int, ignore_case);
    lemma_uri_distinct(second, field_of(params, "rootUri"@), ignore_case);
    let third = with_uri(second, field_of(params, "rootUri"@), ignore_case);
    let folders = items_of(field_of(params, "workspaceFolders"@));
    lemma_uris_distinct(third, folders, folders.len() as int, ignore_case);
}

/// Those of the first `n` paths that are directories.
pub open spec fn directories(
    facts: Seq<PathFact>,
    paths: Seq<Seq<char>>,
    n: int,
) -> Seq<Seq<char>>
    decreases n,
{
    if n <= 0 {
        Seq::empty()
    } else {
        let before = directories(facts, paths, n - 1);
        if is_directory(facts, paths[n - 1]) {
            before.push(paths[n - 1])
        } else {
            before
        }
    }
}

/// Adds the root that an address means.
fn push_uri(roots: &mut Vec<String>, uri: Option<&Json>, ignore_case: bool)
    ensures
        views(final(roots)@) == with_uri(
            views(old(roots)@),
            match uri {
                Some(v) => Some(*v),
                None => None,
            },
            ignore_case,
        ),
{
    if let Some(text) = as_text(uri) {
        if let Some(path) = root_uri_to_path(text) {
            push_unique_path(roots, path, ignore_case);
        }
    }
}

/// Adds the roots that the items of a list name.
fn push_uris(roots: &mut Vec<String>, list: Option<&Json>, ignore_case: bool)
    ensures
        ({
            let items = items_of(
                match list {
                    Some(v) => Some(*v),
                    None => None,
                },
            );
            views(final(roots)@) == with_uris(
                views(old(roots)@),
                items,
                items.len() as int,
                ignore_case,
            )
        }),
{
    if let Some(Json::Array(items)) = list {
        let ghost before = views(roots@);
        for i in 0..items.len()
            invariant
                views(roots@) == with_uris(before, items@, i as int, ignore_case),
        {
            push_uri(roots, items[i].get("uri"), ignore_case);
        }
    }
}

/// The directories among the roots that a client names when it begins.
pub fn extract_index_roots(params: &Json, facts: &[PathFact], ignore_case: bool) -> (r: Vec<String>)
    ensures
        ({
            let named = named_roots(*params, ignore_case);
            views(r@) == directories(facts@, named, named.len() as int)
        }),
{
    let mut roots: Vec<String> = Vec::new();
    assert(views(roots@) =~= Seq::<Seq<char>>::empty());
    if let Some(info) = params.get("clientInfo") {
        if let Some(raw) = as_text(info.get("workspaceRoot")) {
            push_unique_path(&mut roots, path_from_input(raw), ignore_case);
        }
    }
    push_uris(&mut roots, params.get("roots"), ignore_case);
    push_uri(&mut roots, params.get("rootUri"), ignore_case);
    push_uris(&mut roots, params.get("workspaceFolders"), ignore_case);
    let ghost named = named_roots(*params, ignore_case);
    assert(views(roots@) == named);
    assert(named.len() == roots@.len());
    let mut out: Vec<String> = Vec::new();
    assert(views(out@) =~= Seq::<Seq<char>>::empty());
    for i in 0..roots.len()
        invariant
            views(roots@) == named,
            views(out@) == directories(facts@, named, i as int),
    {
        assert(views(roots@)[i as int] == roots@[i as int]@);
        if is_known_directory(facts, roots[i].as_str()) {
            let ghost before = views(out@);
            out.push(roots[i].clone());
            assert(views(out@) =~= before.push(named[i as int]));
        }
    }
    out
}

/// Keeps the roots that a client named first.
pub fn capture_roots(kept: &mut Vec<String>, found: Vec<String>)
    ensures
        final(kept)@ == (if old(kept)@.len() == 0 {
            found@
        } else {
            old(kept)@
        }),
{
    if kept.len() == 0 {
        *kept = found;
    }
}

/// A workspace to index, and what named it.
pub struct IndexTarget {
    pub root: String,
    pub source: String,
}

/// The workspaces to index: root and source.
pub open spec fn target_views(targets: Seq<IndexTarget>) -> Seq<(Seq<char>, Seq<char>)> {
    Seq::new(targets.len(), |i: int| (targets[i].root@, targets[i].source@))
}

/// The variable of the environment that names a workspace, and its value.
pub struct EnvRoot {
    pub name: &'static str,
    pub value: Option<String>,
}

/// The first variable from `from` on that is set, and what it names.
pub open spec fn first_set(vars: Seq<EnvRoot>, from: int) -> Option<(Seq<char>, Seq<char>)>
    decreases vars.len() - from,
{
    if from < 0 || from >= vars.len() {
        None
    } else {
        match vars[from].value {
            Some(value) => Some((value@, "env:"@ + vars[from].name@)),
            None => first_set(vars, from + 1),
        }
    }
}

/// The workspace that the environment names.
pub fn explicit_workspace_root(vars: &[EnvRoot]) -> (r: Option<IndexTarget>)
    ensures
        (match r {
            Some(t) => Some((t.root@, t.source@)),
            None => None,
        }) == first_set(vars@, 0),
{
    let mut i: usize = 0;
    while i < vars.len()
        invariant
            i <= vars@.len(),
            first_set(vars@, 0) == first_set(vars@, i as int),
        decreases vars@.len() - i,
    {
        if let Some(value) = &vars[i].value {
            let mut source = "env:".to_owned();
            source.append(vars[i].name);
            return Some(IndexTarget { root: value.clone(), source });
        }
        i += 1;
    }
    None
}

/// The workspaces that are indexed when a client has begun: those it named; else the
/// one that the environment names, where that is a directory; else the current
/// directory, where it looks like a workspace.
pub open spec fn first_targets(
    facts: Seq<PathFact>,
    client: Seq<Seq<char>>,
    explicit: Option<(Seq<char>, Seq<char>)>,
    current: Option<Seq<char>>,
) -> Seq<(Seq<char>, Seq<char>)> {
    if client.len() > 0 {
        Seq::new(client.len(), |i: int| (client[i], "client_initialize"@))
    } else if explicit matches Some((root, _source)) && is_directory(facts, root) {
        seq![explicit->0]
    } else if current matches Some(cwd) && is_workspace_root(facts, cwd) {
        seq![(current->0, "process_current_dir"@)]
    } else {
        Seq::empty()
    }
}

/// The workspaces that are indexed when a client has begun.
pub fn start_targets(
    facts: &[PathFact],
    client: &[String],
    vars: &[EnvRoot],
    current: &Option<String>,
) -> (r: Vec<IndexTarget>)
    ensures
        target_views(r@) == first_targets(
            facts@,
            views(client@),
            first_set(vars@, 0),
            opt_view(*current),
        ),
{
    let mut out: Vec<IndexTarget> = Vec::new();
    if client.len() > 0 {
        for i in 0..client.len()
            invariant
                out@.len() == i,
                forall|k: int|
                    0 <= k < i ==> (#[trigger] out@[k]).root@ == client@[k]@ && out@[k].source@
                        == "client_initialize"@,
        {
            out.push(
                IndexTarget { root: client[i].clone(), source: "client_initialize".to_owned() },
            );
        }
        assert(target_views(out@) =~= first_targets(
            facts@,
            views(client@),
            first_set(vars@, 0),
            opt_view(*current),
        ));
        return out;
    }
    if let Some(target) = explicit_workspace_root(vars) {
        if is_known_directory(facts, target.root.as_str()) {
            let ghost view = (target.root@, target.source@);
            out.push(target);
            assert(target_views(out@) =~= seq![view]);
            return out;
        }
    }
    if let Some(cwd) = current {
        if looks_like_workspace_root(facts, cwd.as_str()) {
            out.push(
                IndexTarget { root: cwd.clone(), source: "process_current_dir".to_owned() },
            );
            assert(target_views(out@) =~= seq![(cwd@, "process_current_dir"@)]);
            return out;
        }
    }
    assert(target_views(out@) =~= Seq::<(Seq<char>, Seq<char>)>::empty());
    out
}

/// The argument of this name is a path.
pub open spec fn is_path_key(key: Seq<char>) -> bool {
    ||| key == "path"@
    ||| key == "paths"@
    ||| key == "file_path"@
    ||| key == "repo_path"@
    ||| key == "archive_path"@
    ||| key == "input_file"@
    ||| key == "output_file"@
    ||| key == "file_hint"@
}

/// Whether the argument of this name is a path.
pub fn is_workspace_path_key(key: &str) -> (r: bool)
    ensures
        r == is_path_key(key@),
{
    str_eq(key, "path") || str_eq(key, "paths") || str_eq(key, "file_path") || str_eq(
        key,
        "repo_path",
    ) || str_eq(key, "archive_path") || str_eq(key, "input_file") || str_eq(key, "output_file")
        || str_eq(key, "file_hint")
}

/// The first of the paths from `from` on that exists, where it leads.
pub open spec fn first_existing(
    facts: Seq<PathFact>,
    chain: Seq<Seq<char>>,
    from: int,
) -> Option<Seq<char>>
    decreases chain.len() - from,
{
    if from < 0 || from >= chain.len() {
        None
    } else if lookup(facts, chain[from]) is Some {
        Some(canonical_or_normal(facts, chain[from]))
    } else {
        first_existing(facts, chain, from + 1)
    }
}

/// The nearest path at or above this one that exists, where it leads.
pub fn existing_anchor_for_path(facts: &[PathFact], path: &str) -> (r: Option<String>)
    ensures
        opt_view(r) == first_existing(facts@, ancestors_of(path@), 0),
{
    let chain = ancestors(path);
    let ghost all = ancestors_of(path@);
    let mut i: usize = 0;
    while i < chain.len()
        invariant
            i <= chain@.len(),
            all == ancestors_of(path@),
            views(chain@) == all,
            first_existing(facts@, all, 0) == first_existing(facts@, all, i as int),
        decreases chain@.len() - i,
    {
        assert(views(chain@)[i as int] == chain@[i as int]@);
        if fact_of(facts, chain[i].as_str()).is_some() {
            return Some(canonicalize_if_exists(facts, chain[i].as_str()));
        }
        i += 1;
    }
    assert(all.len() == chain@.len());
    None
}

/// The existing path that an argument leads to.
pub open spec fn candidate(
    facts: Seq<PathFact>,
    roots: Seq<Seq<char>>,
    raw: Seq<char>,
) -> Option<Seq<char>> {
    if raw.len() == 0 {
        None
    } else {
        first_existing(facts, ancestors_of(tool_path(facts, roots, raw)), 0)
    }
}

/// The existing path that an argument leads to.
pub fn resolve_tool_path_candidate(facts: &[PathFact], roots: &[String], raw: &str) -> (r: Option<
    String,
>)
    ensures
        opt_view(r) == candidate(facts@, views(roots@), raw@),
{
    if raw.is_empty() {
        return None;
    }
    existing_anchor_for_path(facts, resolve_tool_path(facts, roots, raw).as_str())
}

/// The existing paths that the arguments of a call lead to, in their order. The
/// items of a list go by the name of the list.
pub open spec fn collected(
    facts: Seq<PathFact>,
    roots: Seq<Seq<char>>,
    value: Json,
    key: Option<Seq<char>>,
) -> Seq<Seq<char>>
    decreases value, 1int, 0int,
{
    match value {
        Json::Object(fields) => collected_fields(facts, roots, value, fields@.len() as int),
        Json::Array(items) => collected_items(facts, roots, value, key, items@.len() as int),
        Json::Text(raw) => match key {
            Some(k) => if is_path_key(k) {
                match candidate(facts, roots, raw@) {
                    Some(path) => seq![path],
                    None => Seq::empty(),
                }
            } else {
                Seq::empty()
            },
            None => Seq::empty(),
        },
        _ => Seq::empty(),
    }
}

/// The existing paths that the first `n` entries of an object lead to.
pub open spec fn collected_fields(
    facts: Seq<PathFact>,
    roots: Seq<Seq<char>>,
    value: Json,
    n: int,
) -> Seq<Seq<char>>
    decreases value, 0int, n,
{
    match value {
        Json::Object(fields) => if 0 < n <= fields@.len() {
            collected_fields(facts, roots, value, n - 1) + collected(
                facts,
                roots,
                fields@[n - 1].value,
                Some(fields@[n - 1].key@),
            )
        } else {
            Seq::empty()
        },
        _ => Seq::empty(),
    }
}

/// The existing paths that the first `n` items of a list lead to.
pub open spec fn collected_items(
    facts: Seq<PathFact>,
    roots: Seq<Seq<char>>,
    value: Json,
    key: Option<Seq<char>>,
    n: int,
) -> Seq<Seq<char>>
    decreases value, 0int, n,
{
    match value {
        Json::Array(items) => if 0 < n <= items@.len() {
            collected_items(facts, roots, value, key, n - 1) + collected(
                facts,
                roots,
                items@[n - 1],
                key,
            )
        } else {
            Seq::empty()
        },
        _ => Seq::empty(),
    }
}

/// Adds the existing paths that the arguments of a call lead to.
pub fn collect_workspace_roots(
    facts: &[PathFact],
    roots: &[String],
    value: &Json,
    key: Option<&str>,
    found: &mut Vec<String>,
)
    ensures
        views(final(found)@) == views(old(found)@) + collected(
            facts@,
            views(roots@),
            *value,
            match key {
                Some(k) => Some(k@),
                None => None,
            },
        ),
    decreases *value,
{
    let ghost all = views(roots@);
    let ghost before = views(found@);
    let ghost name = match key {
        Some(k) => Some(k@),
        None => None,
    };
    match value {
        Json::Object(fields) => {
            assert(before + collected_fields(facts@, all, *value, 0) =~= before);
            for i in 0..fields.len()
                invariant
                    *value == Json::Object(*fields),
                    all == views(roots@),
                    views(found@) == before + collected_fields(facts@, all, *value, i as int),
            {
                collect_workspace_roots(
                    facts,
                    roots,
                    &fields[i].value,
                    Some(fields[i].key.as_str()),
                    found,
                );
                assert(views(found@) =~= before + collected_fields(facts@, all, *value, i + 1));
            }
        },
        Json::Array(items) => {
            assert(before + collected_items(facts@, all, *value, name, 0) =~= before);
            for i in 0..items.len()
                invariant
                    *value == Json::Array(*items),
                    all == views(roots@),
                    name == (match key {
                        Some(k) => Some(k@),
                        None => None,
                    }),
                    views(found@) == before + collected_items(facts@, all, *value, name, i as int),
            {
                proof {
                    lemma_item_smaller(*value, i as int);
                }
                collect_workspace_roots(facts, roots, &items[i], key, found);
                assert(views(found@) =~= before + collected_items(
                    facts@,
                    all,
                    *value,
                    name,
                    i + 1,
                ));
            }
        },
        Json::Text(raw) => {
            if let Some(k) = key {
                if is_workspace_path_key(k) {
                    if let Some(path) = resolve_tool_path_candidate(facts, roots, raw.as_str()) {
                        let ghost view = path@;
                        found.push(path);
                        assert(views(found@) =~= before + seq![view]);
                    }
                }
            }
            assert(before + Seq::<Seq<char>>::empty() =~= before);
        },
        _ => {
            assert(before + Seq::<Seq<char>>::empty() =~= before);
        },
    }
}

/// The workspace that a path belongs to: the indexed one that holds it, else the
/// nearest directory at or above it that looks like a workspace, else the directory
/// it is or lies in.
pub open spec fn workspace_of(
    state: IndexState,
    facts: Seq<PathFact>,
    path: Seq<char>,
) -> Option<Seq<char>> {
    match indexed_root(state, path) {
        Some(root) => Some(root),
        None => match nearest_root(facts, path) {
            Some(root) => Some(root),
            None => if is_directory(facts, path) {
                Some(path)
            } else {
                parent_of(path)
            },
        },
    }
}

/// The workspace that a path belongs to.
pub fn discover_workspace_root_for_path(
    state: &IndexState,
    facts: &[PathFact],
    path: &str,
) -> (r: Option<String>)
    requires
        state.wf(),
    ensures
        opt_view(r) == workspace_of(*state, facts@, path@),
{
    if let Some(root) = indexed_workspace_root_for_path(state, path) {
        return Some(root);
    }
    if let Some(root) = nearest_workspace_root(facts, path) {
        return Some(root);
    }
    if is_known_directory(facts, path) {
        return Some(path.to_owned());
    }
    parent_path(path)
}

/// The workspaces of the first `n` paths, each once.
pub open spec fn workspaces_of(
    state: IndexState,
    facts: Seq<PathFact>,
    paths: Seq<Seq<char>>,
    n: int,
) -> Seq<Seq<char>>
    decreases n,
{
    if n <= 0 {
        Seq::empty()
    } else {
        let before = workspaces_of(state, facts, paths, n - 1);
        match workspace_of(state, facts, paths[n - 1]) {
            Some(root) => with_path(before, root, state.ignore_case),
            None => before,
        }
    }
}

/// The workspaces that the arguments of a call lie in, each once.
pub fn infer_workspace_roots_from_tool_arguments(
    state: &IndexState,
    facts: &[PathFact],
    roots: &[String],
    arguments: &Json,
) -> (r: Vec<String>)
    requires
        state.wf(),
    ensures
        ({
            let paths = collected(facts@, views(roots@), *arguments, None);
            views(r@) == workspaces_of(*state, facts@, paths, paths.len() as int)
        }),
{
    let mut found: Vec<String> = Vec::new();
    assert(views(found@) =~= Seq::<Seq<char>>::empty());
    collect_workspace_roots(facts, roots, arguments, None, &mut found);
    let ghost paths = collected(facts@, views(roots@), *arguments, None);
    assert(views(found@) =~= paths);
    assert(paths.len() == found@.len());
    let mut inferred: Vec<String> = Vec::new();
    assert(views(inferred@) =~= Seq::<Seq<char>>::empty());
    for i in 0..found.len()
        invariant
            state.wf(),
            views(found@) == paths,
            views(inferred@) == workspaces_of(*state, facts@, paths, i as int),
    {
        assert(views(found@)[i as int] == found@[i as int]@);
        if let Some(root) = discover_workspace_root_for_path(state, facts, found[i].as_str()) {
            push_unique_path(&mut inferred, root, state.ignore_case);
        }
    }
    inferred
}

} // verus!
