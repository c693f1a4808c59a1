//! What a path that a caller gives means.

use vstd::prelude::*;

use crate::common::{
    discover_workspace_root, discovered_root, fact_of, input_path, is_directory,
    is_known_directory, lookup, path_from_input, preferred_root, preferred_workspace_root,
    resolve_tool_path, tool_path, PathFact,
};
use crate::paths::{is_absolute, is_rooted, normalize_display_path, shown_path};
use crate::text::{opt_view, starts_with, str_starts_with, views};

verus! {

/// What a path means, and what decided on it.
pub struct ResolvedPath {
    pub input_path: String,
    pub canonical_path: String,
    pub input_was_relative: bool,
    pub resolution_basis: &'static str,
    pub workspace_root: Option<String>,
    pub repo_root: Option<String>,
    pub exists: bool,
    pub is_dir: bool,
}

/// What a path means, and what decided on it.
pub struct Resolution {
    pub input_path: Seq<char>,
    pub canonical_path: Seq<char>,
    pub input_was_relative: bool,
    pub resolution_basis: Seq<char>,
    pub workspace_root: Option<Seq<char>>,
    pub repo_root: Option<Seq<char>>,
    pub exists: bool,
    pub is_dir: bool,
}

impl View for ResolvedPath {
    type V = Resolution;

    open spec fn view(&self) -> Resolution {
        Resolution {
            input_path: self.input_path@,
            canonical_path: self.canonical_path@,
            input_was_relative: self.input_was_relative,
            resolution_basis: self.resolution_basis@,
            workspace_root: opt_view(self.workspace_root),
            repo_root: opt_view(self.repo_root),
            exists: self.exists,
            is_dir: self.is_dir,
        }
    }
}

/// The path as it is shown, where there is one.
pub open spec fn shown(path: Option<Seq<char>>) -> Option<Seq<char>> {
    match path {
        Some(p) => Some(shown_path(p)),
        None => None,
    }
}

/// What a path means. A relative one is taken from the roots of the tools.
pub open spec fn resolution(
    facts: Seq<PathFact>,
    active: Option<Seq<char>>,
    current: Option<Seq<char>>,
    roots: Seq<Seq<char>>,
    raw: Seq<char>,
) -> Resolution {
    let preferred = preferred_root(facts, active, current);
    let from_uri = starts_with(raw, "file://"@);
    let absolute = is_rooted(input_path(raw));
    let canonical = tool_path(facts, roots, raw);
    Resolution {
        input_path: raw,
        canonical_path: shown_path(canonical),
        input_was_relative: !absolute && !from_uri,
        resolution_basis: if from_uri {
            "file_uri"@
        } else if absolute {
            "absolute_input"@
        } else {
            match preferred {
                Some((_root, source)) => source,
                None => "current_dir"@,
            }
        },
        workspace_root: match preferred {
            Some((root, _source)) => Some(shown_path(root)),
            None => None,
        },
        repo_root: shown(discovered_root(facts, canonical)),
        exists: lookup(facts, canonical) is Some,
        is_dir: is_directory(facts, canonical),
    }
}

/// What a path means; an empty one is refused.
pub fn resolve_path(
    facts: &[PathFact],
    active: &Option<String>,
    current: &Option<String>,
    roots: &[String],
    raw: &str,
) -> (r: Result<ResolvedPath, &'static str>)
    ensures
        match r {
            Ok(found) => raw@.len() > 0 && found@ == resolution(
                facts@,
                opt_view(*active),
                opt_view(*current),
                views(roots@),
                raw@,
            ),
            Err(e) => raw@.len() == 0 && e@ == "Path cannot be empty"@,
        },
{
    if raw.is_empty() {
        return Err("Path cannot be empty");
    }
    let from_uri = str_starts_with(raw, "file://");
    let absolute = is_absolute(path_from_input(raw).as_str());
    let canonical = resolve_tool_path(facts, roots, raw);
    let (workspace_root, source): (Option<String>, &'static str) = match preferred_workspace_root(
        facts,
        active,
        current,
    ) {
        Some((root, source)) => (Some(normalize_display_path(root.as_str())), source),
        None => (None, "current_dir"),
    };
    let repo_root: Option<String> = match discover_workspace_root(facts, canonical.as_str()) {
        Some(root) => Some(normalize_display_path(root.as_str())),
        None => None,
    };
    let basis: &'static str = if from_uri {
        "file_uri"
    } else if absolute {
        "absolute_input"
    } else {
        source
    };
    Ok(
        ResolvedPath {
            input_path: raw.to_owned(),
            canonical_path: normalize_display_path(canonical.as_str()),
            input_was_relative: !absolute && !from_uri,
            resolution_basis: basis,
            workspace_root,
            repo_root,
            exists: fact_of(facts, canonical.as_str()).is_some(),
            is_dir: is_known_directory(facts, canonical.as_str()),
        },
    )
}

} // verus!
