//! The paths of a JSON value, with the types of what they lead to.

use vstd::prelude::*;

use crate::json::Json;
use crate::numbers::{decimal, usize_decimal};
use crate::text::{chars_of, opt_view, str_take};

verus! {

/// How many paths are listed where the caller does not say.
pub const DEFAULT_MAX_PATHS: usize = 200;

/// How many characters of a text are shown.
pub const SAMPLE_CHARS: usize = 80;

/// Where a JSON value comes from: a text in the request, or a file.
pub enum JsonSource {
    Inline(String),
    File(String),
}

/// Where a JSON value comes from: a text in the request stands above a file.
pub open spec fn source_of(json_text: Option<Seq<char>>, path: Option<Seq<char>>) -> Option<
    (bool, Seq<char>),
> {
    match (json_text, path) {
        (Some(text), _) => Some((true, text)),
        (None, Some(p)) => Some((false, p)),
        (None, None) => None,
    }
}

/// Decides where a JSON value comes from.
pub fn choose_source(json_text: &Option<String>, path: &Option<String>) -> (r: Result<
    JsonSource,
    &'static str,
>)
    ensures
        match source_of(opt_view(*json_text), opt_view(*path)) {
            Some((true, text)) => r matches Ok(JsonSource::Inline(s)) && s@ == text,
            Some((false, p)) => r matches Ok(JsonSource::File(s)) && s@ == p,
            None => r matches Err(e) && e@ == "Either path or json_text is required"@,
        },
{
    match (json_text, path) {
        (Some(text), _) => Ok(JsonSource::Inline(text.clone())),
        (None, Some(p)) => Ok(JsonSource::File(p.clone())),
        (None, None) => Err("Either path or json_text is required"),
    }
}

/// The type of a value.
pub open spec fn type_of(value: Json) -> Seq<char> {
    match value {
        Json::Null => "null"@,
        Json::Bool(_) => "boolean"@,
        Json::Number(n) => if n.is_integer {
            "integer"@
        } else {
            "number"@
        },
        Json::Text(_) => "string"@,
        Json::Array(_) => "array"@,
        Json::Object(_) => "object"@,
    }
}

/// The type of a value.
pub fn value_type(value: &Json) -> (r: &'static str)
    ensures
        r@ == type_of(*value),
{
    match value {
        Json::Null => "null",
        Json::Bool(_) => "boolean",
        Json::Number(n) => if n.is_integer {
            "integer"
        } else {
            "number"
        },
        Json::Text(_) => "string",
        Json::Array(_) => "array",
        Json::Object(_) => "object",
    }
}

/// What is shown of a value.
pub enum Sample {
    Null,
    Bool(bool),
    Number(String),
    Text(String),
}

/// What is shown of a value.
pub enum Shown {
    Null,
    Bool(bool),
    Number(Seq<char>),
    Text(Seq<char>),
}

impl View for Sample {
    type V = Shown;

    open spec fn view(&self) -> Shown {
        match self {
            Sample::Null => Shown::Null,
            Sample::Bool(b) => Shown::Bool(*b),
            Sample::Number(s) => Shown::Number(s@),
            Sample::Text(s) => Shown::Text(s@),
        }
    }
}

/// What is shown of a value: the first characters of a text, and how much a list
/// or an object holds.
pub open spec fn sample_of(value: Json) -> Shown {
    match value {
        Json::Null => Shown::Null,
        Json::Bool(b) => Shown::Bool(b),
        Json::Number(n) => Shown::Number(n.text@),
        Json::Text(s) => Shown::Text(
            if s@.len() > SAMPLE_CHARS {
                s@.take(SAMPLE_CHARS as int)
            } else {
                s@
            },
        ),
        Json::Array(items) => Shown::Text("array(len="@ + decimal(items@.len()) + ")"@),
        Json::Object(fields) => Shown::Text("object(keys="@ + decimal(fields@.len()) + ")"@),
    }
}

/// What is shown of a value.
pub fn sample_value(value: &Json) -> (r: Sample)
    ensures
        r@ == sample_of(*value),
{
    match value {
        Json::Null => Sample::Null,
        Json::Bool(b) => Sample::Bool(*b),
        Json::Number(n) => Sample::Number(n.text.clone()),
        Json::Text(s) => {
            let chars = chars_of(s.as_str());
            if chars.len() > SAMPLE_CHARS {
                Sample::Text(str_take(s.as_str(), SAMPLE_CHARS))
            } else {
                Sample::Text(s.clone())
            }
        },
        Json::Array(items) => {
            let mut text = "array(len=".to_owned();
            let count = usize_decimal(items.len());
            text.append(count.as_str());
            text.append(")");
            Sample::Text(text)
        },
        Json::Object(fields) => {
            let mut text = "object(keys=".to_owned();
            let count = usize_decimal(fields.len());
            text.append(count.as_str());
            text.append(")");
            Sample::Text(text)
        },
    }
}

/// A path, with the type of what it leads to.
pub struct JsonPath {
    pub path: String,
    pub value_type: &'static str,
    pub sample_value: Sample,
}

/// A path, with the type of what it leads to.
pub struct PathTo {
    pub path: Seq<char>,
    pub kind: Seq<char>,
    pub sample: Shown,
}

impl View for JsonPath {
    type V = PathTo;

    open spec fn view(&self) -> PathTo {
        PathTo { path: self.path@, kind: self.value_type@, sample: self.sample_value@ }
    }
}

/// The paths.
pub open spec fn path_views(items: Seq<JsonPath>) -> Seq<PathTo> {
    Seq::new(items.len(), |i: int| items[i]@)
}

/// The path of the entry at position `i` of a list.
pub open spec fn item_path(path: Seq<char>, i: int, with_indexes: bool) -> Seq<char> {
    if with_indexes {
        path + "["@ + decimal(i as nat) + "]"@
    } else {
        path + "[]"@
    }
}

/// All paths of a value that stands at `path`: its own, and then those of what it
/// holds, in turn.
pub open spec fn all_paths(value: Json, path: Seq<char>, with_indexes: bool) -> Seq<PathTo>
    decreases value, 1int, 0int,
{
    seq![PathTo { path, kind: type_of(value), sample: sample_of(value) }] + (match value {
        Json::Array(items) => held_paths(value, path, with_indexes, items@.len() as int),
        Json::Object(fields) => held_paths(value, path, with_indexes, fields@.len() as int),
        _ => Seq::empty(),
    })
}

/// All paths of the first `n` entries of a list or an object that stands at
/// `path`.
pub open spec fn held_paths(value: Json, path: Seq<char>, with_indexes: bool, n: int) -> Seq<PathTo>
    decreases value, 0int, n,
{
    if n <= 0 {
        Seq::empty()
    } else {
        held_paths(value, path, with_indexes, n - 1) + (match value {
            Json::Array(items) => if n <= items@.len() {
                all_paths(items@[n - 1], item_path(path, n - 1, with_indexes), with_indexes)
            } else {
                Seq::empty()
            },
            Json::Object(fields) => if n <= fields@.len() {
                all_paths(
                    fields@[n - 1].value,
                    path + "."@ + fields@[n - 1].key@,
                    with_indexes,
                )
            } else {
                Seq::empty()
            },
            _ => Seq::empty(),
        })
    }
}

/// The first `max` of the paths.
pub open spec fn first_paths(paths: Seq<PathTo>, max: usize) -> Seq<PathTo> {
    if paths.len() <= max {
        paths
    } else {
        paths.take(max as int)
    }
}

/// The paths of the value, put behind those that are there, as many as are listed;
/// says whether there were more.
fn collect_paths(
    value: &Json,
    path: &str,
    with_indexes: bool,
    max_paths: usize,
    paths: &mut Vec<JsonPath>,
) -> (truncated: bool)
    requires
        old(paths)@.len() <= max_paths,
    ensures
        final(paths)@.len() <= max_paths,
        ({
            let all = path_views(old(paths)@) + all_paths(*value, path@, with_indexes);
            &&& path_views(final(paths)@) == first_paths(all, max_paths)
            &&& truncated == (all.len() > max_paths)
        }),
    decreases *value, 1int, 0int,
{
    let ghost before = path_views(paths@);
    let ghost own = PathTo { path: path@, kind: type_of(*value), sample: sample_of(*value) };
    let ghost all = before + all_paths(*value, path@, with_indexes);
    assert(before.len() == paths@.len());
    if paths.len() >= max_paths {
        assert(first_paths(all, max_paths) =~= before);
        return true;
    }
    paths.push(
        JsonPath {
            path: path.to_owned(),
            value_type: value_type(value),
            sample_value: sample_value(value),
        },
    );
    assert(path_views(paths@) =~= before.push(own));
    match value {
        Json::Array(items) => {
            let mut i: usize = 0;
            assert(held_paths(*value, path@, with_indexes, 0) =~= Seq::<PathTo>::empty());
            while i < items.len()
                invariant
                    i <= items@.len(),
                    *value == Json::Array(*items),
                    paths@.len() <= max_paths,
                    path_views(paths@) == before.push(own) + held_paths(
                        *value,
                        path@,
                        with_indexes,
                        i as int,
                    ),
                    before == path_views(old(paths)@),
                    all == before + all_paths(*value, path@, with_indexes),
                    own == (PathTo {
                        path: path@,
                        kind: type_of(*value),
                        sample: sample_of(*value),
                    }),
                decreases items@.len() - i,
            {
                let ghost start = path_views(paths@);
                let mut inner = path.to_owned();
                if with_indexes {
                    inner.append("[");
                    let number = usize_decimal(i);
                    inner.append(number.as_str());
                    inner.append("]");
                } else {
                    inner.append("[]");
                }
                let more = collect_paths(
                    &items[i],
                    inner.as_str(),
                    with_indexes,
                    max_paths,
                    paths,
                );
                let ghost child = all_paths(items@[i as int], inner@, with_indexes);
                assert(start + child =~= before.push(own) + held_paths(
                    *value,
                    path@,
                    with_indexes,
                    i + 1,
                ));
                if more {
                    proof {
                        lemma_held_prefix(*value, path@, with_indexes, i + 1, items@.len() as int);
                        let reached = before.push(own) + held_paths(
                            *value,
                            path@,
                            with_indexes,
                            i + 1,
                        );
                        assert(reached.is_prefix_of(all)) by {
                            assert(all =~= before.push(own) + held_paths(
                                *value,
                                path@,
                                with_indexes,
                                items@.len() as int,
                            ));
                        }
                        assert(first_paths(all, max_paths) =~= first_paths(reached, max_paths));
                    }
                    return true;
                }
                i += 1;
            }
            assert(all =~= before.push(own) + held_paths(
                *value,
                path@,
                with_indexes,
                items@.len() as int,
            ));
            assert(path_views(paths@).len() == paths@.len());
            false
        },
        Json::Object(fields) => {
            let mut i: usize = 0;
            assert(held_paths(*value, path@, with_indexes, 0) =~= Seq::<PathTo>::empty());
            while i < fields.len()
                invariant
                    i <= fields@.len(),
                    *value == Json::Object(*fields),
                    paths@.len() <= max_paths,
                    path_views(paths@) == before.push(own) + held_paths(
                        *value,
                        path@,
                        with_indexes,
                        i as int,
                    ),
                    before == path_views(old(paths)@),
                    all == before + all_paths(*value, path@, with_indexes),
                    own == (PathTo {
                        path: path@,
                        kind: type_of(*value),
                        sample: sample_of(*value),
                    }),
                decreases fields@.len() - i,
            {
                let ghost start = path_views(paths@);
                let field = &fields[i];
                let mut inner = path.to_owned();
                inner.append(".");
                inner.append(field.key.as_str());
                let more = collect_paths(
                    &field.value,
                    inner.as_str(),
                    with_indexes,
                    max_paths,
                    paths,
                );
                let ghost child = all_paths(fields@[i as int].value, inner@, with_indexes);
                assert(start + child =~= before.push(own) + held_paths(
                    *value,
                    path@,
                    with_indexes,
                    i + 1,
                ));
                if more {
                    proof {
                        lemma_held_prefix(
                            *value,
                            path@,
                            with_indexes,
                            i + 1,
                            fields@.len() as int,
                        );
                        let reached = before.push(own) + held_paths(
                            *value,
                            path@,
                            with_indexes,
                            i + 1,
                        );
                        assert(reached.is_prefix_of(all)) by {
                            assert(all =~= before.push(own) + held_paths(
                                *value,
                                path@,
                                with_indexes,
                                fields@.len() as int,
                            ));
                        }
                        assert(first_paths(all, max_paths) =~= first_paths(reached, max_paths));
                    }
                    return true;
                }
                i += 1;
            }
            assert(all =~= before.push(own) + held_paths(
                *value,
                path@,
                with_indexes,
                fields@.len() as int,
            ));
            assert(path_views(paths@).len() == paths@.len());
            false
        },
        _ => {
            assert(all =~= before.push(own));
            assert(path_views(paths@).len() == paths@.len());
            false
        },
    }
}

/// The paths of fewer entries are the first of those of more.
proof fn lemma_held_prefix(value: Json, path: Seq<char>, with_indexes: bool, n: int, m: int)
    requires
        0 <= n <= m,
    ensures
        held_paths(value, path, with_indexes, n).is_prefix_of(
            held_paths(value, path, with_indexes, m),
        ),
    decreases m,
{
    if n < m {
        lemma_held_prefix(value, path, with_indexes, n, m - 1);
    }
}

/// The paths of a JSON value, at most `max_paths`, and whether there are more.
pub fn find_json_paths(value: &Json, with_indexes: bool, max_paths: usize) -> (r: (
    Vec<JsonPath>,
    bool,
))
    ensures
        ({
            let all = all_paths(*value, "$"@, with_indexes);
            &&& path_views(r.0@) == first_paths(all, max_paths)
            &&& r.1 == (all.len() > max_paths)
        }),
{
    let mut paths: Vec<JsonPath> = Vec::new();
    assert(path_views(paths@) =~= Seq::<PathTo>::empty());
    let truncated = collect_paths(value, "$", with_indexes, max_paths, &mut paths);
    assert(Seq::<PathTo>::empty() + all_paths(*value, "$"@, with_indexes) =~= all_paths(
        *value,
        "$"@,
        with_indexes,
    ));
    (paths, truncated)
}

/// The paths of a value are its own and, for each thing it holds, all of that thing's paths,
/// under its name or its place.
pub proof fn law_paths_reach(value: Json, path: Seq<char>, with_indexes: bool, i: int, k: int)
    ensures
        all_paths(value, path, with_indexes)[0].path == path,
        value is Object || value is Array || all_paths(value, path, with_indexes).len() == 1,
        value matches Json::Object(fields) ==> 0 <= i < fields@.len() ==> ({
            let own = all_paths(
                fields@[i].value,
                path + "."@ + fields@[i].key@,
                with_indexes,
            );
            0 <= k < own.len() ==> all_paths(value, path, with_indexes).contains(own[k])
        }),
        value matches Json::Array(items) ==> 0 <= i < items@.len() ==> ({
            let own = all_paths(
                items@[i],
                if with_indexes {
                    path + "["@ + decimal(i as nat) + "]"@
                } else {
                    path + "[]"@
                },
                with_indexes,
            );
            0 <= k < own.len() ==> all_paths(value, path, with_indexes).contains(own[k])
        }),
{
    let n: int = match value {
        Json::Array(items) => items@.len() as int,
        Json::Object(fields) => fields@.len() as int,
        _ => 0,
    };
    if 0 <= i < n {
        lemma_held(value, path, with_indexes, n, i, k);
        let rest = held_paths(value, path, with_indexes, n);
        let all = all_paths(value, path, with_indexes);
        assert forall|p: PathTo| rest.contains(p) implies all.contains(p) by {
            let j = rest.index_of(p);
            assert(all[j + 1] == rest[j]);
        }
    }
}

/// What is held at the place `i` has its paths among those of the first `n`.
proof fn lemma_held(value: Json, path: Seq<char>, with_indexes: bool, n: int, i: int, k: int)
    requires
        0 <= i < n,
        match value {
            Json::Array(items) => n <= items@.len(),
            Json::Object(fields) => n <= fields@.len(),
            _ => false,
        },
    ensures
        ({
            let own = match value {
                Json::Array(items) => all_paths(
                    items@[i],
                    item_path(path, i, with_indexes),
                    with_indexes,
                ),
                Json::Object(fields) => all_paths(
                    fields@[i].value,
                    path + "."@ + fields@[i].key@,
                    with_indexes,
                ),
                _ => Seq::empty(),
            };
            0 <= k < own.len() ==> held_paths(value, path, with_indexes, n).contains(own[k])
        }),
    decreases n,
{
    let own = match value {
        Json::Array(items) => all_paths(items@[i], item_path(path, i, with_indexes), with_indexes),
        Json::Object(fields) => all_paths(
            fields@[i].value,
            path + "."@ + fields@[i].key@,
            with_indexes,
        ),
        _ => Seq::empty(),
    };
    let before = held_paths(value, path, with_indexes, n - 1);
    let all = held_paths(value, path, with_indexes, n);
    if 0 <= k < own.len() {
        if i == n - 1 {
            assert(all[before.len() + k] == own[k]);
        } else {
            lemma_held(value, path, with_indexes, n - 1, i, k);
            let j = before.index_of(own[k]);
            assert(all[j] == own[k]);
        }
    }
}

} // verus!
