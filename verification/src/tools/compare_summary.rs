//! What the paths that changed between two directories have in common.

use vstd::prelude::*;

use crate::lines::{lines, split, str_lines, str_split};
use crate::order::precedes;
use crate::paths::{extension, extension_of};
use crate::sorted::{ascending, insert_unique};
use crate::text::{
    ascii_lower, contains, ends_with, leading_word, opt_view, starts_with, str_ascii_lower,
    str_contains, str_ends_with, str_eq, str_leading_word, str_strip_prefix, str_trim_start,
    trim_start, views,
};

verus! {

/// How many entries the short lists have at most.
pub const DEFAULT_TOP_LIMIT: usize = 10;

/// How many paths a group has at most.
pub const GROUPED_PATH_LIMIT: usize = 50;

/// The first component of a path.
pub open spec fn first_part(path: Seq<char>) -> Seq<char> {
    split(path, '/')[0]
}

/// The first component of a path.
pub fn top_directory(path: &str) -> (r: String)
    ensures
        r@ == first_part(path@),
{
    let parts = str_split(path, '/');
    proof {
        crate::lines::lemma_split_len(path@, '/');
    }
    assert(views(parts@)[0] == parts@[0]@);
    parts[0].clone()
}

/// The extension of a path in lower case behind a dot, or words that say that
/// it has none.
pub open spec fn extension_label(path: Seq<char>) -> Seq<char> {
    match extension_of(path) {
        Some(ext) => "."@ + ascii_lower(ext),
        None => "[no extension]"@,
    }
}

/// The extension of a path in lower case behind a dot, or words that say that
/// it has none.
pub fn extension_key(path: &str) -> (r: String)
    ensures
        r@ == extension_label(path@),
{
    match extension(path) {
        Some(ext) => {
            let mut out = ".".to_owned();
            out.append(str_ascii_lower(ext.as_str()).as_str());
            out
        },
        None => "[no extension]".to_owned(),
    }
}

/// The files in which the packages that a project needs are named.
pub open spec fn names_dependencies(name: Seq<char>) -> bool {
    ||| name == "cargo.toml"@
    ||| name == "cargo.lock"@
    ||| name == "package.json"@
    ||| name == "package-lock.json"@
    ||| name == "pnpm-lock.yaml"@
    ||| name == "yarn.lock"@
    ||| name == "requirements.txt"@
    ||| name == "pyproject.toml"@
    ||| name == "go.mod"@
    ||| name == "go.sum"@
}

/// What a change to the path may touch.
pub open spec fn risk_of(path: Seq<char>) -> Seq<char> {
    let lower = ascii_lower(path);
    let name = split(lower, '/').last();
    if contains(lower, "auth"@) || contains(lower, "login"@) || contains(lower, "permission"@) {
        "auth/security"@
    } else if contains(lower, "migration"@) || contains(lower, "schema"@) || contains(
        lower,
        "database"@,
    ) || contains(lower, "db/"@) {
        "database"@
    } else if contains(lower, "api"@) || contains(lower, "route"@) || contains(
        lower,
        "controller"@,
    ) {
        "api"@
    } else if contains(lower, ".github"@) || contains(lower, "ci"@) || contains(lower, "workflow"@)
        || name == "dockerfile"@ {
        "ci/deployment"@
    } else if names_dependencies(name) {
        "dependencies"@
    } else if contains(lower, "config"@) || ends_with(lower, ".env"@) || ends_with(lower, ".toml"@)
        || ends_with(lower, ".yaml"@) || ends_with(lower, ".yml"@) {
        "config"@
    } else if contains(lower, "test"@) || contains(lower, "spec"@) {
        "tests"@
    } else {
        "general"@
    }
}

/// What a change to the path may touch.
pub fn risk_category(path: &str) -> (r: &'static str)
    ensures
        r@ == risk_of(path@),
        contains(ascii_lower(path@), "auth"@) || contains(ascii_lower(path@), "login"@) || contains(
            ascii_lower(path@),
            "permission"@,
        ) ==> r@ == "auth/security"@,
        r@ == "general"@ ==> !contains(ascii_lower(path@), "auth"@) && !contains(
            ascii_lower(path@),
            "schema"@,
        ) && !contains(ascii_lower(path@), "api"@) && !contains(ascii_lower(path@), "config"@)
            && !contains(ascii_lower(path@), "test"@),
{
    proof {
        reveal_strlit("general");
        reveal_strlit("auth/security");
        reveal_strlit("database");
        reveal_strlit("api");
        reveal_strlit("ci/deployment");
        reveal_strlit("dependencies");
        reveal_strlit("config");
        reveal_strlit("tests");
        assert("general"@.len() == 7 && "auth/security"@.len() == 13 && "database"@.len() == 8);
        assert("api"@.len() == 3 && "ci/deployment"@.len() == 13 && "dependencies"@.len() == 12);
        assert("config"@.len() == 6 && "tests"@.len() == 5);
    }
    let lower_text = str_ascii_lower(path);
    let lower = lower_text.as_str();
    let parts = str_split(lower, '/');
    proof {
        crate::lines::lemma_split_len(lower@, '/');
    }
    assert(views(parts@).last() == parts@.last()@);
    let name = parts[parts.len() - 1].as_str();
    if str_contains(lower, "auth") || str_contains(lower, "login") || str_contains(
        lower,
        "permission",
    ) {
        "auth/security"
    } else if str_contains(lower, "migration") || str_contains(lower, "schema") || str_contains(
        lower,
        "database",
    ) || str_contains(lower, "db/") {
        "database"
    } else if str_contains(lower, "api") || str_contains(lower, "route") || str_contains(
        lower,
        "controller",
    ) {
        "api"
    } else if str_contains(lower, ".github") || str_contains(lower, "ci") || str_contains(
        lower,
        "workflow",
    ) || str_eq(name, "dockerfile") {
        "ci/deployment"
    } else if str_eq(name, "cargo.toml") || str_eq(name, "cargo.lock") || str_eq(
        name,
        "package.json",
    ) || str_eq(name, "package-lock.json") || str_eq(name, "pnpm-lock.yaml") || str_eq(
        name,
        "yarn.lock",
    ) || str_eq(name, "requirements.txt") || str_eq(name, "pyproject.toml") || str_eq(
        name,
        "go.mod",
    ) || str_eq(name, "go.sum") {
        "dependencies"
    } else if str_contains(lower, "config") || str_ends_with(lower, ".env") || str_ends_with(
        lower,
        ".toml",
    ) || str_ends_with(lower, ".yaml") || str_ends_with(lower, ".yml") {
        "config"
    } else if str_contains(lower, "test") || str_contains(lower, "spec") {
        "tests"
    } else {
        "general"
    }
}

/// The name that follows `word` at the start of a line.
pub open spec fn name_after(line: Seq<char>, word: Seq<char>) -> Option<Seq<char>> {
    if starts_with(line, word) && leading_word(line.skip(word.len() as int)).len() > 0 {
        Some(leading_word(line.skip(word.len() as int)))
    } else {
        None
    }
}

/// The name that follows `word` at the start of a line.
fn find_name_after(line: &str, word: &str) -> (r: Option<String>)
    ensures
        opt_view(r) == name_after(line@, word@),
{
    if let Some(rest) = str_strip_prefix(line, word) {
        let name = str_leading_word(rest.as_str());
        if !name.as_str().is_empty() {
            return Some(name);
        }
    }
    None
}

/// The name of what a line of code defines.
pub open spec fn symbol_of_line(line: Seq<char>) -> Option<Seq<char>> {
    let s = trim_start(line);
    if name_after(s, "pub fn "@) is Some {
        name_after(s, "pub fn "@)
    } else if name_after(s, "fn "@) is Some {
        name_after(s, "fn "@)
    } else if name_after(s, "async fn "@) is Some {
        name_after(s, "async fn "@)
    } else if name_after(s, "pub async fn "@) is Some {
        name_after(s, "pub async fn "@)
    } else if name_after(s, "class "@) is Some {
        name_after(s, "class "@)
    } else if name_after(s, "struct "@) is Some {
        name_after(s, "struct "@)
    } else if name_after(s, "enum "@) is Some {
        name_after(s, "enum "@)
    } else if name_after(s, "interface "@) is Some {
        name_after(s, "interface "@)
    } else if name_after(s, "def "@) is Some {
        name_after(s, "def "@)
    } else {
        name_after(s, "function "@)
    }
}

/// The name of what a line of code defines.
pub fn symbol_from_line(line: &str) -> (r: Option<String>)
    ensures
        opt_view(r) == symbol_of_line(line@),
        name_after(trim_start(line@), "pub fn "@) is Some ==> opt_view(r) == name_after(
            trim_start(line@),
            "pub fn "@,
        ),
        r is Some == (name_after(trim_start(line@), "pub fn "@) is Some || name_after(
            trim_start(line@),
            "fn "@,
        ) is Some || name_after(trim_start(line@), "async fn "@) is Some || name_after(
            trim_start(line@),
            "pub async fn "@,
        ) is Some || name_after(trim_start(line@), "class "@) is Some || name_after(
            trim_start(line@),
            "struct "@,
        ) is Some || name_after(trim_start(line@), "enum "@) is Some || name_after(
            trim_start(line@),
            "interface "@,
        ) is Some || name_after(trim_start(line@), "def "@) is Some || name_after(
            trim_start(line@),
            "function "@,
        ) is Some),
{
    let trimmed = str_trim_start(line);
    let s = trimmed.as_str();
    if let Some(name) = find_name_after(s, "pub fn ") {
        return Some(name);
    }
    if let Some(name) = find_name_after(s, "fn ") {
        return Some(name);
    }
    if let Some(name) = find_name_after(s, "async fn ") {
        return Some(name);
    }
    if let Some(name) = find_name_after(s, "pub async fn ") {
        return Some(name);
    }
    if let Some(name) = find_name_after(s, "class ") {
        return Some(name);
    }
    if let Some(name) = find_name_after(s, "struct ") {
        return Some(name);
    }
    if let Some(name) = find_name_after(s, "enum ") {
        return Some(name);
    }
    if let Some(name) = find_name_after(s, "interface ") {
        return Some(name);
    }
    if let Some(name) = find_name_after(s, "def ") {
        return Some(name);
    }
    find_name_after(s, "function ")
}

/// One of the lines defines `name`.
pub open spec fn defines(text_lines: Seq<Seq<char>>, name: Seq<char>) -> bool {
    exists|i: int|
        0 <= i < text_lines.len() && symbol_of_line(#[trigger] text_lines[i]) == Some(name)
}

/// The first texts of a list.
pub open spec fn first_of(items: Seq<Seq<char>>, n: nat) -> Seq<Seq<char>> {
    if items.len() <= n {
        items
    } else {
        items.take(n as int)
    }
}

/// `found` are the first ones, in ascending order, of the names that one of two
/// texts defines.
pub open spec fn are_symbols(left: Seq<char>, right: Seq<char>, found: Seq<Seq<char>>) -> bool {
    exists|all: Seq<Seq<char>>|
        #![trigger ascending(all)]
        ascending(all) && found == first_of(all, DEFAULT_TOP_LIMIT as nat) && (forall|
            p: Seq<char>,
        | #[trigger]
            all.contains(p) <==> (defines(lines(left), p) || defines(lines(right), p)))
}

/// Adds the names that a text defines to `symbols`.
fn add_symbols(symbols: &mut Vec<String>, text: &str)
    requires
        ascending(views(old(symbols)@)),
    ensures
        ascending(views(final(symbols)@)),
        forall|p: Seq<char>| #[trigger]
            views(final(symbols)@).contains(p) <==> (views(old(symbols)@).contains(p) || defines(
                lines(text@),
                p,
            )),
{
    let all = str_lines(text);
    let ghost found = lines(text@);
    for i in 0..all.len()
        invariant
            views(all@) == found,
            found == lines(text@),
            ascending(views(symbols@)),
            forall|p: Seq<char>| #[trigger]
                views(symbols@).contains(p) <==> (views(old(symbols)@).contains(p) || defines(
                    found.take(i as int),
                    p,
                )),
    {
        let ghost before = views(symbols@);
        assert(found[i as int] == all@[i as int]@);
        let symbol = symbol_from_line(all[i].as_str());
        let ghost name = opt_view(symbol);
        if let Some(s) = symbol {
            insert_unique(symbols, s);
        }
        proof {
            let head = found.take(i as int);
            let more = found.take(i + 1);
            assert forall|p: Seq<char>| #[trigger] views(symbols@).contains(p) <==> (views(
                old(symbols)@,
            ).contains(p) || defines(more, p)) by {
                assert(before.contains(p) <==> (views(old(symbols)@).contains(p) || defines(
                    head,
                    p,
                )));
                if defines(head, p) {
                    let k = choose|k: int|
                        0 <= k < head.len() && symbol_of_line(#[trigger] head[k]) == Some(p);
                    assert(more[k] == head[k]);
                }
                if defines(more, p) {
                    let k = choose|k: int|
                        0 <= k < more.len() && symbol_of_line(#[trigger] more[k]) == Some(p);
                    if k < i {
                        assert(head[k] == more[k]);
                    } else {
                        assert(name == Some(p));
                    }
                }
                if name == Some(p) {
                    assert(more[i as int] == found[i as int]);
                }
            }
        }
    }
    assert(found.take(found.len() as int) =~= found);
}

/// The names that one of two texts defines, in ascending order, the first ones
/// of them.
pub fn affected_symbols(left: &str, right: &str) -> (r: Vec<String>)
    ensures
        are_symbols(left@, right@, views(r@)),
{
    let mut symbols: Vec<String> = Vec::new();
    add_symbols(&mut symbols, left);
    add_symbols(&mut symbols, right);
    let ghost all = views(symbols@);
    if symbols.len() > DEFAULT_TOP_LIMIT {
        symbols.truncate(DEFAULT_TOP_LIMIT);
        assert(views(symbols@) =~= all.take(DEFAULT_TOP_LIMIT as int));
    }
    assert(views(symbols@) == first_of(all, DEFAULT_TOP_LIMIT as nat));
    assert(ascending(all));
    symbols
}

/// A name and how often it occurs.
pub struct NamedCount {
    pub name: String,
    pub count: usize,
}

impl View for NamedCount {
    type V = (Seq<char>, nat);

    open spec fn view(&self) -> (Seq<char>, nat) {
        (self.name@, self.count as nat)
    }
}

/// The names and their counts.
pub open spec fn count_views(items: Seq<NamedCount>) -> Seq<(Seq<char>, nat)> {
    Seq::new(items.len(), |i: int| items[i]@)
}

/// How often `name` occurs among the values.
pub open spec fn occurrences(values: Seq<Seq<char>>, name: Seq<char>) -> nat
    decreases values.len(),
{
    if values.len() == 0 {
        0
    } else {
        occurrences(values.drop_last(), name) + if values.last() == name {
            1nat
        } else {
            0nat
        }
    }
}

/// `a` goes before `b`: it occurs more often, or as often and comes first by
/// its name.
pub open spec fn goes_before(a: (Seq<char>, nat), b: (Seq<char>, nat)) -> bool {
    a.1 > b.1 || (a.1 == b.1 && precedes(a.0, b.0))
}

/// The names go one before the other.
pub open spec fn in_rank(items: Seq<(Seq<char>, nat)>) -> bool {
    forall|i: int, j: int|
        0 <= i < j < items.len() ==> goes_before(#[trigger] items[i], #[trigger] items[j])
}

/// `found` are the first ones, in their rank, of the names among the values.
pub open spec fn are_top_counts(
    values: Seq<Seq<char>>,
    found: Seq<(Seq<char>, nat)>,
) -> bool {
    exists|all: Seq<(Seq<char>, nat)>|
        #![trigger in_rank(all)]
        in_rank(all) && found == (if all.len() <= DEFAULT_TOP_LIMIT {
            all
        } else {
            all.take(DEFAULT_TOP_LIMIT as int)
        }) && (forall|item: (Seq<char>, nat)| #[trigger]
            all.contains(item) <==> (item.1 > 0 && item.1 == occurrences(values, item.0)))
}

/// A name occurs exactly where it is among the values.
proof fn lemma_occurrences(values: Seq<Seq<char>>, name: Seq<char>)
    ensures
        (occurrences(values, name) > 0) == values.contains(name),
    decreases values.len(),
{
    if values.len() > 0 {
        let init = values.drop_last();
        lemma_occurrences(init, name);
        if init.contains(name) {
            let k = choose|k: int| 0 <= k < init.len() && init[k] == name;
            assert(values[k] == name);
        }
        if values.contains(name) {
            let k = choose|k: int| 0 <= k < values.len() && values[k] == name;
            if k < init.len() {
                assert(init[k] == name);
            }
        }
        if values.last() == name {
            assert(values[values.len() - 1] == name);
        }
    }
}

/// How often `name` occurs among the values.
pub fn count_of(values: &[String], name: &str) -> (r: usize)
    ensures
        r == occurrences(views(values@), name@),
{
    let mut n: usize = 0;
    let ghost all = views(values@);
    assert(all.take(0) =~= Seq::<Seq<char>>::empty());
    for i in 0..values.len()
        invariant
            all == views(values@),
            n <= i,
            n == occurrences(all.take(i as int), name@),
    {
        assert(all.take(i + 1).drop_last() =~= all.take(i as int));
        assert(all.take(i + 1).last() == values@[i as int]@);
        if str_eq(values[i].as_str(), name) {
            n += 1;
        }
    }
    assert(all.take(all.len() as int) =~= all);
    n
}

/// The different values, in ascending order.
pub fn distinct(values: &[String]) -> (r: Vec<String>)
    ensures
        ascending(views(r@)),
        forall|p: Seq<char>| #[trigger] views(r@).contains(p) <==> views(values@).contains(p),
{
    let mut out: Vec<String> = Vec::new();
    let ghost all = views(values@);
    for i in 0..values.len()
        invariant
            all == views(values@),
            ascending(views(out@)),
            forall|p: Seq<char>| #[trigger]
                views(out@).contains(p) <==> all.take(i as int).contains(p),
    {
        let ghost before = views(out@);
        insert_unique(&mut out, values[i].clone());
        proof {
            let head = all.take(i as int);
            let more = all.take(i + 1);
            assert(more =~= head.push(values@[i as int]@));
            assert forall|p: Seq<char>| #[trigger]
                views(out@).contains(p) <==> more.contains(p) by {
                assert(before.contains(p) <==> head.contains(p));
                if head.contains(p) {
                    let k = choose|k: int| 0 <= k < head.len() && head[k] == p;
                    assert(more[k] == p);
                }
                if p == values@[i as int]@ {
                    assert(more[i as int] == p);
                }
                if more.contains(p) {
                    let k = choose|k: int| 0 <= k < more.len() && more[k] == p;
                    if k < i {
                        assert(head[k] == p);
                    }
                }
            }
        }
    }
    assert(all.take(all.len() as int) =~= all);
    out
}

/// Putting an item in its place keeps the rank.
proof fn lemma_insert_ranked(
    items: Seq<(Seq<char>, nat)>,
    item: (Seq<char>, nat),
    at: int,
)
    requires
        in_rank(items),
        0 <= at <= items.len(),
        forall|i: int| 0 <= i < at ==> goes_before(#[trigger] items[i], item),
        forall|i: int| at <= i < items.len() ==> goes_before(item, #[trigger] items[i]),
    ensures
        in_rank(items.insert(at, item)),
        forall|x: (Seq<char>, nat)| #[trigger]
            items.insert(at, item).contains(x) <==> (items.contains(x) || x == item),
{
    let out = items.insert(at, item);
    assert forall|i: int, j: int| 0 <= i < j < out.len() implies goes_before(
        #[trigger] out[i],
        #[trigger] out[j],
    ) by {
        if i < at {
            assert(out[i] == items[i]);
            if j < at {
                assert(out[j] == items[j]);
            } else if j > at {
                assert(out[j] == items[j - 1]);
            }
        } else {
            assert(out[j] == items[j - 1]);
            if i > at {
                assert(out[i] == items[i - 1]);
            }
        }
    }
    assert forall|x: (Seq<char>, nat)| #[trigger]
        out.contains(x) <==> (items.contains(x) || x == item) by {
        if items.contains(x) {
            let k = choose|k: int| 0 <= k < items.len() && items[k] == x;
            if k < at {
                assert(out[k] == x);
            } else {
                assert(out[k + 1] == x);
            }
        }
        if x == item {
            assert(out[at] == x);
        }
        if out.contains(x) {
            let k = choose|k: int| 0 <= k < out.len() && out[k] == x;
            if k < at {
                assert(items[k] == x);
            } else if k > at {
                assert(items[k - 1] == x);
            }
        }
    }
}

/// The names among the values that occur most often, with their counts.
pub fn top_counts(values: &[String]) -> (r: Vec<NamedCount>)
    ensures
        are_top_counts(views(values@), count_views(r@)),
        r@.len() <= 10,
        forall|i: int|
            0 <= i < r@.len() ==> (#[trigger] r@[i]).count > 0 && r@[i].count == occurrences(
                views(values@),
                r@[i].name@,
            ),
        forall|i: int, j: int|
            0 <= i < j < r@.len() ==> (#[trigger] r@[j]).count <= (#[trigger] r@[i]).count,
{
    let names = distinct(values);
    let ghost all = views(values@);
    let ghost found = views(names@);
    let mut items: Vec<NamedCount> = Vec::new();
    for i in 0..names.len()
        invariant
            all == views(values@),
            found == views(names@),
            ascending(found),
            forall|p: Seq<char>| #[trigger] found.contains(p) <==> all.contains(p),
            in_rank(count_views(items@)),
            forall|x: (Seq<char>, nat)| #[trigger]
                count_views(items@).contains(x) <==> (found.take(i as int).contains(x.0) && x.1
                    == occurrences(all, x.0)),
    {
        let ghost before = count_views(items@);
        let name = names[i].clone();
        let count: usize = count_of(values, name.as_str());
        let ghost item = (name@, count as nat);
        assert(found[i as int] == name@);
        let mut at: usize = 0;
        while at < items.len() && items[at].count >= count
            invariant
                at <= items@.len(),
                before == count_views(items@),
                forall|k: int| 0 <= k < at ==> #[trigger] before[k].1 >= count,
            ensures
                at <= items@.len(),
                forall|k: int| 0 <= k < at ==> #[trigger] before[k].1 >= count,
                at < items@.len() ==> before[at as int].1 < count,
            decreases items@.len() - at,
        {
            assert(before[at as int] == items@[at as int]@);
            at += 1;
        }
        proof {
            assert(at < items@.len() ==> before[at as int] == items@[at as int]@);
            assert forall|k: int| 0 <= k < at implies goes_before(#[trigger] before[k], item) by {
                assert(before.contains(before[k]));
                let head = found.take(i as int);
                let m = choose|m: int| 0 <= m < head.len() && head[m] == before[k].0;
                assert(precedes(found[m], found[i as int]));
            }
            assert forall|k: int| at <= k < before.len() implies goes_before(
                item,
                #[trigger] before[k],
            ) by {
                if k > at {
                    assert(goes_before(before[at as int], before[k]));
                }
            }
            lemma_insert_ranked(before, item, at as int);
        }
        let ghost old_items = items@;
        let added = NamedCount { name, count };
        items.insert(at, added);
        proof {
            assert(count_views(items@) =~= before.insert(at as int, item));
            let head = found.take(i as int);
            let more = found.take(i + 1);
            assert forall|x: (Seq<char>, nat)| #[trigger]
                count_views(items@).contains(x) <==> (more.contains(x.0) && x.1 == occurrences(
                    all,
                    x.0,
                )) by {
                assert(before.contains(x) <==> (head.contains(x.0) && x.1 == occurrences(
                    all,
                    x.0,
                )));
                if head.contains(x.0) {
                    let m = choose|m: int| 0 <= m < head.len() && head[m] == x.0;
                    assert(more[m] == x.0);
                }
                if more.contains(x.0) {
                    let m = choose|m: int| 0 <= m < more.len() && more[m] == x.0;
                    if m < i {
                        assert(head[m] == x.0);
                    }
                }
                assert(more[i as int] == name@);
            }
        }
    }
    let ghost ranked = count_views(items@);
    proof {
        assert(found.take(found.len() as int) =~= found);
        assert forall|x: (Seq<char>, nat)| #[trigger] ranked.contains(x) <==> (x.1 > 0 && x.1
            == occurrences(all, x.0)) by {
            lemma_occurrences(all, x.0);
            assert(found.contains(x.0) <==> all.contains(x.0));
        }
    }
    if items.len() > DEFAULT_TOP_LIMIT {
        items.truncate(DEFAULT_TOP_LIMIT);
        assert(count_views(items@) =~= ranked.take(DEFAULT_TOP_LIMIT as int));
    }
    assert(in_rank(ranked));
    proof {
        assert forall|i: int| 0 <= i < items@.len() implies (#[trigger] items@[i]).count > 0
            && items@[i].count == occurrences(all, items@[i].name@) by {
            assert(count_views(items@)[i] == ranked[i]);
            assert(ranked.contains(ranked[i]));
        }
        assert forall|i: int, j: int| 0 <= i < j < items@.len() implies (#[trigger] items@[j]).count
            <= (#[trigger] items@[i]).count by {
            assert(count_views(items@)[i] == ranked[i] && count_views(items@)[j] == ranked[j]);
            assert(goes_before(ranked[i], ranked[j]));
        }
    }
    items
}

/// Paths that belong together, under a name.
pub struct PathGroup {
    pub name: String,
    pub paths: Vec<String>,
}

/// The paths at the positions at which `name` stands among the keys.
pub open spec fn with_key(
    paths: Seq<Seq<char>>,
    keys: Seq<Seq<char>>,
    name: Seq<char>,
) -> Seq<Seq<char>>
    decreases paths.len(),
{
    if paths.len() == 0 || keys.len() == 0 {
        Seq::empty()
    } else {
        let before = with_key(paths.drop_last(), keys.drop_last(), name);
        if keys.last() == name {
            before.push(paths.last())
        } else {
            before
        }
    }
}

/// The groups are those of the paths under their keys: one for each key, in
/// ascending order, with the first paths that have it.
pub open spec fn are_groups(
    paths: Seq<Seq<char>>,
    keys: Seq<Seq<char>>,
    groups: Seq<PathGroup>,
) -> bool {
    let names = group_names(groups);
    &&& ascending(names)
    &&& forall|p: Seq<char>| #[trigger] names.contains(p) <==> keys.contains(p)
    &&& forall|i: int|
        0 <= i < groups.len() ==> views((#[trigger] groups[i]).paths@) == first_of(
            with_key(paths, keys, groups[i].name@),
            GROUPED_PATH_LIMIT as nat,
        )
}

/// The names of the groups.
pub open spec fn group_names(groups: Seq<PathGroup>) -> Seq<Seq<char>> {
    Seq::new(groups.len(), |i: int| groups[i].name@)
}

/// The first paths whose key is `name`.
fn paths_with_key(paths: &[String], keys: &[String], name: &str) -> (r: Vec<String>)
    requires
        paths@.len() == keys@.len(),
    ensures
        views(r@) == first_of(
            with_key(views(paths@), views(keys@), name@),
            GROUPED_PATH_LIMIT as nat,
        ),
{
    let ghost all = views(paths@);
    let ghost marks = views(keys@);
    let mut out: Vec<String> = Vec::new();
    assert(all.take(0) =~= Seq::<Seq<char>>::empty());
    assert(views(out@) =~= Seq::<Seq<char>>::empty());
    for i in 0..paths.len()
        invariant
            paths@.len() == keys@.len(),
            all == views(paths@),
            marks == views(keys@),
            views(out@) == first_of(
                with_key(all.take(i as int), marks.take(i as int), name@),
                GROUPED_PATH_LIMIT as nat,
            ),
    {
        let ghost before = out@;
        let ghost found = with_key(all.take(i as int), marks.take(i as int), name@);
        assert(all.take(i + 1).drop_last() =~= all.take(i as int));
        assert(marks.take(i + 1).drop_last() =~= marks.take(i as int));
        assert(marks.take(i + 1).last() == keys@[i as int]@);
        assert(all.take(i + 1).last() == paths@[i as int]@);
        assert(views(before).len() == before.len());
        if str_eq(keys[i].as_str(), name) {
            if out.len() < GROUPED_PATH_LIMIT {
                out.push(paths[i].clone());
                assert(views(out@) =~= views(before).push(paths@[i as int]@));
            } else {
                assert(found.push(paths@[i as int]@).take(GROUPED_PATH_LIMIT as int) =~= found.take(
                    GROUPED_PATH_LIMIT as int,
                ));
            }
        }
    }
    assert(all.take(all.len() as int) =~= all);
    assert(marks.take(marks.len() as int) =~= marks);
    out
}

/// The paths in groups, by their keys.
pub fn group_paths(paths: &[String], keys: &[String]) -> (r: Vec<PathGroup>)
    requires
        paths@.len() == keys@.len(),
    ensures
        are_groups(views(paths@), views(keys@), r@),
{
    let names = distinct(keys);
    let mut groups: Vec<PathGroup> = Vec::new();
    for i in 0..names.len()
        invariant
            paths@.len() == keys@.len(),
            groups@.len() == i,
            forall|k: int| 0 <= k < i ==> (#[trigger] groups@[k]).name@ == names@[k]@,
            forall|k: int|
                0 <= k < i ==> views((#[trigger] groups@[k]).paths@) == first_of(
                    with_key(views(paths@), views(keys@), groups@[k].name@),
                    GROUPED_PATH_LIMIT as nat,
                ),
    {
        let found = paths_with_key(paths, keys, names[i].as_str());
        groups.push(PathGroup { name: names[i].clone(), paths: found });
    }
    assert(group_names(groups@) =~= views(names@));
    groups
}

/// The first component of each path.
pub open spec fn top_keys(paths: Seq<Seq<char>>) -> Seq<Seq<char>> {
    Seq::new(paths.len(), |i: int| first_part(paths[i]))
}

/// The extension of each path.
pub open spec fn extension_keys(paths: Seq<Seq<char>>) -> Seq<Seq<char>> {
    Seq::new(paths.len(), |i: int| extension_label(paths[i]))
}

/// What a change to each path may touch.
pub open spec fn risk_keys(paths: Seq<Seq<char>>) -> Seq<Seq<char>> {
    Seq::new(paths.len(), |i: int| risk_of(paths[i]))
}

/// The first component of each path.
pub fn top_directories(paths: &[String]) -> (r: Vec<String>)
    ensures
        views(r@) == top_keys(views(paths@)),
{
    let mut out: Vec<String> = Vec::new();
    for i in 0..paths.len()
        invariant
            out@.len() == i,
            forall|k: int| 0 <= k < i ==> (#[trigger] out@[k])@ == first_part(paths@[k]@),
    {
        out.push(top_directory(paths[i].as_str()));
    }
    assert(views(out@) =~= top_keys(views(paths@)));
    out
}

/// The extension of each path.
pub fn extension_labels(paths: &[String]) -> (r: Vec<String>)
    ensures
        views(r@) == extension_keys(views(paths@)),
{
    let mut out: Vec<String> = Vec::new();
    for i in 0..paths.len()
        invariant
            out@.len() == i,
            forall|k: int| 0 <= k < i ==> (#[trigger] out@[k])@ == extension_label(paths@[k]@),
    {
        out.push(extension_key(paths[i].as_str()));
    }
    assert(views(out@) =~= extension_keys(views(paths@)));
    out
}

/// The paths in groups, by their first component.
pub fn changed_by_directory(paths: &[String]) -> (r: Vec<PathGroup>)
    ensures
        are_groups(views(paths@), top_keys(views(paths@)), r@),
{
    let keys = top_directories(paths);
    assert(views(keys@).len() == keys@.len());
    group_paths(paths, keys.as_slice())
}

/// The paths whose change may touch something in particular.
pub open spec fn risky(paths: Seq<Seq<char>>) -> Seq<Seq<char>>
    decreases paths.len(),
{
    if paths.len() == 0 {
        Seq::empty()
    } else {
        let before = risky(paths.drop_last());
        if risk_of(paths.last()) != "general"@ {
            before.push(paths.last())
        } else {
            before
        }
    }
}

/// The paths whose change may touch something in particular, in groups.
pub fn risk_hints(paths: &[String]) -> (r: Vec<PathGroup>)
    ensures
        are_groups(risky(views(paths@)), risk_keys(risky(views(paths@))), r@),
{
    let mut kept: Vec<String> = Vec::new();
    let mut keys: Vec<String> = Vec::new();
    let ghost all = views(paths@);
    assert(all.take(0) =~= Seq::<Seq<char>>::empty());
    assert(views(kept@) =~= Seq::<Seq<char>>::empty());
    assert(views(keys@) =~= Seq::<Seq<char>>::empty());
    for i in 0..paths.len()
        invariant
            all == views(paths@),
            views(kept@) == risky(all.take(i as int)),
            views(keys@) == risk_keys(views(kept@)),
            kept@.len() == keys@.len(),
    {
        let ghost before = kept@;
        let ghost marks = keys@;
        assert(all.take(i + 1).drop_last() =~= all.take(i as int));
        assert(all.take(i + 1).last() == paths@[i as int]@);
        let category = risk_category(paths[i].as_str());
        if !str_eq(category, "general") {
            kept.push(paths[i].clone());
            keys.push(category.to_owned());
            assert(views(kept@) =~= views(before).push(paths@[i as int]@));
            assert(views(keys@) =~= views(marks).push(category@));
            assert(risk_keys(views(kept@)) =~= risk_keys(views(before)).push(category@));
        }
    }
    assert(all.take(all.len() as int) =~= all);
    group_paths(kept.as_slice(), keys.as_slice())
}

/// The name of a definition, behind the word that begins it, is read from its line.
pub proof fn law_name_after(word: Seq<char>, name: Seq<char>, rest: Seq<char>)
    requires
        name.len() > 0,
        forall|i: int| 0 <= i < name.len() ==> crate::text::is_word_char(#[trigger] name[i]),
        rest.len() > 0 ==> !crate::text::is_word_char(rest[0]),
    ensures
        name_after(word + name + rest, word) == Some(name),
{
    let line = word + name + rest;
    assert(line.subrange(0, word.len() as int) =~= word);
    assert(line.skip(word.len() as int) =~= name + rest);
    lemma_leading_word(name, rest);
}

/// A word at the front of a text is the one that the text begins with.
proof fn lemma_leading_word(name: Seq<char>, rest: Seq<char>)
    requires
        forall|i: int| 0 <= i < name.len() ==> crate::text::is_word_char(#[trigger] name[i]),
        rest.len() > 0 ==> !crate::text::is_word_char(rest[0]),
    ensures
        leading_word(name + rest) == name,
    decreases name.len(),
{
    let all = name + rest;
    if name.len() == 0 {
        assert(all =~= rest);
        assert(leading_word(all) =~= name);
    } else {
        let tail = name.skip(1);
        assert forall|i: int| 0 <= i < tail.len() implies crate::text::is_word_char(
            #[trigger] tail[i],
        ) by {
            assert(name[i + 1] == tail[i]);
        }
        lemma_leading_word(tail, rest);
        assert(all.skip(1) =~= tail + rest);
        assert(all[0] == name[0]);
        assert(leading_word(all) =~= name);
    }
}

} // verus!
