//! Paths as text: components between slashes, and what can be said of a path
//! without looking at the file system.

use vstd::prelude::*;

use crate::lines::{
    join, lemma_join_free, lemma_split_between, lemma_split_free, lemma_split_join,
    lemma_split_parts, lemma_split_whole, split, str_join, str_split,
};
use crate::text::{
    chars_of, last_position, lemma_find_from, occurs_at, opt_view, replace_all, rfind_char, starts_with, str_eq, str_replace,
    str_skip, str_strip_prefix, views,
};

verus! {

/// One component of a path.
#[derive(Clone, Debug, PartialEq, Eq)]
pub enum PathPart {
    Root,
    Current,
    Parent,
    Name(String),
}

/// One component of a path, by its text.
pub enum Part {
    Root,
    Current,
    Parent,
    Name(Seq<char>),
}

impl View for PathPart {
    type V = Part;

    open spec fn view(&self) -> Part {
        match self {
            PathPart::Root => Part::Root,
            PathPart::Current => Part::Current,
            PathPart::Parent => Part::Parent,
            PathPart::Name(s) => Part::Name(s@),
        }
    }
}

/// The components by their text.
pub open spec fn part_views(parts: Seq<PathPart>) -> Seq<Part> {
    Seq::new(parts.len(), |i: int| parts[i]@)
}

/// The components that the pieces between the slashes of a path stand for: an
/// empty piece stands for none, and a dot only where it is the first piece.
pub open spec fn pieces_parts(pieces: Seq<Seq<char>>) -> Seq<Part>
    decreases pieces.len(),
{
    if pieces.len() == 0 {
        Seq::empty()
    } else {
        let before = pieces_parts(pieces.drop_last());
        let piece = pieces.last();
        if piece.len() == 0 {
            before
        } else if piece == "."@ {
            if pieces.len() == 1 {
                before.push(Part::Current)
            } else {
                before
            }
        } else if piece == ".."@ {
            before.push(Part::Parent)
        } else {
            before.push(Part::Name(piece))
        }
    }
}

/// The components of a path.
pub open spec fn parts_of(path: Seq<char>) -> Seq<Part> {
    let named = pieces_parts(split(path, '/'));
    if is_rooted(path) {
        seq![Part::Root] + named
    } else {
        named
    }
}

/// The path begins at the root.
pub open spec fn is_rooted(path: Seq<char>) -> bool {
    path.len() > 0 && path[0] == '/'
}

/// Whether the path begins at the root.
pub fn is_absolute(path: &str) -> (r: bool)
    ensures
        r == is_rooted(path@),
{
    let a = chars_of(path);
    a.len() > 0 && a[0] == '/'
}

/// The components of a path.
pub fn path_parts(path: &str) -> (r: Vec<PathPart>)
    ensures
        part_views(r@) == parts_of(path@),
{
    let mut out: Vec<PathPart> = Vec::new();
    let rooted = is_absolute(path);
    if rooted {
        out.push(PathPart::Root);
    }
    let pieces = str_split(path, '/');
    let ghost all = split(path@, '/');
    let ghost head = part_views(out@);
    assert(all.take(0) =~= Seq::<Seq<char>>::empty());
    assert(head =~= if rooted {
        seq![Part::Root]
    } else {
        Seq::<Part>::empty()
    });
    for i in 0..pieces.len()
        invariant
            views(pieces@) == all,
            all == split(path@, '/'),
            part_views(out@) == head + pieces_parts(all.take(i as int)),
    {
        let ghost before = out@;
        let piece = &pieces[i];
        assert(piece@ == all[i as int]);
        assert(all.take(i + 1).drop_last() =~= all.take(i as int));
        assert(all.take(i + 1).last() == piece@);
        if piece.as_str().is_empty() {
        } else if str_eq(piece.as_str(), ".") {
            if i == 0 {
                out.push(PathPart::Current);
            }
        } else if str_eq(piece.as_str(), "..") {
            out.push(PathPart::Parent);
        } else {
            out.push(PathPart::Name(piece.clone()));
        }
        proof {
            let named = pieces_parts(all.take(i as int));
            assert(all.take(i + 1).len() == i + 1);
            if out@.len() > before.len() {
                let part = out@.last()@;
                assert(part_views(out@) =~= part_views(before).push(part));
                assert(pieces_parts(all.take(i + 1)) == named.push(part));
                assert((head + named).push(part) =~= head + named.push(part));
            } else {
                assert(pieces_parts(all.take(i + 1)) == named);
            }
        }
    }
    assert(all.take(all.len() as int) =~= all);
    assert(part_views(out@) =~= parts_of(path@));
    out
}

/// The text of a component other than the root.
pub open spec fn part_text(part: Part) -> Seq<char> {
    match part {
        Part::Root => Seq::empty(),
        Part::Current => "."@,
        Part::Parent => ".."@,
        Part::Name(s) => s,
    }
}

/// The path with the given components: with a slash at its start where the
/// first is the root, and one between each two of the others.
pub open spec fn render(parts: Seq<Part>) -> Seq<char> {
    if parts.len() > 0 && parts[0] is Root {
        "/"@ + join(part_texts(parts.skip(1)), "/"@)
    } else {
        join(part_texts(parts), "/"@)
    }
}

/// The texts of the components.
pub open spec fn part_texts(parts: Seq<Part>) -> Seq<Seq<char>> {
    Seq::new(parts.len(), |i: int| part_text(parts[i]))
}

/// The path with the given components.
pub fn render_parts(parts: &[PathPart]) -> (r: String)
    ensures
        r@ == render(part_views(parts@)),
{
    let ghost all = part_views(parts@);
    let rooted = parts.len() > 0 && match parts[0] {
        PathPart::Root => true,
        _ => false,
    };
    assert(parts@.len() > 0 ==> all[0] == parts@[0]@);
    let start: usize = if rooted {
        1
    } else {
        0
    };
    let mut texts: Vec<String> = Vec::new();
    let ghost named = all.skip(start as int);
    for i in start..parts.len()
        invariant
            start <= parts@.len(),
            all == part_views(parts@),
            named == all.skip(start as int),
            views(texts@) == part_texts(named.take(i - start)),
    {
        let t: String = match &parts[i] {
            PathPart::Root => String::new(),
            PathPart::Current => ".".to_owned(),
            PathPart::Parent => "..".to_owned(),
            PathPart::Name(s) => s.clone(),
        };
        let ghost before = texts@;
        texts.push(t);
        assert(all[i as int] == parts@[i as int]@);
        assert(t@ =~= part_text(named[i - start]));
        assert(views(texts@) =~= views(before).push(t@));
        assert(part_texts(named.take(i - start + 1)) =~= part_texts(named.take(i - start)).push(
            t@,
        ));
    }
    assert(named.take(named.len() as int) =~= named);
    let body = str_join(texts.as_slice(), "/");
    if rooted {
        let mut out = "/".to_owned();
        out.append(body.as_str());
        out
    } else {
        assert(named =~= all);
        body
    }
}

/// The components that remain of a path without its dots: a double dot takes
/// away the component before it, and stays where there is none.
pub open spec fn resolved(parts: Seq<Part>) -> Seq<Part>
    decreases parts.len(),
{
    if parts.len() == 0 {
        Seq::empty()
    } else {
        let before = resolved(parts.drop_last());
        match parts.last() {
            Part::Current => before,
            Part::Parent => if before.len() > 0 && before.last() !is Root {
                before.drop_last()
            } else {
                before.push(Part::Parent)
            },
            part => before.push(part),
        }
    }
}

/// The path without its dots; a dot where nothing remains.
pub open spec fn normalized(path: Seq<char>) -> Seq<char> {
    let rest = resolved(parts_of(path));
    if rest.len() == 0 {
        "."@
    } else {
        render(rest)
    }
}

/// The path without its dots.
pub fn lexical_normalize(path: &str) -> (r: String)
    ensures
        r@ == normalized(path@),
{
    let parts = path_parts(path);
    let ghost all = part_views(parts@);
    let mut out: Vec<PathPart> = Vec::new();
    assert(all.take(0) =~= Seq::<Part>::empty());
    for i in 0..parts.len()
        invariant
            all == part_views(parts@),
            part_views(out@) == resolved(all.take(i as int)),
    {
        let ghost before = out@;
        assert(all.take(i + 1).drop_last() =~= all.take(i as int));
        assert(all.take(i + 1).last() == parts@[i as int]@);
        assert(before.len() > 0 ==> part_views(before).last() == before.last()@);
        match &parts[i] {
            PathPart::Current => {},
            PathPart::Parent => {
                let can_pop = out.len() > 0 && match out[out.len() - 1] {
                    PathPart::Root => false,
                    _ => true,
                };
                if can_pop {
                    let _last = out.pop();
                } else {
                    out.push(PathPart::Parent);
                }
            },
            PathPart::Root => out.push(PathPart::Root),
            PathPart::Name(s) => out.push(PathPart::Name(s.clone())),
        }
        assert(part_views(out@) =~= resolved(all.take(i + 1)));
    }
    assert(all.take(all.len() as int) =~= all);
    if out.len() == 0 {
        return ".".to_owned();
    }
    render_parts(out.as_slice())
}

/// The path without its last component, where that is not the root.
pub open spec fn parent_of(path: Seq<char>) -> Option<Seq<char>> {
    let parts = parts_of(path);
    if parts.len() == 0 || parts.last() is Root {
        None
    } else {
        Some(render(parts.drop_last()))
    }
}

/// The path without its last component, where that is not the root.
pub fn parent_path(path: &str) -> (r: Option<String>)
    ensures
        crate::text::opt_view(r) == parent_of(path@),
{
    let mut parts = path_parts(path);
    let ghost all = parts@;
    if parts.len() == 0 {
        return None;
    }
    assert(part_views(all).last() == all.last()@);
    match parts[parts.len() - 1] {
        PathPart::Root => {
            return None;
        },
        _ => {},
    }
    let _last = parts.pop();
    assert(part_views(parts@) =~= part_views(all).drop_last());
    Some(render_parts(parts.as_slice()))
}

/// The last component of a path, where that is a name.
pub open spec fn file_name_of(path: Seq<char>) -> Option<Seq<char>> {
    let parts = parts_of(path);
    if parts.len() > 0 {
        match parts.last() {
            Part::Name(s) => Some(s),
            _ => None,
        }
    } else {
        None
    }
}

/// The last component of a path, where that is a name.
pub fn file_name(path: &str) -> (r: Option<String>)
    ensures
        opt_view(r) == file_name_of(path@),
{
    let parts = path_parts(path);
    assert(part_views(parts@).len() == parts@.len());
    if parts.len() == 0 {
        return None;
    }
    assert(part_views(parts@).last() == parts@.last()@);
    match &parts[parts.len() - 1] {
        PathPart::Name(s) => Some(s.clone()),
        _ => None,
    }
}

/// What follows the last dot of a file name, where that is not its first
/// character.
pub open spec fn name_extension(name: Seq<char>) -> Option<Seq<char>> {
    match last_position(name, '.') {
        Some(k) => if k > 0 {
            Some(name.skip(k + 1))
        } else {
            None
        },
        None => None,
    }
}

/// The extension of a path: what follows the last dot of its file name.
pub open spec fn extension_of(path: Seq<char>) -> Option<Seq<char>> {
    match file_name_of(path) {
        Some(name) => name_extension(name),
        None => None,
    }
}

/// The extension of a path.
pub fn extension(path: &str) -> (r: Option<String>)
    ensures
        opt_view(r) == extension_of(path@),
{
    match file_name(path) {
        None => None,
        Some(name) => {
            let chars = chars_of(name.as_str());
            let total: usize = chars.len();
            match rfind_char(chars.as_slice(), '.') {
                Some(k) => {
                    if k == 0 {
                        return None;
                    }
                    assert(k < total);
                    Some(str_skip(name.as_str(), k + 1))
                },
                None => None,
            }
        },
    }
}

/// What follows `root` in `path`, where `path` lies at or below it.
pub open spec fn below(path: Seq<char>, root: Seq<char>) -> Option<Seq<char>> {
    let all = parts_of(path);
    let head = parts_of(root);
    if head.len() <= all.len() && all.take(head.len() as int) == head {
        Some(render(all.skip(head.len() as int)))
    } else {
        None
    }
}

/// Whether two components are the same.
fn same_part(a: &PathPart, b: &PathPart) -> (r: bool)
    ensures
        r == (a@ == b@),
{
    match (a, b) {
        (PathPart::Root, PathPart::Root) => true,
        (PathPart::Current, PathPart::Current) => true,
        (PathPart::Parent, PathPart::Parent) => true,
        (PathPart::Name(x), PathPart::Name(y)) => str_eq(x.as_str(), y.as_str()),
        _ => false,
    }
}

/// What follows `root` in `path`, where `path` lies at or below it.
pub fn strip_prefix(path: &str, root: &str) -> (r: Option<String>)
    ensures
        opt_view(r) == below(path@, root@),
{
    let all = path_parts(path);
    let head = path_parts(root);
    let ghost xs = part_views(all@);
    let ghost ys = part_views(head@);
    assert(xs.len() == all@.len());
    assert(ys.len() == head@.len());
    if head.len() > all.len() {
        return None;
    }
    for i in 0..head.len()
        invariant
            head@.len() <= all@.len(),
            xs == part_views(all@),
            ys == part_views(head@),
            xs == parts_of(path@),
            ys == parts_of(root@),
            forall|k: int| 0 <= k < i ==> #[trigger] xs[k] == ys[k],
    {
        assert(xs[i as int] == all@[i as int]@);
        assert(ys[i as int] == head@[i as int]@);
        if !same_part(&all[i], &head[i]) {
            assert(xs.take(ys.len() as int)[i as int] != ys[i as int]);
            return None;
        }
    }
    assert(xs.take(ys.len() as int) =~= ys);
    let rest = vstd::slice::slice_subrange(all.as_slice(), head.len(), all.len());
    assert(part_views(rest@) =~= xs.skip(ys.len() as int));
    Some(render_parts(rest))
}

/// Whether two paths have the same components.
pub fn same_path(a: &str, b: &str) -> (r: bool)
    ensures
        r == (parts_of(a@) == parts_of(b@)),
{
    let x = path_parts(a);
    let y = path_parts(b);
    let ghost xs = part_views(x@);
    let ghost ys = part_views(y@);
    assert(xs.len() == x@.len());
    assert(ys.len() == y@.len());
    if x.len() != y.len() {
        return false;
    }
    for i in 0..x.len()
        invariant
            x@.len() == y@.len(),
            xs == part_views(x@),
            ys == part_views(y@),
            xs == parts_of(a@),
            ys == parts_of(b@),
            forall|k: int| 0 <= k < i ==> #[trigger] xs[k] == ys[k],
    {
        assert(xs[i as int] == x@[i as int]@);
        assert(ys[i as int] == y@[i as int]@);
        if !same_part(&x[i], &y[i]) {
            return false;
        }
    }
    assert(xs =~= ys);
    true
}

/// A path with slashes, as it is shown: without the mark that long paths of
/// Windows begin with.
pub open spec fn shown_path(raw: Seq<char>) -> Seq<char> {
    if starts_with(raw, "\\\\?\\UNC\\"@) {
        "//"@ + replace_all(raw.skip(8), "\\"@, "/"@)
    } else if starts_with(raw, "\\\\?\\"@) {
        replace_all(raw.skip(4), "\\"@, "/"@)
    } else {
        replace_all(raw, "\\"@, "/"@)
    }
}

/// A path with slashes, as it is shown.
pub fn normalize_display_path(raw: &str) -> (r: String)
    ensures
        r@ == shown_path(raw@),
{
    proof {
        reveal_strlit("\\");
        reveal_strlit("\\\\?\\");
        reveal_strlit("\\\\?\\UNC\\");
    }
    if let Some(rest) = str_strip_prefix(raw, "\\\\?\\UNC\\") {
        let mut out = "//".to_owned();
        out.append(str_replace(rest.as_str(), "\\", "/").as_str());
        return out;
    }
    if let Some(rest) = str_strip_prefix(raw, "\\\\?\\") {
        return str_replace(rest.as_str(), "\\", "/");
    }
    str_replace(raw, "\\", "/")
}

/// A name that can stand between two slashes.
pub open spec fn is_name(s: Seq<char>) -> bool {
    s.len() > 0 && !s.contains('/') && s != "."@ && s != ".."@
}

/// The components of a path without dots: the root only first, and a double
/// dot only first or just behind the root.
pub open spec fn tidy(parts: Seq<Part>) -> bool {
    forall|i: int|
        0 <= i < parts.len() ==> match #[trigger] parts[i] {
            Part::Root => i == 0,
            Part::Current => false,
            Part::Parent => i == 0 || (i == 1 && parts[0] is Root),
            Part::Name(s) => is_name(s),
        }
}

/// Each component of a path but the root is made of one of its pieces.
proof fn lemma_pieces_parts(pieces: Seq<Seq<char>>)
    requires
        forall|i: int| 0 <= i < pieces.len() ==> !(#[trigger] pieces[i]).contains('/'),
    ensures
        forall|i: int|
            0 <= i < pieces_parts(pieces).len() ==> match #[trigger] pieces_parts(pieces)[i] {
                Part::Root => false,
                Part::Name(s) => is_name(s),
                _ => true,
            },
    decreases pieces.len(),
{
    if pieces.len() > 0 {
        lemma_pieces_parts(pieces.drop_last());
    }
}

/// What remains of the components of a path is tidy.
proof fn lemma_resolved_tidy(parts: Seq<Part>)
    requires
        forall|i: int|
            0 <= i < parts.len() ==> match #[trigger] parts[i] {
                Part::Root => i == 0,
                Part::Name(s) => is_name(s),
                _ => true,
            },
    ensures
        tidy(resolved(parts)),
        parts.len() > 0 && parts[0] is Root ==> resolved(parts).len() > 0
            && resolved(parts)[0] is Root,
        parts.len() > 0 && parts[0] !is Root ==> forall|i: int|
            0 <= i < resolved(parts).len() ==> !((#[trigger] resolved(parts)[i]) is Root),
        parts.len() == 0 ==> resolved(parts).len() == 0,
    decreases parts.len(),
{
    if parts.len() > 0 {
        let init = parts.drop_last();
        lemma_resolved_tidy(init);
        let before = resolved(init);
        let out = resolved(parts);
        if init.len() > 0 {
            assert(init[0] == parts[0]);
        }
        match parts.last() {
            Part::Current => {},
            Part::Parent => {
                if before.len() > 0 && before.last() !is Root {
                    assert forall|i: int| 0 <= i < out.len() implies match #[trigger] out[i] {
                        Part::Root => i == 0,
                        Part::Current => false,
                        Part::Parent => i == 0 || (i == 1 && out[0] is Root),
                        Part::Name(s) => is_name(s),
                    } by {
                        assert(out[i] == before[i]);
                        if i == 1 {
                            assert(out[0] == before[0]);
                        }
                    }
                } else {
                    if before.len() > 0 {
                        assert(before[before.len() - 1] is Root);
                        assert(before.len() == 1);
                    }
                }
            },
            _ => {
                assert(parts.last() == parts[parts.len() - 1]);
            },
        }
    }
}

/// Tidy components stay as they are.
proof fn lemma_resolved_fixed(parts: Seq<Part>)
    requires
        tidy(parts),
    ensures
        resolved(parts) == parts,
    decreases parts.len(),
{
    if parts.len() > 0 {
        let init = parts.drop_last();
        assert forall|i: int| 0 <= i < init.len() implies match #[trigger] init[i] {
            Part::Root => i == 0,
            Part::Current => false,
            Part::Parent => i == 0 || (i == 1 && init[0] is Root),
            Part::Name(s) => is_name(s),
        } by {
            assert(init[i] == parts[i]);
        }
        lemma_resolved_fixed(init);
        let last = parts[parts.len() - 1];
        assert(init.push(last) =~= parts);
    } else {
        assert(resolved(parts) =~= parts);
    }
}

/// The pieces that are the texts of tidy components, and of which an empty one
/// may be the first, stand for these components.
proof fn lemma_pieces_of_tidy(parts: Seq<Part>, lead: Seq<Seq<char>>)
    requires
        forall|i: int|
            0 <= i < parts.len() ==> match #[trigger] parts[i] {
                Part::Root => false,
                Part::Current => false,
                Part::Parent => true,
                Part::Name(s) => is_name(s),
            },
        forall|i: int| 0 <= i < lead.len() ==> (#[trigger] lead[i]).len() == 0,
    ensures
        pieces_parts(lead + part_texts(parts)) == parts,
    decreases parts.len() + lead.len(),
{
    reveal_strlit(".");
    reveal_strlit("..");
    let pieces = lead + part_texts(parts);
    if parts.len() > 0 {
        let init = parts.drop_last();
        assert(pieces.drop_last() =~= lead + part_texts(init));
        lemma_pieces_of_tidy(init, lead);
        let last = parts[parts.len() - 1];
        assert(pieces.last() == part_text(last));
        assert(init.push(last) =~= parts);
    } else if lead.len() > 0 {
        assert(pieces.drop_last() =~= lead.drop_last() + part_texts(parts));
        lemma_pieces_of_tidy(parts, lead.drop_last());
        assert(pieces.last() == lead[lead.len() - 1]);
    } else {
        assert(pieces_parts(pieces) =~= parts);
    }
}

/// Names and double dots are the components of the path that they are written as,
/// which does not begin at the root.
proof fn lemma_parts_of_plain(parts: Seq<Part>)
    requires
        parts.len() > 0,
        forall|i: int|
            0 <= i < parts.len() ==> match #[trigger] parts[i] {
                Part::Root => false,
                Part::Current => false,
                Part::Parent => true,
                Part::Name(s) => is_name(s),
            },
    ensures
        parts_of(render(parts)) == parts,
{
    reveal_strlit("/");
    reveal_strlit(".");
    reveal_strlit("..");
    assert("/"@ =~= seq!['/']);
    let texts = part_texts(parts);
    assert forall|i: int| 0 <= i < texts.len() implies !(#[trigger] texts[i]).contains('/') by {
        assert(match parts[i] {
            Part::Name(s) => is_name(s),
            _ => true,
        });
    }
    assert(parts[0] !is Root);
    lemma_split_join(texts, '/');
    lemma_pieces_of_tidy(parts, Seq::empty());
    assert(Seq::<Seq<char>>::empty() + texts =~= texts);
    let path = render(parts);
    assert(!is_rooted(path)) by {
        if is_rooted(path) {
            let none = Seq::<char>::empty();
            assert(path =~= none.push('/') + path.skip(1));
            lemma_split_between(none, path.skip(1), '/');
            assert(split(none, '/') =~= seq![none]);
            assert(split(path, '/')[0] =~= none);
            assert(texts[0].len() == 0);
            assert(match parts[0] {
                Part::Name(s) => is_name(s),
                _ => true,
            });
        }
    }
}

/// Tidy components are those of the path that they are written as.
proof fn lemma_parts_of_render(parts: Seq<Part>)
    requires
        tidy(parts),
        parts.len() > 0,
    ensures
        parts_of(render(parts)) == parts,
{
    reveal_strlit("/");
    reveal_strlit(".");
    reveal_strlit("..");
    assert("/"@ =~= seq!['/']);
    if parts[0] is Root {
        let named = parts.skip(1);
        let texts = part_texts(named);
        let body = join(texts, "/"@);
        let path = render(parts);
        assert(path[0] == '/');
        assert forall|i: int| 0 <= i < named.len() implies match #[trigger] named[i] {
            Part::Root => false,
            Part::Current => false,
            Part::Parent => true,
            Part::Name(s) => is_name(s),
        } by {
            assert(named[i] == parts[i + 1]);
        }
        let none = Seq::<char>::empty();
        assert(path =~= none.push('/') + body);
        lemma_split_between(none, body, '/');
        assert(split(none, '/') =~= seq![none]);
        if named.len() > 0 {
            assert forall|i: int| 0 <= i < texts.len() implies !(#[trigger] texts[i]).contains(
                '/',
            ) by {
                assert(match named[i] {
                    Part::Name(s) => is_name(s),
                    _ => true,
                });
            }
            lemma_split_join(texts, '/');
            assert(split(path, '/') =~= seq![none] + texts);
            lemma_pieces_of_tidy(named, seq![none]);
        } else {
            assert(body =~= none);
            assert(split(path, '/') =~= seq![none, none] + texts);
            lemma_pieces_of_tidy(named, seq![none, none]);
        }
        assert(seq![Part::Root] + named =~= parts);
    } else {
        lemma_parts_of_plain(parts);
    }
}

/// What remains of the components of a path is tidy, and begins at the root
/// where the path does.
proof fn lemma_rest_tidy(path: Seq<char>)
    ensures
        tidy(resolved(parts_of(path))),
        is_rooted(path) == (resolved(parts_of(path)).len() > 0 && resolved(
            parts_of(path),
        )[0] is Root),
{
    let pieces = split(path, '/');
    lemma_split_parts(path, '/');
    assert forall|i: int| 0 <= i < pieces.len() implies !(#[trigger] pieces[i]).contains('/') by {
        if pieces[i].contains('/') {
            let j = choose|j: int| 0 <= j < pieces[i].len() && pieces[i][j] == '/';
            assert(pieces[i][j] != '/');
        }
    }
    lemma_pieces_parts(pieces);
    let parts = parts_of(path);
    assert forall|i: int| 0 <= i < parts.len() implies match #[trigger] parts[i] {
        Part::Root => i == 0,
        Part::Name(s) => is_name(s),
        _ => true,
    } by {
        if is_rooted(path) {
            if i > 0 {
                assert(parts[i] == pieces_parts(pieces)[i - 1]);
            }
        } else {
            assert(parts[i] == pieces_parts(pieces)[i]);
        }
    }
    lemma_resolved_tidy(parts);
    if is_rooted(path) {
        assert(parts[0] is Root);
    } else if parts.len() > 0 {
        assert(parts[0] == pieces_parts(pieces)[0]);
    }
}

/// A dot is one component, and nothing remains of it.
proof fn lemma_dot()
    ensures
        parts_of("."@) == seq![Part::Current],
        resolved(parts_of("."@)).len() == 0,
        !is_rooted("."@),
{
    reveal_strlit(".");
    reveal_with_fuel(pieces_parts, 2);
    reveal_with_fuel(resolved, 2);
    let dot = "."@;
    assert(!dot.contains('/'));
    lemma_split_whole(dot, '/');
    let one = seq![dot];
    assert(one.drop_last() =~= Seq::<Seq<char>>::empty());
    assert(pieces_parts(one) =~= seq![Part::Current]);
    let dots = seq![Part::Current];
    assert(dots.drop_last() =~= Seq::<Part>::empty());
    assert(resolved(dots) =~= Seq::<Part>::empty());
}

/// Taking the dots out of a path a second time changes nothing.
pub proof fn law_normalize_idempotent(path: Seq<char>)
    ensures
        normalized(normalized(path)) == normalized(path),
{
    lemma_rest_tidy(path);
    let rest = resolved(parts_of(path));
    if rest.len() > 0 {
        lemma_parts_of_render(rest);
        lemma_resolved_fixed(rest);
    } else {
        lemma_dot();
    }
}

/// A path without its dots is never empty; it has a dot as a component only where
/// it is the single dot, which the empty path becomes, and no double dot behind a
/// name; and it begins at the root exactly where the path did.
pub proof fn law_normalized_form(path: Seq<char>)
    ensures
        normalized(path).len() > 0,
        path.len() == 0 ==> normalized(path) == "."@,
        parts_of(normalized(path)).contains(Part::Current) ==> normalized(path) == "."@,
        forall|i: int, j: int|
            0 <= i < j < parts_of(normalized(path)).len() && (#[trigger] parts_of(
                normalized(path),
            )[i]) is Name ==> (#[trigger] parts_of(normalized(path))[j]) !is Parent,
        is_rooted(normalized(path)) == is_rooted(path),
{
    reveal_strlit(".");
    lemma_dot();
    lemma_rest_tidy(path);
    let rest = resolved(parts_of(path));
    let r = normalized(path);
    if rest.len() > 0 {
        lemma_parts_of_render(rest);
        lemma_rest_tidy(r);
        lemma_resolved_fixed(rest);
        if r.len() == 0 {
            lemma_split_whole(r, '/');
            lemma_empty_parts();
        }
    }
    if path.len() == 0 {
        assert(path =~= Seq::<char>::empty());
        lemma_empty_parts();
    }
}

/// The empty path has no components.
proof fn lemma_empty_parts()
    ensures
        parts_of(Seq::<char>::empty()).len() == 0,
        resolved(parts_of(Seq::<char>::empty())).len() == 0,
{
    reveal_with_fuel(pieces_parts, 2);
    let none = Seq::<char>::empty();
    lemma_split_whole(none, '/');
    let one = seq![none];
    assert(one.drop_last() =~= Seq::<Seq<char>>::empty());
    assert(pieces_parts(one) =~= Seq::<Part>::empty());
}

/// Each name among the components of a path is one of its pieces, and no component
/// is a dot where the first piece is empty.
proof fn lemma_parts_from_pieces(pieces: Seq<Seq<char>>)
    ensures
        forall|i: int|
            0 <= i < pieces_parts(pieces).len() ==> match #[trigger] pieces_parts(pieces)[i] {
                Part::Name(s) => pieces.contains(s),
                Part::Current => pieces[0].len() > 0,
                _ => true,
            },
    decreases pieces.len(),
{
    reveal_strlit(".");
    if pieces.len() > 0 {
        let init = pieces.drop_last();
        lemma_parts_from_pieces(init);
        let before = pieces_parts(init);
        let all = pieces_parts(pieces);
        assert forall|i: int| 0 <= i < all.len() implies match #[trigger] all[i] {
            Part::Name(s) => pieces.contains(s),
            Part::Current => pieces[0].len() > 0,
            _ => true,
        } by {
            if i < before.len() {
                assert(all[i] == before[i]);
                if let Part::Name(s) = all[i] {
                    let k = choose|k: int| 0 <= k < init.len() && init[k] == s;
                    assert(pieces[k] == s);
                }
                if init.len() > 0 {
                    assert(init[0] == pieces[0]);
                }
            } else {
                assert(pieces[pieces.len() - 1] == pieces.last());
            }
        }
    }
}

/// A text without backslashes is shown as it is.
proof fn lemma_shown_plain(s: Seq<char>)
    requires
        !s.contains('\\'),
    ensures
        shown_path(s) == s,
{
    reveal_strlit("\\");
    reveal_strlit("\\\\?\\");
    reveal_strlit("\\\\?\\UNC\\");
    let mark = "\\"@;
    assert forall|i: int| !occurs_at(s, mark, i) by {
        if occurs_at(s, mark, i) {
            assert(s.subrange(i, i + 1)[0] == s[i]);
            assert(s[i] == '\\');
        }
    }
    lemma_find_from(s, mark, 0);
    if s.len() > 0 {
        assert(s[0] != '\\');
        if starts_with(s, "\\\\?\\"@) {
            assert(s.take(4)[0] == s[0]);
        }
        if starts_with(s, "\\\\?\\UNC\\"@) {
            assert(s.take(8)[0] == s[0]);
        }
    }
}

/// What is shown of a path below a root that is absolute has the name of the path,
/// where the path holds no backslash.
pub proof fn lemma_below_name(path: Seq<char>, root: Seq<char>)
    requires
        is_rooted(root),
        !path.contains('\\'),
        parts_of(path) != parts_of(root),
        below(path, root) is Some,
    ensures
        file_name_of(shown_path(below(path, root)->0)) == file_name_of(path),
{
    reveal_strlit("/");
    reveal_strlit(".");
    reveal_strlit("..");
    let all = parts_of(path);
    let head = parts_of(root);
    let pieces = split(path, '/');
    lemma_split_parts(path, '/');
    lemma_split_free(path, '/', '\\');
    assert forall|i: int| 0 <= i < pieces.len() implies !(#[trigger] pieces[i]).contains('/') by {
        if pieces[i].contains('/') {
            let j = choose|j: int| 0 <= j < pieces[i].len() && pieces[i][j] == '/';
            assert(pieces[i][j] != '/');
        }
    }
    lemma_pieces_parts(pieces);
    lemma_parts_from_pieces(pieces);
    let named = pieces_parts(pieces);
    assert(head[0] is Root);
    assert(all.take(head.len() as int)[0] == all[0]);
    assert(is_rooted(path)) by {
        if !is_rooted(path) {
            assert(all[0] == named[0]);
        }
    }
    let none = Seq::<char>::empty();
    assert(path =~= none.push('/') + path.skip(1));
    lemma_split_between(none, path.skip(1), '/');
    assert(split(none, '/') =~= seq![none]);
    assert(pieces[0].len() == 0);
    let rest = all.skip(head.len() as int);
    if rest.len() == 0 {
        assert(all.take(head.len() as int) =~= all);
    }
    assert forall|i: int| 0 <= i < rest.len() implies match #[trigger] rest[i] {
        Part::Root => false,
        Part::Current => false,
        Part::Parent => true,
        Part::Name(s) => is_name(s) && pieces.contains(s),
    } by {
        assert(rest[i] == named[i + head.len() - 1]);
    }
    lemma_parts_of_plain(rest);
    let texts = part_texts(rest);
    assert forall|k: int| 0 <= k < texts.len() implies !(#[trigger] texts[k]).contains('\\') by {
        if let Part::Name(s) = rest[k] {
            let j = choose|j: int| 0 <= j < pieces.len() && pieces[j] == s;
            assert(!pieces[j].contains('\\'));
        }
    }
    lemma_join_free(texts, "/"@, '\\');
    assert(rest[0] !is Root);
    lemma_shown_plain(render(rest));
    assert(rest.last() == all.last());
}

/// A name behind a directory is one more part, and it is the name of the file.
pub proof fn law_child_path(dir: Seq<char>, name: Seq<char>)
    requires
        dir.len() > 0,
        is_name(name),
    ensures
        parts_of(dir.push('/') + name) == parts_of(dir).push(Part::Name(name)),
        file_name_of(dir.push('/') + name) == Some(name),
        parent_of(dir.push('/') + name) == Some(render(parts_of(dir))),
        below(dir.push('/') + name, dir) == Some(name),
{
    let path = dir.push('/') + name;
    crate::lines::lemma_split_between(dir, name, '/');
    crate::lines::lemma_split_whole(name, '/');
    let pieces = split(path, '/');
    assert(pieces =~= split(dir, '/').push(name));
    assert(pieces.drop_last() =~= split(dir, '/'));
    assert(pieces_parts(pieces) == pieces_parts(split(dir, '/')).push(Part::Name(name)));
    assert(path[0] == dir[0]);
    let all = parts_of(path);
    let head = parts_of(dir);
    assert(all =~= head.push(Part::Name(name)));
    assert(all.drop_last() =~= head);
    assert(all.take(head.len() as int) =~= head);
    let rest = all.skip(head.len() as int);
    assert(rest =~= seq![Part::Name(name)]);
    assert(part_texts(rest) =~= seq![name]);
    assert(join(seq![name], "/"@) == name);
}

/// A path that does not lie under the root has no rest below it.
pub proof fn law_below(path: Seq<char>, root: Seq<char>)
    ensures
        below(path, root) is Some <==> parts_of(root).is_prefix_of(parts_of(path)),
{
}

/// What stands behind the last dot of a name is its extension; a dot at its front begins
/// none.
pub proof fn law_extension(stem: Seq<char>, ext: Seq<char>)
    requires
        !ext.contains('.'),
    ensures
        name_extension(stem.push('.') + ext) == if stem.len() > 0 {
            Some(ext)
        } else {
            None
        },
        name_extension(ext) is None,
{
    let name = stem.push('.') + ext;
    lemma_last_dot(stem, ext);
    lemma_no_dot(ext);
    assert(name.skip(stem.len() as int + 1) =~= ext);
}

/// Where the last dot of a name stands.
proof fn lemma_last_dot(stem: Seq<char>, ext: Seq<char>)
    requires
        !ext.contains('.'),
    ensures
        last_position(stem.push('.') + ext, '.') == Some(stem.len() as int),
    decreases ext.len(),
{
    let name = stem.push('.') + ext;
    if ext.len() == 0 {
        assert(name =~= stem.push('.'));
    } else {
        let front = ext.drop_last();
        assert(ext.contains(ext.last()));
        assert(!front.contains('.')) by {
            if front.contains('.') {
                let i = front.index_of('.');
                assert(ext[i] == '.');
            }
        }
        lemma_last_dot(stem, front);
        assert(name.drop_last() =~= stem.push('.') + front);
    }
}

/// A name without a dot has none.
proof fn lemma_no_dot(name: Seq<char>)
    requires
        !name.contains('.'),
    ensures
        last_position(name, '.') is None,
    decreases name.len(),
{
    if name.len() > 0 {
        let front = name.drop_last();
        assert(name.contains(name.last()));
        assert(!front.contains('.')) by {
            if front.contains('.') {
                let i = front.index_of('.');
                assert(name[i] == '.');
            }
        }
        lemma_no_dot(front);
    }
}

} // verus!
