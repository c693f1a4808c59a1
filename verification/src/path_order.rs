//! The order of paths: by the first component in which they differ.

use vstd::prelude::*;

use crate::order::{lemma_precedes_total, lemma_precedes_transitive, precedes, str_precedes};
use crate::paths::{part_views, parts_of, path_parts, same_path, Part, PathPart};
use crate::text::{str_eq, views};

verus! {

/// The rank of a component's kind: names come last.
pub open spec fn part_rank(part: Part) -> int {
    match part {
        Part::Root => 0,
        Part::Current => 1,
        Part::Parent => 2,
        Part::Name(_) => 3,
    }
}

/// The component `a` comes before `b`.
pub open spec fn part_before(a: Part, b: Part) -> bool {
    part_rank(a) < part_rank(b) || (a matches Part::Name(x) && b matches Part::Name(y) && precedes(
        x,
        y,
    ))
}

/// The components `a` come before `b`.
pub open spec fn parts_before(a: Seq<Part>, b: Seq<Part>) -> bool
    decreases a.len(),
{
    if b.len() == 0 {
        false
    } else if a.len() == 0 {
        true
    } else if a[0] != b[0] {
        part_before(a[0], b[0])
    } else {
        parts_before(a.skip(1), b.skip(1))
    }
}

/// The path `a` comes before `b`.
pub open spec fn path_before(a: Seq<char>, b: Seq<char>) -> bool {
    parts_before(parts_of(a), parts_of(b))
}

proof fn lemma_part_total(a: Part, b: Part)
    ensures
        a == b ==> !part_before(a, b),
        a != b ==> (part_before(a, b) <==> !part_before(b, a)),
{
    match (a, b) {
        (Part::Name(x), Part::Name(y)) => lemma_precedes_total(x, y),
        _ => {},
    }
}

proof fn lemma_part_transitive(a: Part, b: Part, c: Part)
    requires
        part_before(a, b),
        part_before(b, c),
    ensures
        part_before(a, c),
{
    match (a, b, c) {
        (Part::Name(x), Part::Name(y), Part::Name(z)) => lemma_precedes_transitive(x, y, z),
        _ => {},
    }
}

/// Of two different lists of components one comes before the other, and never
/// both.
pub proof fn lemma_parts_total(a: Seq<Part>, b: Seq<Part>)
    ensures
        a == b ==> !parts_before(a, b),
        a != b ==> (parts_before(a, b) <==> !parts_before(b, a)),
    decreases a.len(),
{
    if a.len() > 0 && b.len() > 0 {
        lemma_part_total(a[0], b[0]);
        if a[0] == b[0] {
            lemma_parts_total(a.skip(1), b.skip(1));
            if a.skip(1) == b.skip(1) {
                assert(a =~= seq![a[0]] + a.skip(1));
                assert(b =~= seq![b[0]] + b.skip(1));
            }
        }
    } else if a.len() == 0 && b.len() == 0 {
        assert(a =~= b);
    }
}

/// What comes before a list of components comes before all that the list comes
/// before.
pub proof fn lemma_parts_transitive(a: Seq<Part>, b: Seq<Part>, c: Seq<Part>)
    requires
        parts_before(a, b),
        parts_before(b, c),
    ensures
        parts_before(a, c),
    decreases a.len(),
{
    if a.len() > 0 {
        lemma_part_total(a[0], b[0]);
        lemma_part_total(b[0], c[0]);
        lemma_part_total(a[0], c[0]);
        if a[0] == b[0] && b[0] == c[0] {
            lemma_parts_transitive(a.skip(1), b.skip(1), c.skip(1));
        } else if a[0] != b[0] && b[0] != c[0] {
            lemma_part_transitive(a[0], b[0], c[0]);
        }
    }
}

/// The rank of a component's kind.
fn rank_of(part: &PathPart) -> (r: u8)
    ensures
        r == part_rank(part@),
{
    match part {
        PathPart::Root => 0,
        PathPart::Current => 1,
        PathPart::Parent => 2,
        PathPart::Name(_) => 3,
    }
}

/// Whether two components are the same.
fn same(a: &PathPart, b: &PathPart) -> (r: bool)
    ensures
        r == (a@ == b@),
{
    match (a, b) {
        (PathPart::Name(x), PathPart::Name(y)) => str_eq(x.as_str(), y.as_str()),
        _ => rank_of(a) == rank_of(b),
    }
}

/// Whether the path `a` comes before `b`.
pub fn comes_before(a: &str, b: &str) -> (r: bool)
    ensures
        r == path_before(a@, b@),
{
    let x = path_parts(a);
    let y = path_parts(b);
    let ghost xs = part_views(x@);
    let ghost ys = part_views(y@);
    let mut i: usize = 0;
    assert(xs.skip(0) =~= xs);
    assert(ys.skip(0) =~= ys);
    while i < x.len() && i < y.len()
        invariant
            xs == part_views(x@),
            ys == part_views(y@),
            xs == parts_of(a@),
            ys == parts_of(b@),
            i <= x@.len(),
            i <= y@.len(),
            parts_before(xs, ys) == parts_before(xs.skip(i as int), ys.skip(i as int)),
        decreases x@.len() - i,
    {
        assert(xs.skip(i as int)[0] == x@[i as int]@);
        assert(ys.skip(i as int)[0] == y@[i as int]@);
        assert(xs.skip(i as int).skip(1) =~= xs.skip(i + 1));
        assert(ys.skip(i as int).skip(1) =~= ys.skip(i + 1));
        if !same(&x[i], &y[i]) {
            return match (&x[i], &y[i]) {
                (PathPart::Name(p), PathPart::Name(q)) => str_precedes(p.as_str(), q.as_str()),
                _ => rank_of(&x[i]) < rank_of(&y[i]),
            };
        }
        i += 1;
    }
    i < y.len()
}

/// The place of a path among paths in order: behind those that come before it.
pub open spec fn path_slot(list: Seq<Seq<char>>, path: Seq<char>) -> int
    decreases list.len(),
{
    if list.len() > 0 && !path_before(list.last(), path) {
        path_slot(list.drop_last(), path)
    } else {
        list.len() as int
    }
}

/// The paths in order with one more, unless it is there.
pub open spec fn with_sorted(list: Seq<Seq<char>>, path: Seq<char>) -> Seq<Seq<char>> {
    let at = path_slot(list, path);
    if at < list.len() && parts_of(list[at]) == parts_of(path) {
        list
    } else {
        list.insert(at, path)
    }
}

/// The different paths, in order.
pub open spec fn sorted_paths(paths: Seq<Seq<char>>) -> Seq<Seq<char>>
    decreases paths.len(),
{
    if paths.len() == 0 {
        Seq::empty()
    } else {
        with_sorted(sorted_paths(paths.drop_last()), paths.last())
    }
}

/// Each path comes before the next ones.
pub open spec fn paths_ascend(list: Seq<Seq<char>>) -> bool {
    forall|i: int, j: int| 0 <= i < j < list.len() ==> path_before(
        #[trigger] list[i],
        #[trigger] list[j],
    )
}

proof fn lemma_path_slot(list: Seq<Seq<char>>, path: Seq<char>)
    requires
        paths_ascend(list),
    ensures
        0 <= path_slot(list, path) <= list.len(),
        forall|i: int| 0 <= i < path_slot(list, path) ==> path_before(#[trigger] list[i], path),
        forall|i: int| path_slot(list, path) <= i < list.len() ==> !path_before(
            #[trigger] list[i],
            path,
        ),
    decreases list.len(),
{
    if list.len() > 0 {
        let last = list[list.len() - 1];
        let init = list.drop_last();
        if !path_before(last, path) {
            assert forall|i: int, j: int| 0 <= i < j < init.len() implies path_before(
                #[trigger] init[i],
                #[trigger] init[j],
            ) by {
                assert(path_before(list[i], list[j]));
            }
            lemma_path_slot(init, path);
            assert forall|i: int| 0 <= i < path_slot(list, path) implies path_before(
                #[trigger] list[i],
                path,
            ) by {
                assert(list[i] == init[i]);
            }
            assert forall|i: int|
                path_slot(list, path) <= i < list.len() implies !path_before(
                #[trigger] list[i],
                path,
            ) by {
                if i < init.len() {
                    assert(list[i] == init[i]);
                }
            }
        } else {
            assert forall|i: int| 0 <= i < list.len() implies path_before(
                #[trigger] list[i],
                path,
            ) by {
                if i < list.len() - 1 {
                    assert(path_before(list[i], last));
                    lemma_parts_transitive(parts_of(list[i]), parts_of(last), parts_of(path));
                }
            }
        }
    }
}

/// The list keeps its order, and holds what it held and the new path.
proof fn lemma_with_sorted(list: Seq<Seq<char>>, path: Seq<char>)
    requires
        paths_ascend(list),
    ensures
        paths_ascend(with_sorted(list, path)),
        forall|p: Seq<char>| #[trigger] with_sorted(list, path).contains(p) ==> list.contains(p)
            || p == path,
        forall|p: Seq<char>| #[trigger] list.contains(p) ==> with_sorted(list, path).contains(p),
        exists|i: int|
            0 <= i < with_sorted(list, path).len() && parts_of(
                #[trigger] with_sorted(list, path)[i],
            ) == parts_of(path),
{
    lemma_path_slot(list, path);
    let at = path_slot(list, path);
    let all = with_sorted(list, path);
    if at < list.len() && parts_of(list[at]) == parts_of(path) {
        assert(parts_of(all[at]) == parts_of(path));
    } else {
        assert(all[at] == path);
        assert forall|i: int| at <= i < list.len() implies path_before(
            path,
            #[trigger] list[i],
        ) by {
            lemma_parts_total(parts_of(list[at]), parts_of(path));
            assert(!path_before(list[at], path));
            if i > at {
                assert(path_before(list[at], list[i]));
                lemma_parts_transitive(parts_of(path), parts_of(list[at]), parts_of(list[i]));
            }
        }
        assert forall|i: int, j: int| 0 <= i < j < all.len() implies path_before(
            #[trigger] all[i],
            #[trigger] all[j],
        ) by {
            assert(i < at ==> all[i] == list[i]);
            assert(i > at ==> all[i] == list[i - 1]);
            assert(j < at ==> all[j] == list[j]);
            assert(j > at ==> all[j] == list[j - 1]);
        }
        assert forall|p: Seq<char>| #[trigger] all.contains(p) implies list.contains(p) || p
            == path by {
            let k = choose|k: int| 0 <= k < all.len() && all[k] == p;
            if k < at {
                assert(list[k] == p);
            } else if k > at {
                assert(list[k - 1] == p);
            }
        }
        assert forall|p: Seq<char>| #[trigger] list.contains(p) implies all.contains(p) by {
            let k = choose|k: int| 0 <= k < list.len() && list[k] == p;
            if k < at {
                assert(all[k] == p);
            } else {
                assert(all[k + 1] == p);
            }
        }
    }
}

/// The list of the different paths is in order; each path is among it, and it
/// holds no other.
pub proof fn law_sorted_paths(paths: Seq<Seq<char>>)
    ensures
        paths_ascend(sorted_paths(paths)),
        forall|p: Seq<char>| #[trigger] sorted_paths(paths).contains(p) ==> paths.contains(p),
        forall|k: int|
            0 <= k < paths.len() ==> exists|i: int|
                0 <= i < sorted_paths(paths).len() && parts_of(sorted_paths(paths)[i]) == parts_of(
                    #[trigger] paths[k],
                ),
    decreases paths.len(),
{
    if paths.len() > 0 {
        let init = paths.drop_last();
        let before = sorted_paths(init);
        let all = sorted_paths(paths);
        law_sorted_paths(init);
        lemma_with_sorted(before, paths.last());
        assert forall|p: Seq<char>| #[trigger] all.contains(p) implies paths.contains(p) by {
            if before.contains(p) {
                assert(init.contains(p));
                let k = choose|k: int| 0 <= k < init.len() && init[k] == p;
                assert(paths[k] == p);
            } else {
                assert(paths[paths.len() - 1] == p);
            }
        }
        assert forall|k: int| 0 <= k < paths.len() implies exists|i: int|
            0 <= i < all.len() && parts_of(all[i]) == parts_of(#[trigger] paths[k]) by {
            if k < init.len() {
                assert(init[k] == paths[k]);
                let i = choose|i: int|
                    0 <= i < before.len() && parts_of(before[i]) == parts_of(init[k]);
                assert(before.contains(before[i]));
                let j = choose|j: int| 0 <= j < all.len() && all[j] == before[i];
                assert(parts_of(all[j]) == parts_of(paths[k]));
            } else {
                let i = choose|i: int|
                    0 <= i < all.len() && parts_of(#[trigger] all[i]) == parts_of(paths.last());
                assert(parts_of(all[i]) == parts_of(paths[k]));
            }
        }
    }
}

/// Puts a path in its place, unless it is there.
pub fn insert_sorted(list: &mut Vec<String>, path: &str)
    ensures
        views(final(list)@) == with_sorted(views(old(list)@), path@),
{
    let ghost all = views(list@);
    let mut at: usize = list.len();
    assert(all.take(at as int) =~= all);
    while at > 0 && !comes_before(list[at - 1].as_str(), path)
        invariant
            all == views(list@),
            at <= list@.len(),
            path_slot(all.take(at as int), path@) == path_slot(all, path@),
        ensures
            at <= list@.len(),
            at == path_slot(all, path@),
        decreases at,
    {
        assert(all.take(at as int).last() == list@[at - 1]@);
        assert(all.take(at as int).drop_last() =~= all.take(at - 1));
        at -= 1;
    }
    if at < list.len() && same_path(list[at].as_str(), path) {
        assert(all[at as int] == list@[at as int]@);
        return ;
    }
    assert(at < list@.len() ==> all[at as int] == list@[at as int]@);
    list.insert(at, path.to_owned());
    assert(views(list@) =~= all.insert(at as int, path@));
}

/// The different paths, in order.
pub fn sort_paths(paths: &[String]) -> (r: Vec<String>)
    ensures
        views(r@) == sorted_paths(views(paths@)),
{
    let ghost all = views(paths@);
    let mut out: Vec<String> = Vec::new();
    assert(views(out@) =~= Seq::<Seq<char>>::empty());
    assert(all.take(0) =~= Seq::<Seq<char>>::empty());
    for i in 0..paths.len()
        invariant
            all == views(paths@),
            views(out@) == sorted_paths(all.take(i as int)),
    {
        assert(all.take(i + 1).drop_last() =~= all.take(i as int));
        assert(all.take(i + 1).last() == paths@[i as int]@);
        insert_sorted(&mut out, paths[i].as_str());
    }
    assert(all.take(all.len() as int) =~= all);
    out
}

} // verus!
