//! Strings in ascending order, each only once: what a set or a map with string
//! keys holds, in the order in which it is walked.

use vstd::prelude::*;

use crate::order::{
    lemma_precedes_total, lemma_precedes_transitive, precedes, str_precedes,
};
use crate::text::{str_eq, views};

verus! {

/// The texts are in ascending order, and no two are equal.
pub open spec fn ascending(s: Seq<Seq<char>>) -> bool {
    forall|i: int, j: int| 0 <= i < j < s.len() ==> precedes(#[trigger] s[i], #[trigger] s[j])
}

/// Where `x` stands, or would stand, among the texts.
pub fn lower_bound(v: &[String], x: &str) -> (r: usize)
    requires
        ascending(views(v@)),
    ensures
        r <= v@.len(),
        forall|i: int| 0 <= i < r ==> precedes(#[trigger] views(v@)[i], x@),
        forall|i: int| r <= i < v@.len() ==> !precedes(#[trigger] views(v@)[i], x@),
{
    let ghost all = views(v@);
    let mut low: usize = 0;
    let mut high: usize = v.len();
    while low < high
        invariant
            low <= high <= v@.len(),
            all == views(v@),
            ascending(all),
            forall|i: int| 0 <= i < low ==> precedes(#[trigger] all[i], x@),
            forall|i: int| high <= i < v@.len() ==> !precedes(#[trigger] all[i], x@),
        decreases high - low,
    {
        let mid: usize = low + (high - low) / 2;
        assert(all[mid as int] == v@[mid as int]@);
        if str_precedes(v[mid].as_str(), x) {
            assert forall|i: int| 0 <= i < mid + 1 implies precedes(#[trigger] all[i], x@) by {
                if i < mid {
                    assert(precedes(all[i], all[mid as int]));
                    lemma_precedes_transitive(all[i], all[mid as int], x@);
                }
            }
            low = mid + 1;
        } else {
            assert forall|i: int| mid <= i < v@.len() implies !precedes(#[trigger] all[i], x@) by {
                if i > mid && precedes(all[i], x@) {
                    assert(precedes(all[mid as int], all[i]));
                    lemma_precedes_transitive(all[mid as int], all[i], x@);
                }
            }
            high = mid;
        }
    }
    low
}

/// The position of `x` among the texts, where it is there.
pub fn position(v: &[String], x: &str) -> (r: Option<usize>)
    requires
        ascending(views(v@)),
    ensures
        r is Some == views(v@).contains(x@),
        r matches Some(i) ==> i < v@.len() && v@[i as int]@ == x@,
{
    let i: usize = lower_bound(v, x);
    let ghost all = views(v@);
    if i < v.len() && str_eq(v[i].as_str(), x) {
        assert(all[i as int] == x@);
        return Some(i);
    }
    proof {
        assert forall|k: int| 0 <= k < all.len() implies #[trigger] all[k] != x@ by {
            lemma_precedes_total(all[k], x@);
            if k > i {
                assert(precedes(all[i as int], all[k]));
                lemma_precedes_total(all[i as int], x@);
                if all[k] == x@ {
                    assert(precedes(all[i as int], x@));
                }
            }
        }
    }
    None
}

/// Puts `x` in its place at position `at`.
pub proof fn lemma_insert_ascending(s: Seq<Seq<char>>, x: Seq<char>, at: int)
    requires
        ascending(s),
        0 <= at <= s.len(),
        forall|i: int| 0 <= i < at ==> precedes(#[trigger] s[i], x),
        forall|i: int| at <= i < s.len() ==> precedes(x, #[trigger] s[i]),
    ensures
        ascending(s.insert(at, x)),
        forall|p: Seq<char>| #[trigger]
            s.insert(at, x).contains(p) <==> (s.contains(p) || p == x),
{
    let out = s.insert(at, x);
    assert forall|i: int, j: int| 0 <= i < j < out.len() implies precedes(
        #[trigger] out[i],
        #[trigger] out[j],
    ) by {
        if i < at {
            assert(out[i] == s[i]);
            if j < at {
                assert(out[j] == s[j]);
            } else if j > at {
                assert(out[j] == s[j - 1]);
            }
        } else {
            assert(out[j] == s[j - 1]);
            if i > at {
                assert(out[i] == s[i - 1]);
            }
        }
    }
    assert forall|p: Seq<char>| #[trigger] out.contains(p) <==> (s.contains(p) || p == x) by {
        if s.contains(p) {
            let k = choose|k: int| 0 <= k < s.len() && s[k] == p;
            if k < at {
                assert(out[k] == p);
            } else {
                assert(out[k + 1] == p);
            }
        }
        if p == x {
            assert(out[at] == p);
        }
        if out.contains(p) {
            let k = choose|k: int| 0 <= k < out.len() && out[k] == p;
            if k < at {
                assert(s[k] == p);
            } else if k > at {
                assert(s[k - 1] == p);
            }
        }
    }
}

/// What is not at the place where `x` would stand comes after it.
pub proof fn lemma_after_bound(s: Seq<Seq<char>>, x: Seq<char>, at: int)
    requires
        ascending(s),
        0 <= at <= s.len(),
        forall|i: int| at <= i < s.len() ==> !precedes(#[trigger] s[i], x),
        at < s.len() ==> s[at] != x,
    ensures
        forall|i: int| at <= i < s.len() ==> precedes(x, #[trigger] s[i]),
{
    assert forall|i: int| at <= i < s.len() implies precedes(x, #[trigger] s[i]) by {
        lemma_precedes_total(s[at], x);
        if i > at {
            assert(precedes(s[at], s[i]));
            lemma_precedes_transitive(x, s[at], s[i]);
        }
    }
}

/// Adds `x`, unless it is there.
pub fn insert_unique(v: &mut Vec<String>, x: String)
    requires
        ascending(views(old(v)@)),
    ensures
        ascending(views(final(v)@)),
        forall|p: Seq<char>| #[trigger]
            views(final(v)@).contains(p) <==> (views(old(v)@).contains(p) || p == x@),
{
    let i: usize = lower_bound(v.as_slice(), x.as_str());
    let ghost all = views(v@);
    if i < v.len() && str_eq(v[i].as_str(), x.as_str()) {
        assert(all[i as int] == x@);
        return ;
    }
    proof {
        lemma_after_bound(all, x@, i as int);
        lemma_insert_ascending(all, x@, i as int);
    }
    let ghost before = v@;
    let ghost added = x;
    v.insert(i, x);
    assert(v@ == before.insert(i as int, added));
    assert(views(v@) =~= all.insert(i as int, added@));
}

/// The texts that a list holds.
pub open spec fn text_set(v: Seq<String>) -> Set<Seq<char>> {
    Set::new(|p: Seq<char>| views(v).contains(p))
}

/// Adds `x` and says so, unless it is there.
pub fn insert_new(v: &mut Vec<String>, x: &str) -> (r: bool)
    requires
        ascending(views(old(v)@)),
    ensures
        ascending(views(final(v)@)),
        r == !text_set(old(v)@).contains(x@),
        text_set(final(v)@) == text_set(old(v)@).insert(x@),
{
    let ghost before = text_set(v@);
    if position(v.as_slice(), x).is_some() {
        assert(before.insert(x@) =~= before);
        return false;
    }
    insert_unique(v, x.to_owned());
    assert(text_set(v@) =~= before.insert(x@));
    true
}

/// Texts in ascending order are told by which they are: two such lists with the
/// same texts are the same list.
pub proof fn law_ascending_unique(a: Seq<Seq<char>>, b: Seq<Seq<char>>)
    requires
        ascending(a),
        ascending(b),
        forall|p: Seq<char>| #[trigger] a.contains(p) <==> b.contains(p),
    ensures
        a == b,
    decreases a.len(),
{
    if a.len() == 0 {
        if b.len() > 0 {
            assert(b.contains(b[0]));
            assert(a.contains(b[0]));
        }
        assert(a =~= b);
    } else {
        let last = a.last();
        assert(a.contains(last));
        assert(b.contains(last));
        let k = choose|k: int| 0 <= k < b.len() && b[k] == last;
        if k < b.len() - 1 {
            let top = b[b.len() - 1];
            assert(precedes(b[k], top));
            assert(b.contains(top));
            assert(a.contains(top));
            let m = choose|m: int| 0 <= m < a.len() && a[m] == top;
            lemma_precedes_total(last, top);
            if m < a.len() - 1 {
                assert(precedes(a[m], a[a.len() - 1]));
            }
        }
        assert(b.last() == last);
        let x = a.drop_last();
        let y = b.drop_last();
        assert forall|p: Seq<char>| #[trigger] x.contains(p) <==> y.contains(p) by {
            if x.contains(p) {
                let m = choose|m: int| 0 <= m < x.len() && x[m] == p;
                assert(a[m] == p);
                assert(a.contains(p));
                let n = choose|n: int| 0 <= n < b.len() && b[n] == p;
                assert(precedes(a[m], a[a.len() - 1]));
                lemma_precedes_total(p, last);
                assert(n < b.len() - 1);
                assert(y[n] == p);
            }
            if y.contains(p) {
                let m = choose|m: int| 0 <= m < y.len() && y[m] == p;
                assert(b[m] == p);
                assert(b.contains(p));
                assert(a.contains(p));
                let n = choose|n: int| 0 <= n < a.len() && a[n] == p;
                assert(precedes(b[m], b[b.len() - 1]));
                lemma_precedes_total(p, last);
                assert(n < a.len() - 1);
                assert(x[n] == p);
            }
        }
        law_ascending_unique(x, y);
        assert(a =~= x.push(last));
        assert(b =~= y.push(last));
    }
}

/// How many of the texts come before `x`.
pub open spec fn rank(s: Seq<Seq<char>>, x: Seq<char>) -> int
    decreases s.len(),
{
    if s.len() == 0 {
        0
    } else {
        rank(s.drop_last(), x) + if precedes(s.last(), x) {
            1int
        } else {
            0int
        }
    }
}

/// In ascending order the texts before `x` are the first ones.
pub proof fn lemma_rank(s: Seq<Seq<char>>, x: Seq<char>, at: int)
    requires
        0 <= at <= s.len(),
        forall|i: int| 0 <= i < at ==> precedes(#[trigger] s[i], x),
        forall|i: int| at <= i < s.len() ==> !precedes(#[trigger] s[i], x),
    ensures
        rank(s, x) == at,
    decreases s.len(),
{
    if s.len() > 0 {
        let init = s.drop_last();
        assert(s.last() == s[s.len() - 1]);
        assert forall|i: int| 0 <= i < init.len() implies #[trigger] init[i] == s[i] by {}
        if at == s.len() {
            lemma_rank(init, x, at - 1);
        } else {
            lemma_rank(init, x, at);
        }
    }
}

/// The place of `x` among texts in order: behind those that do not come after it.
pub open spec fn text_slot(list: Seq<Seq<char>>, x: Seq<char>) -> int
    decreases list.len(),
{
    if list.len() > 0 && precedes(x, list.last()) {
        text_slot(list.drop_last(), x)
    } else {
        list.len() as int
    }
}

/// The texts in order; equal ones stay.
pub open spec fn sorted_texts(texts: Seq<Seq<char>>) -> Seq<Seq<char>>
    decreases texts.len(),
{
    if texts.len() == 0 {
        Seq::empty()
    } else {
        let before = sorted_texts(texts.drop_last());
        before.insert(text_slot(before, texts.last()), texts.last())
    }
}

/// No text stands behind one that comes after it.
pub open spec fn not_descending(list: Seq<Seq<char>>) -> bool {
    forall|i: int, j: int|
        0 <= i < j < list.len() ==> !precedes(#[trigger] list[j], #[trigger] list[i])
}

proof fn lemma_text_slot(list: Seq<Seq<char>>, x: Seq<char>)
    requires
        not_descending(list),
    ensures
        0 <= text_slot(list, x) <= list.len(),
        forall|i: int| 0 <= i < text_slot(list, x) ==> !precedes(x, #[trigger] list[i]),
        forall|i: int| text_slot(list, x) <= i < list.len() ==> precedes(x, #[trigger] list[i]),
    decreases list.len(),
{
    if list.len() > 0 {
        let last = list[list.len() - 1];
        let init = list.drop_last();
        if precedes(x, last) {
            assert forall|i: int, j: int| 0 <= i < j < init.len() implies !precedes(
                #[trigger] init[j],
                #[trigger] init[i],
            ) by {
                assert(!precedes(list[j], list[i]));
            }
            lemma_text_slot(init, x);
            assert forall|i: int| 0 <= i < text_slot(list, x) implies !precedes(
                x,
                #[trigger] list[i],
            ) by {
                assert(list[i] == init[i]);
            }
            assert forall|i: int| text_slot(list, x) <= i < list.len() implies precedes(
                x,
                #[trigger] list[i],
            ) by {
                if i < init.len() {
                    assert(list[i] == init[i]);
                }
            }
        } else {
            assert forall|i: int| 0 <= i < list.len() implies !precedes(x, #[trigger] list[i]) by {
                if i < list.len() - 1 {
                    assert(!precedes(last, list[i]));
                    lemma_precedes_total(list[i], last);
                    if precedes(x, list[i]) && list[i] != last {
                        lemma_precedes_transitive(x, list[i], last);
                    }
                }
            }
        }
    }
}

/// The texts in order are the same texts, none behind one that comes after it.
pub proof fn law_sorted_texts(texts: Seq<Seq<char>>)
    ensures
        not_descending(sorted_texts(texts)),
        sorted_texts(texts).len() == texts.len(),
        sorted_texts(texts).to_multiset() == texts.to_multiset(),
    decreases texts.len(),
{
    broadcast use vstd::seq_lib::group_to_multiset_ensures;

    if texts.len() == 0 {
        assert(sorted_texts(texts) =~= texts);
    } else {
        let init = texts.drop_last();
        let x = texts.last();
        law_sorted_texts(init);
        let before = sorted_texts(init);
        lemma_text_slot(before, x);
        let at = text_slot(before, x);
        let all = before.insert(at, x);
        assert forall|i: int, j: int| 0 <= i < j < all.len() implies !precedes(
            #[trigger] all[j],
            #[trigger] all[i],
        ) by {
            assert(i < at ==> all[i] == before[i]);
            assert(i > at ==> all[i] == before[i - 1]);
            assert(j < at ==> all[j] == before[j]);
            assert(j > at ==> all[j] == before[j - 1]);
            if i == at {
                lemma_precedes_total(x, before[j - 1]);
            }
        }
        assert(texts =~= init.push(x));
    }
}

/// The texts in order; equal ones stay.
pub fn sort_texts(texts: &[String]) -> (r: Vec<String>)
    ensures
        views(r@) == sorted_texts(views(texts@)),
{
    let ghost all = views(texts@);
    let mut out: Vec<String> = Vec::new();
    assert(views(out@) =~= Seq::<Seq<char>>::empty());
    assert(all.take(0) =~= Seq::<Seq<char>>::empty());
    for i in 0..texts.len()
        invariant
            all == views(texts@),
            views(out@) == sorted_texts(all.take(i as int)),
    {
        assert(all.take(i + 1).drop_last() =~= all.take(i as int));
        assert(all.take(i + 1).last() == texts@[i as int]@);
        let ghost before = views(out@);
        let x = texts[i].as_str();
        let mut at: usize = out.len();
        assert(before.take(at as int) =~= before);
        while at > 0 && str_precedes(x, out[at - 1].as_str())
            invariant
                before == views(out@),
                at <= out@.len(),
                text_slot(before.take(at as int), x@) == text_slot(before, x@),
            ensures
                at <= out@.len(),
                at == text_slot(before, x@),
            decreases at,
        {
            assert(before.take(at as int).last() == out@[at - 1]@);
            assert(before.take(at as int).drop_last() =~= before.take(at - 1));
            at -= 1;
        }
        out.insert(at, texts[i].clone());
        assert(views(out@) =~= before.insert(at as int, x@));
    }
    assert(all.take(all.len() as int) =~= all);
    out
}

} // verus!
