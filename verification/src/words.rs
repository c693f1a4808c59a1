//! Words in a text: what stands between characters that are no part of a word.

use vstd::prelude::*;

use crate::lines::{split, split_chars};
use crate::sorted::ascending;
use crate::text::{
    ascii_lower, char_is_whitespace, chars_of, is_whitespace, str_ascii_lower, string_of, views,
};

verus! {

/// `c` is a letter or a digit of ASCII.
pub open spec fn is_alphanumeric(c: char) -> bool {
    'a' <= c <= 'z' || 'A' <= c <= 'Z' || '0' <= c <= '9'
}

/// Whether `c` is a letter or a digit of ASCII.
pub fn char_is_alphanumeric(c: char) -> (r: bool)
    ensures
        r == is_alphanumeric(c),
{
    ('a' <= c && c <= 'z') || ('A' <= c && c <= 'Z') || ('0' <= c && c <= '9')
}

/// `s` with a space for each character that is no letter or digit of ASCII.
pub open spec fn spaced(s: Seq<char>) -> Seq<char> {
    Seq::new(
        s.len(),
        |i: int|
            if is_alphanumeric(s[i]) {
                s[i]
            } else {
                ' '
            },
    )
}

/// The parts that have at least `min` characters.
pub open spec fn long_parts(parts: Seq<Seq<char>>, min: nat) -> Seq<Seq<char>>
    decreases parts.len(),
{
    if parts.len() == 0 {
        Seq::empty()
    } else {
        let before = long_parts(parts.drop_last(), min);
        if parts.last().len() >= min {
            before.push(parts.last())
        } else {
            before
        }
    }
}

/// The runs of letters and digits of ASCII in `s` that have at least `min`
/// characters.
pub open spec fn runs(s: Seq<char>, min: nat) -> Seq<Seq<char>> {
    long_parts(split(spaced(s), ' '), min)
}

/// The runs of letters and digits of ASCII in `s` that have at least `min`
/// characters.
pub fn find_runs(s: &str, min: usize) -> (r: Vec<String>)
    ensures
        views(r@) == runs(s@, min as nat),
{
    let chars = chars_of(s);
    let mut marked: Vec<char> = Vec::new();
    for i in 0..chars.len()
        invariant
            marked@.len() == i,
            forall|k: int|
                0 <= k < i ==> #[trigger] marked@[k] == (if is_alphanumeric(chars@[k]) {
                    chars@[k]
                } else {
                    ' '
                }),
    {
        marked.push(
            if char_is_alphanumeric(chars[i]) {
                chars[i]
            } else {
                ' '
            },
        );
    }
    assert(marked@ =~= spaced(s@));
    let parts = split_chars(marked.as_slice(), ' ');
    let ghost all = split(spaced(s@), ' ');
    let mut out: Vec<String> = Vec::new();
    assert(all.take(0) =~= Seq::<Seq<char>>::empty());
    assert(views(out@) =~= Seq::<Seq<char>>::empty());
    for i in 0..parts.len()
        invariant
            all == split(spaced(s@), ' '),
            parts@.len() == all.len(),
            forall|k: int| 0 <= k < parts@.len() ==> (#[trigger] parts@[k])@ == all[k],
            views(out@) == long_parts(all.take(i as int), min as nat),
    {
        let ghost before = out@;
        assert(all.take(i + 1).drop_last() =~= all.take(i as int));
        assert(parts@[i as int]@ == all[i as int]);
        if parts[i].len() >= min {
            let term = string_of(parts[i].as_slice());
            out.push(term);
            assert(views(out@) =~= views(before).push(term@));
        }
    }
    assert(all.take(all.len() as int) =~= all);
    out
}

/// The runs of letters and digits of ASCII in `s`, in lower case, that have at
/// least `min` characters.
pub open spec fn terms(s: Seq<char>, min: nat) -> Seq<Seq<char>> {
    runs(ascii_lower(s), min)
}

/// The runs of letters and digits of ASCII in `s`, in lower case, that have at
/// least `min` characters.
pub fn find_terms(s: &str, min: usize) -> (r: Vec<String>)
    ensures
        views(r@) == terms(s@, min as nat),
{
    let lower = str_ascii_lower(s);
    find_runs(lower.as_str(), min)
}

/// `s` with a space for each character of white space.
pub open spec fn blanked(s: Seq<char>) -> Seq<char> {
    Seq::new(
        s.len(),
        |i: int|
            if is_whitespace(s[i]) {
                ' '
            } else {
                s[i]
            },
    )
}

/// The words of `s`: what stands between white space.
pub open spec fn words(s: Seq<char>) -> Seq<Seq<char>> {
    long_parts(split(blanked(s), ' '), 1)
}

/// The words of `s`.
pub fn split_words(s: &str) -> (r: Vec<String>)
    ensures
        views(r@) == words(s@),
{
    let chars = chars_of(s);
    let mut marked: Vec<char> = Vec::new();
    for i in 0..chars.len()
        invariant
            marked@.len() == i,
            forall|k: int|
                0 <= k < i ==> #[trigger] marked@[k] == (if is_whitespace(chars@[k]) {
                    ' '
                } else {
                    chars@[k]
                }),
    {
        marked.push(
            if char_is_whitespace(chars[i]) {
                ' '
            } else {
                chars[i]
            },
        );
    }
    assert(marked@ =~= blanked(s@));
    let parts = split_chars(marked.as_slice(), ' ');
    let ghost all = split(blanked(s@), ' ');
    let mut out: Vec<String> = Vec::new();
    assert(all.take(0) =~= Seq::<Seq<char>>::empty());
    assert(views(out@) =~= Seq::<Seq<char>>::empty());
    for i in 0..parts.len()
        invariant
            all == split(blanked(s@), ' '),
            parts@.len() == all.len(),
            forall|k: int| 0 <= k < parts@.len() ==> (#[trigger] parts@[k])@ == all[k],
            views(out@) == long_parts(all.take(i as int), 1),
    {
        let ghost before = out@;
        assert(all.take(i + 1).drop_last() =~= all.take(i as int));
        assert(parts@[i as int]@ == all[i as int]);
        if parts[i].len() >= 1 {
            let word = string_of(parts[i].as_slice());
            out.push(word);
            assert(views(out@) =~= views(before).push(word@));
        }
    }
    assert(all.take(all.len() as int) =~= all);
    out
}

/// `found` are the different ones of the texts, in ascending order.
pub open spec fn are_distinct(all: Seq<Seq<char>>, found: Seq<Seq<char>>) -> bool {
    &&& ascending(found)
    &&& forall|p: Seq<char>| #[trigger] found.contains(p) <==> all.contains(p)
}

} // verus!
