//! Text cut at separators and into lines, and put together again.

use vstd::prelude::*;

use crate::text::{
    chars_of, contains, count_matches, find_from, lemma_find_from, occurs_at, replace_all, string_of,
    views,
};

verus! {

/// The parts of `s` between the characters `sep`: one more than there are
/// separators, so that the empty text has one empty part.
pub open spec fn split(s: Seq<char>, sep: char) -> Seq<Seq<char>>
    decreases s.len(),
{
    if s.len() == 0 {
        seq![Seq::<char>::empty()]
    } else {
        let before = split(s.drop_last(), sep);
        if s.last() == sep {
            before.push(Seq::<char>::empty())
        } else {
            before.drop_last().push(before.last().push(s.last()))
        }
    }
}

/// `parts` one after the other, with `sep` between each two.
pub open spec fn join(parts: Seq<Seq<char>>, sep: Seq<char>) -> Seq<char>
    decreases parts.len(),
{
    if parts.len() == 0 {
        Seq::empty()
    } else if parts.len() == 1 {
        parts[0]
    } else {
        join(parts.drop_last(), sep) + sep + parts.last()
    }
}

/// `line` without the carriage return it ends with.
pub open spec fn strip_cr(line: Seq<char>) -> Seq<char> {
    if line.len() > 0 && line.last() == '\r' {
        line.drop_last()
    } else {
        line
    }
}

/// The text `new` is `old` with each of `n` occurrences of `pat` replaced by `to`: both
/// are the same pieces, none of which holds `pat`, with the one or the other between
/// them.
pub open spec fn replaces(
    old_text: Seq<char>,
    pat: Seq<char>,
    to: Seq<char>,
    new_text: Seq<char>,
    n: nat,
) -> bool {
    exists|pieces: Seq<Seq<char>>| #[trigger]
        are_pieces(pieces, old_text, pat, to, new_text) && pieces.len() == n + 1
}

/// The pieces, none of which holds `pat`, make the one text with `pat` between them and
/// the other with `to`.
pub open spec fn are_pieces(
    pieces: Seq<Seq<char>>,
    old_text: Seq<char>,
    pat: Seq<char>,
    to: Seq<char>,
    new_text: Seq<char>,
) -> bool {
    &&& join(pieces, pat) == old_text
    &&& join(pieces, to) == new_text
    &&& forall|k: int| 0 <= k < pieces.len() ==> !contains(#[trigger] pieces[k], pat)
}

/// The pieces between the occurrences of a pattern.
proof fn lemma_pieces(s: Seq<char>, pat: Seq<char>, to: Seq<char>) -> (pieces: Seq<Seq<char>>)
    requires
        pat.len() > 0,
    ensures
        are_pieces(pieces, s, pat, to, replace_all(s, pat, to)),
        pieces.len() == count_matches(s, pat) + 1,
    decreases s.len(),
{
    lemma_find_from(s, pat, 0);
    match find_from(s, pat, 0) {
        None => {
            assert(!contains(s, pat));
            let pieces = seq![s];
            assert(join(pieces, pat) == s && join(pieces, to) == s);
            pieces
        },
        Some(i) => {
            let rest = s.skip(i + pat.len());
            let behind = lemma_pieces(rest, pat, to);
            let first = s.take(i);
            let pieces = seq![first] + behind;
            lemma_join_first(first, behind, pat);
            lemma_join_first(first, behind, to);
            assert(s.subrange(i, i + pat.len()) == pat);
            assert(s =~= first + pat + rest);
            assert(!contains(first, pat)) by {
                if contains(first, pat) {
                    let j = choose|j: int| occurs_at(first, pat, j);
                    assert(first.subrange(j, j + pat.len()) =~= s.subrange(j, j + pat.len()));
                    assert(occurs_at(s, pat, j));
                }
            }
            assert forall|k: int| 0 <= k < pieces.len() implies !contains(
                #[trigger] pieces[k],
                pat,
            ) by {
                if k > 0 {
                    assert(pieces[k] == behind[k - 1]);
                }
            }
            pieces
        },
    }
}

/// Replacing every occurrence of a text puts the other in the place of each, counts
/// them, and leaves all else as it is.
pub proof fn law_replaced(s: Seq<char>, pat: Seq<char>, to: Seq<char>)
    requires
        pat.len() > 0,
    ensures
        replaces(s, pat, to, replace_all(s, pat, to), count_matches(s, pat)),
{
    let pieces = lemma_pieces(s, pat, to);
}

/// The lines of `s`: each ends at a line feed, which a carriage return may
/// precede; what follows the last line feed is a line if it is not empty, and
/// keeps a carriage return at its end.
pub open spec fn lines(s: Seq<char>) -> Seq<Seq<char>> {
    let parts = split(s, '\n');
    let ended = Seq::new((parts.len() - 1) as nat, |i: int| strip_cr(parts[i]));
    if parts.last().len() == 0 {
        ended
    } else {
        ended.push(parts.last())
    }
}

/// The parts of a text are one or more.
pub proof fn lemma_split_len(s: Seq<char>, sep: char)
    ensures
        split(s, sep).len() >= 1,
        split(s, sep).len() <= s.len() + 1,
    decreases s.len(),
{
    if s.len() > 0 {
        lemma_split_len(s.drop_last(), sep);
    }
}

/// The first of the parts stands before the others, which are joined behind it.
pub proof fn lemma_join_first(first: Seq<char>, parts: Seq<Seq<char>>, sep: Seq<char>)
    requires
        parts.len() > 0,
    ensures
        join(seq![first] + parts, sep) == first + sep + join(parts, sep),
    decreases parts.len(),
{
    let all = seq![first] + parts;
    if parts.len() == 1 {
        assert(all.drop_last() =~= seq![first]);
        assert(join(all.drop_last(), sep) == first);
        assert(all.last() == parts[0]);
    } else {
        lemma_join_first(first, parts.drop_last(), sep);
        assert(all.drop_last() =~= seq![first] + parts.drop_last());
        assert(all.last() == parts.last());
        assert(join(all, sep) =~= first + sep + join(parts, sep));
    }
}

/// Parts that follow one another are joined by what joins them all.
pub proof fn lemma_join_concat(x: Seq<Seq<char>>, y: Seq<Seq<char>>, sep: Seq<char>)
    requires
        x.len() > 0,
        y.len() > 0,
    ensures
        join(x + y, sep) == join(x, sep) + sep + join(y, sep),
    decreases y.len(),
{
    let all = x + y;
    assert(all.last() == y.last());
    if y.len() == 1 {
        assert(all.drop_last() =~= x);
    } else {
        lemma_join_concat(x, y.drop_last(), sep);
        assert(all.drop_last() =~= x + y.drop_last());
        assert(join(all, sep) =~= join(x, sep) + sep + join(y, sep));
    }
}

/// The number of line feeds in a text.
pub open spec fn newlines(s: Seq<char>) -> nat
    decreases s.len(),
{
    if s.len() == 0 {
        0
    } else {
        newlines(s.drop_last()) + if s.last() == '\n' {
            1nat
        } else {
            0nat
        }
    }
}

/// The line feeds of two texts are those of the one and of the other.
pub proof fn lemma_newlines_concat(a: Seq<char>, b: Seq<char>)
    ensures
        newlines(a + b) == newlines(a) + newlines(b),
    decreases b.len(),
{
    if b.len() == 0 {
        assert(a + b =~= a);
    } else {
        lemma_newlines_concat(a, b.drop_last());
        assert((a + b).drop_last() =~= a + b.drop_last());
    }
}

/// A text without line feeds has none.
proof fn lemma_newlines_none(s: Seq<char>)
    requires
        forall|j: int| 0 <= j < s.len() ==> s[j] != '\n',
    ensures
        newlines(s) == 0,
    decreases s.len(),
{
    if s.len() > 0 {
        lemma_newlines_none(s.drop_last());
    }
}

/// A line feed is one.
pub proof fn lemma_one_newline()
    ensures
        newlines(seq!['\n']) == 1,
{
    reveal_with_fuel(newlines, 2);
}

/// Lines that are joined have a line feed between each two of them.
pub proof fn lemma_newlines_joined(parts: Seq<Seq<char>>)
    requires
        parts.len() > 0,
        forall|k: int, j: int|
            0 <= k < parts.len() && 0 <= j < #[trigger] parts[k].len() ==> (#[trigger] parts[k][j])
                != '\n',
    ensures
        newlines(join(parts, seq!['\n'])) == parts.len() - 1,
    decreases parts.len(),
{
    lemma_newlines_none(parts.last());
    if parts.len() > 1 {
        let before = parts.drop_last();
        assert forall|k: int, j: int|
            0 <= k < before.len() && 0 <= j < #[trigger] before[k].len() implies (
        #[trigger] before[k][j]) != '\n' by {
            assert(before[k] == parts[k]);
            assert(parts[k][j] != '\n');
        }
        lemma_newlines_joined(before);
        lemma_newlines_concat(join(before, seq!['\n']) + seq!['\n'], parts.last());
        lemma_newlines_concat(join(before, seq!['\n']), seq!['\n']);
        lemma_one_newline();
    }
}

/// A text is its parts, joined again by what they were cut at.
pub proof fn law_split_joined(s: Seq<char>, sep: char)
    ensures
        join(split(s, sep), seq![sep]) == s,
    decreases s.len(),
{
    lemma_split_len(s, sep);
    if s.len() == 0 {
        assert(join(split(s, sep), seq![sep]) =~= s);
    } else {
        let before = split(s.drop_last(), sep);
        lemma_split_len(s.drop_last(), sep);
        law_split_joined(s.drop_last(), sep);
        let all = split(s, sep);
        if s.last() == sep {
            assert(all.drop_last() =~= before);
            assert(join(all, seq![sep]) =~= s);
        } else {
            assert(all.drop_last() =~= before.drop_last());
            if before.len() == 1 {
                assert(join(before, seq![sep]) =~= before[0]);
                assert(all[0] =~= before[0].push(s.last()));
                assert(before[0].push(s.last()) =~= s);
            } else {
                assert(join(before, seq![sep]) =~= join(before.drop_last(), seq![sep]) + seq![sep]
                    + before.last());
                assert(join(all, seq![sep]) =~= join(before.drop_last(), seq![sep]) + seq![sep]
                    + before.last().push(s.last()));
                assert(join(all, seq![sep]) =~= join(before, seq![sep]).push(s.last()));
                assert(s.drop_last().push(s.last()) =~= s);
            }
        }
    }
}

/// No part holds the character that the text was cut at.
pub proof fn lemma_split_parts(s: Seq<char>, sep: char)
    ensures
        forall|k: int, j: int|
            0 <= k < split(s, sep).len() && 0 <= j < #[trigger] split(s, sep)[k].len() ==> (
            #[trigger] split(s, sep)[k][j]) != sep,
    decreases s.len(),
{
    lemma_split_len(s, sep);
    if s.len() > 0 {
        let before = split(s.drop_last(), sep);
        lemma_split_len(s.drop_last(), sep);
        lemma_split_parts(s.drop_last(), sep);
        let all = split(s, sep);
        assert forall|k: int, j: int|
            0 <= k < all.len() && 0 <= j < #[trigger] all[k].len() implies (
        #[trigger] all[k][j]) != sep by {
            if k < before.len() - 1 {
                assert(all[k] == before[k]);
            } else if k == before.len() - 1 {
                if s.last() == sep {
                    assert(all[k] == before[k]);
                } else {
                    assert(all[k] == before[k].push(s.last()));
                    if j < before[k].len() {
                        assert(before[k][j] != sep);
                    }
                }
            }
        }
    }
}

/// A text without separators is its only part.
pub proof fn lemma_split_whole(s: Seq<char>, sep: char)
    requires
        !s.contains(sep),
    ensures
        split(s, sep) == seq![s],
    decreases s.len(),
{
    if s.len() == 0 {
        assert(s =~= Seq::<char>::empty());
    } else {
        assert(!s.drop_last().contains(sep)) by {
            if s.drop_last().contains(sep) {
                let i = choose|i: int| 0 <= i < s.drop_last().len() && s.drop_last()[i] == sep;
                assert(s[i] == sep);
            }
        }
        lemma_split_whole(s.drop_last(), sep);
        assert(s.last() != sep);
        assert(s.drop_last().push(s.last()) =~= s);
        assert(split(s, sep) =~= seq![s]);
    }
}

/// The parts of two texts with a separator between them are the parts of the
/// one and then those of the other.
pub proof fn lemma_split_between(a: Seq<char>, b: Seq<char>, sep: char)
    ensures
        split(a.push(sep) + b, sep) == split(a, sep) + split(b, sep),
    decreases b.len(),
{
    let all = a.push(sep) + b;
    lemma_split_len(a, sep);
    lemma_split_len(b, sep);
    if b.len() == 0 {
        assert(all =~= a.push(sep));
        assert(all.drop_last() =~= a);
        assert(split(all, sep) =~= split(a, sep) + split(b, sep));
    } else {
        lemma_split_between(a, b.drop_last(), sep);
        lemma_split_len(b.drop_last(), sep);
        assert(all.drop_last() =~= a.push(sep) + b.drop_last());
        assert(all.last() == b.last());
        let before = split(a, sep) + split(b.drop_last(), sep);
        assert(before.last() == split(b.drop_last(), sep).last());
        assert(before.drop_last() =~= split(a, sep) + split(b.drop_last(), sep).drop_last());
        assert(split(all, sep) =~= split(a, sep) + split(b, sep));
    }
}

/// Parts without separators, joined and cut again, are the same parts.
pub proof fn lemma_split_join(parts: Seq<Seq<char>>, sep: char)
    requires
        parts.len() > 0,
        forall|i: int| 0 <= i < parts.len() ==> !(#[trigger] parts[i]).contains(sep),
    ensures
        split(join(parts, seq![sep]), sep) == parts,
    decreases parts.len(),
{
    if parts.len() == 1 {
        lemma_split_whole(parts[0], sep);
        assert(seq![parts[0]] =~= parts);
    } else {
        let init = parts.drop_last();
        lemma_split_join(init, sep);
        let a = join(init, seq![sep]);
        lemma_split_between(a, parts.last(), sep);
        lemma_split_whole(parts.last(), sep);
        assert(a.push(sep) + parts.last() =~= a + seq![sep] + parts.last());
        assert(init + seq![parts.last()] =~= parts);
    }
}

/// A character that a text does not hold is in none of its parts.
pub proof fn lemma_split_free(s: Seq<char>, sep: char, c: char)
    requires
        !s.contains(c),
    ensures
        forall|k: int| 0 <= k < split(s, sep).len() ==> !(#[trigger] split(s, sep)[k]).contains(c),
    decreases s.len(),
{
    lemma_split_len(s, sep);
    if s.len() > 0 {
        let init = s.drop_last();
        assert(!init.contains(c)) by {
            if init.contains(c) {
                let i = choose|i: int| 0 <= i < init.len() && init[i] == c;
                assert(s[i] == c);
            }
        }
        lemma_split_len(init, sep);
        lemma_split_free(init, sep, c);
        let before = split(init, sep);
        let all = split(s, sep);
        assert(s[s.len() - 1] != c);
        assert forall|k: int| 0 <= k < all.len() implies !(#[trigger] all[k]).contains(c) by {
            if all[k].contains(c) {
                let j = choose|j: int| 0 <= j < all[k].len() && all[k][j] == c;
                if k < before.len() {
                    assert(j < before[k].len() ==> before[k][j] == all[k][j]);
                    assert(before[k].contains(c));
                }
            }
        }
    }
}

/// A character that neither the parts nor the separator hold is not in what they
/// are joined to.
pub proof fn lemma_join_free(parts: Seq<Seq<char>>, sep: Seq<char>, c: char)
    requires
        forall|k: int| 0 <= k < parts.len() ==> !(#[trigger] parts[k]).contains(c),
        !sep.contains(c),
    ensures
        !join(parts, sep).contains(c),
    decreases parts.len(),
{
    if parts.len() > 1 {
        let init = parts.drop_last();
        lemma_join_free(init, sep, c);
        let head = join(init, sep);
        let all = join(parts, sep);
        assert(!parts[parts.len() - 1].contains(c));
        if all.contains(c) {
            let j = choose|j: int| 0 <= j < all.len() && all[j] == c;
            if j < head.len() {
                assert(head[j] == c);
            } else if j < head.len() + sep.len() {
                assert(sep[j - head.len()] == c);
            } else {
                assert(parts[parts.len() - 1][j - head.len() - sep.len()] == c);
            }
        }
    }
}

/// The parts of `s` between the characters `sep`.
pub fn split_chars(s: &[char], sep: char) -> (parts: Vec<Vec<char>>)
    ensures
        parts@.len() == split(s@, sep).len(),
        forall|i: int| 0 <= i < parts@.len() ==> (#[trigger] parts@[i])@ == split(s@, sep)[i],
{
    let mut parts: Vec<Vec<char>> = Vec::new();
    let mut part: Vec<char> = Vec::new();
    assert(s@.take(0) =~= Seq::<char>::empty());
    for i in 0..s.len()
        invariant
            split(s@.take(i as int), sep).len() == parts@.len() + 1,
            forall|k: int|
                0 <= k < parts@.len() ==> (#[trigger] parts@[k])@ == split(
                    s@.take(i as int),
                    sep,
                )[k],
            split(s@.take(i as int), sep).last() == part@,
    {
        let ghost before = split(s@.take(i as int), sep);
        assert(s@.take(i + 1).drop_last() =~= s@.take(i as int));
        if s[i] == sep {
            parts.push(part);
            part = Vec::new();
        } else {
            part.push(s[i]);
        }
    }
    assert(s@.take(s@.len() as int) =~= s@);
    parts.push(part);
    parts
}

/// The parts of `s` between the characters `sep`.
pub fn str_split(s: &str, sep: char) -> (parts: Vec<String>)
    ensures
        views(parts@) == split(s@, sep),
{
    let a = chars_of(s);
    let cut = split_chars(a.as_slice(), sep);
    let mut parts: Vec<String> = Vec::new();
    for i in 0..cut.len()
        invariant
            cut@.len() == split(s@, sep).len(),
            forall|k: int| 0 <= k < cut@.len() ==> (#[trigger] cut@[k])@ == split(s@, sep)[k],
            parts@.len() == i,
            forall|k: int| 0 <= k < i ==> (#[trigger] parts@[k])@ == split(s@, sep)[k],
    {
        parts.push(string_of(cut[i].as_slice()));
    }
    assert(views(parts@) =~= split(s@, sep));
    parts
}

/// The lines of `s`.
pub fn str_lines(s: &str) -> (out: Vec<String>)
    ensures
        views(out@) == lines(s@),
{
    let a = chars_of(s);
    let cut = split_chars(a.as_slice(), '\n');
    proof {
        lemma_split_len(s@, '\n');
    }
    let ghost parts = split(s@, '\n');
    let last: usize = cut.len() - 1;
    let mut out: Vec<String> = Vec::new();
    for i in 0..last
        invariant
            parts == split(s@, '\n'),
            last == cut@.len() - 1,
            cut@.len() == parts.len(),
            forall|k: int| 0 <= k < cut@.len() ==> (#[trigger] cut@[k])@ == parts[k],
            out@.len() == i,
            forall|k: int| 0 <= k < i ==> (#[trigger] out@[k])@ == strip_cr(parts[k]),
    {
        let line = &cut[i];
        assert(line@ == parts[i as int]);
        if line.len() > 0 && line[line.len() - 1] == '\r' {
            let bare = crate::text::slice_of(line.as_slice(), 0, line.len() - 1);
            assert(bare@ =~= parts[i as int].drop_last());
            out.push(string_of(bare.as_slice()));
        } else {
            out.push(string_of(line.as_slice()));
        }
    }
    if cut[last].len() > 0 {
        out.push(string_of(cut[last].as_slice()));
    }
    assert(views(out@) =~= lines(s@));
    out
}

/// `parts` one after the other, with `sep` between each two.
pub fn str_join(parts: &[String], sep: &str) -> (out: String)
    ensures
        out@ == join(views(parts@), sep@),
{
    let mut out = String::new();
    assert(views(parts@).take(0) =~= Seq::<Seq<char>>::empty());
    for i in 0..parts.len()
        invariant
            out@ == join(views(parts@).take(i as int), sep@),
    {
        let ghost head = views(parts@).take(i as int);
        assert(views(parts@).take(i + 1).drop_last() =~= head);
        assert(views(parts@).take(i + 1).last() == parts@[i as int]@);
        if i > 0 {
            out.append(sep);
            assert(i + 1 > 1);
        } else {
            assert(join(head, sep@) =~= Seq::<char>::empty());
        }
        out.append(parts[i].as_str());
        assert(out@ =~= join(views(parts@).take(i + 1), sep@));
    }
    assert(views(parts@).take(parts@.len() as int) =~= views(parts@));
    out
}

} // verus!
