//! Character sequences: the operations on text that the rest of the library
//! is stated in.

use vstd::prelude::*;
use vstd::utf8::encode_utf8;

verus! {

/// The length of `s` in UTF-8 bytes.
pub open spec fn byte_len(s: Seq<char>) -> nat {
    encode_utf8(s).len()
}

/// The bytes of two texts one after the other are those of the first and then
/// those of the second.
pub proof fn lemma_encode_concat(a: Seq<char>, b: Seq<char>)
    ensures
        encode_utf8(a + b) == encode_utf8(a) + encode_utf8(b),
    decreases a.len(),
{
    if a.len() == 0 {
        assert(a + b =~= b);
        assert(encode_utf8(a) + encode_utf8(b) =~= encode_utf8(b));
    } else {
        lemma_encode_concat(a.drop_first(), b);
        assert((a + b).drop_first() =~= a.drop_first() + b);
        assert((a + b)[0] == a[0]);
        assert(encode_utf8(a + b) =~= encode_utf8(a) + encode_utf8(b));
    }
}

/// `std::string::String::push` appends one character.
pub assume_specification[ String::push ](s: &mut String, c: char)
    ensures
        final(s)@ == old(s)@.push(c),
;

/// The characters of `s`.
pub fn chars_of(s: &str) -> (out: Vec<char>)
    ensures
        out@ == s@,
{
    let mut out: Vec<char> = Vec::new();
    for c in it: s.chars()
        invariant
            out@ == it.seq().take(it.index() as int),
            it.seq() == s@,
    {
        out.push(c);
        assert(it.seq().take(it.index() as int).push(c) =~= it.seq().take(it.index() + 1));
    }
    assert(s@.take(s@.len() as int) =~= s@);
    out
}

/// The string made of `chars`.
pub fn string_of(chars: &[char]) -> (out: String)
    ensures
        out@ == chars@,
{
    let mut out = String::new();
    for i in 0..chars.len()
        invariant
            out@ == chars@.take(i as int),
    {
        out.push(chars[i]);
        assert(chars@.take(i as int).push(chars[i as int]) =~= chars@.take(i + 1));
    }
    assert(chars@.take(chars@.len() as int) =~= chars@);
    out
}

/// Equality of two strings.
pub fn str_eq(a: &str, b: &str) -> (r: bool)
    ensures
        r == (a@ == b@),
{
    let x = a.as_bytes();
    let y = b.as_bytes();
    proof {
        vstd::utf8::encode_utf8_decode_utf8(a@);
        vstd::utf8::encode_utf8_decode_utf8(b@);
    }
    if x.len() != y.len() {
        return false;
    }
    for i in 0..x.len()
        invariant
            x@ == encode_utf8(a@),
            y@ == encode_utf8(b@),
            x@.len() == y@.len(),
            forall|j: int| 0 <= j < i ==> x@[j] == y@[j],
    {
        if x[i] != y[i] {
            return false;
        }
    }
    assert(x@ =~= y@);
    true
}

/// The view of an optional string.
pub open spec fn opt_view(s: Option<String>) -> Option<Seq<char>> {
    match s {
        Some(v) => Some(v@),
        None => None,
    }
}

/// The views of strings, one by one.
pub open spec fn views(parts: Seq<String>) -> Seq<Seq<char>> {
    Seq::new(parts.len(), |i: int| parts[i]@)
}

/// `pat` stands in `s` at position `i`.
pub open spec fn occurs_at(s: Seq<char>, pat: Seq<char>, i: int) -> bool {
    0 <= i && i + pat.len() <= s.len() && s.subrange(i, i + pat.len()) == pat
}

/// `pat` stands somewhere in `s`.
pub open spec fn contains(s: Seq<char>, pat: Seq<char>) -> bool {
    exists|i: int| occurs_at(s, pat, i)
}

/// The first position at or after `from` at which `pat` stands in `s`.
pub open spec fn find_from(s: Seq<char>, pat: Seq<char>, from: int) -> Option<int>
    decreases s.len() + 1 - from,
{
    if from < 0 || from + pat.len() > s.len() {
        None
    } else if occurs_at(s, pat, from) {
        Some(from)
    } else {
        find_from(s, pat, from + 1)
    }
}

/// `s` with each occurrence of `pat`, taken from the left without overlap,
/// replaced by `to`. An empty `pat` replaces nothing.
pub open spec fn replace_all(s: Seq<char>, pat: Seq<char>, to: Seq<char>) -> Seq<char>
    decreases s.len(),
{
    if pat.len() == 0 {
        s
    } else {
        match find_from(s, pat, 0) {
            None => s,
            Some(i) => if 0 <= i && i + pat.len() <= s.len() {
                s.take(i) + to + replace_all(s.skip(i + pat.len()), pat, to)
            } else {
                s
            },
        }
    }
}

/// How many occurrences of `pat` stand in `s`, taken from the left without
/// overlap.
pub open spec fn count_matches(s: Seq<char>, pat: Seq<char>) -> nat
    decreases s.len(),
{
    if pat.len() == 0 {
        0
    } else {
        match find_from(s, pat, 0) {
            None => 0,
            Some(i) => if 0 <= i && i + pat.len() <= s.len() {
                1 + count_matches(s.skip(i + pat.len()), pat)
            } else {
                0
            },
        }
    }
}

/// `s` with the first occurrence of `pat` replaced by `to`.
pub open spec fn replace_first(s: Seq<char>, pat: Seq<char>, to: Seq<char>) -> Seq<char> {
    match find_from(s, pat, 0) {
        None => s,
        Some(i) => s.take(i) + to + s.skip(i + pat.len()),
    }
}

/// What `find_from` finds is the first occurrence, and it finds one if there
/// is one.
pub proof fn lemma_find_from(s: Seq<char>, pat: Seq<char>, from: int)
    requires
        0 <= from,
    ensures
        find_from(s, pat, from) matches Some(i) ==> {
            &&& from <= i
            &&& occurs_at(s, pat, i)
            &&& forall|j: int| from <= j < i ==> !occurs_at(s, pat, j)
        },
        find_from(s, pat, from) is None ==> forall|j: int| from <= j ==> !occurs_at(s, pat, j),
    decreases s.len() + 1 - from,
{
    if from + pat.len() <= s.len() && !occurs_at(s, pat, from) {
        lemma_find_from(s, pat, from + 1);
    }
}

/// Text holds a pattern exactly when a search from its start finds one.
pub proof fn lemma_contains(s: Seq<char>, pat: Seq<char>)
    ensures
        contains(s, pat) <==> find_from(s, pat, 0) is Some,
{
    lemma_find_from(s, pat, 0);
    match find_from(s, pat, 0) {
        Some(i) => {
            assert(occurs_at(s, pat, i));
        },
        None => {},
    }
}

/// A search from `p` is a search of the rest from its start.
pub proof fn lemma_find_from_skip(s: Seq<char>, pat: Seq<char>, p: int, from: int)
    requires
        0 <= p <= s.len(),
        0 <= from,
    ensures
        find_from(s, pat, p + from) == (match find_from(s.skip(p), pat, from) {
            Some(i) => Some(i + p),
            None => None,
        }),
    decreases s.len() + 1 - from,
{
    let r = s.skip(p);
    if from + pat.len() <= r.len() {
        assert(r.subrange(from, from + pat.len()) =~= s.subrange(
            p + from,
            p + from + pat.len(),
        ));
        if !occurs_at(r, pat, from) {
            lemma_find_from_skip(s, pat, p, from + 1);
        }
    }
}

/// Whether `pat` stands in `s` at position `i`.
pub fn occurs(s: &[char], pat: &[char], i: usize) -> (r: bool)
    ensures
        r == occurs_at(s@, pat@, i as int),
{
    if pat.len() > s.len() || i > s.len() - pat.len() {
        return false;
    }
    for k in 0..pat.len()
        invariant
            i + pat@.len() <= s@.len() <= usize::MAX,
            forall|j: int| 0 <= j < k ==> s@[i + j] == pat@[j],
    {
        if s[i + k] != pat[k] {
            assert(s@.subrange(i as int, i + pat@.len())[k as int] != pat@[k as int]);
            return false;
        }
    }
    assert(s@.subrange(i as int, i + pat@.len()) =~= pat@);
    true
}

/// The first position at or after `from` at which `pat` stands in `s`.
pub fn find(s: &[char], pat: &[char], from: usize) -> (r: Option<usize>)
    requires
        from <= s@.len(),
    ensures
        find_from(s@, pat@, from as int) == (match r {
            Some(i) => Some(i as int),
            None => None,
        }),
        r matches Some(i) ==> from <= i && occurs_at(s@, pat@, i as int),
{
    let mut i: usize = from;
    while i <= s.len() && pat.len() <= s.len() - i
        invariant
            from <= i <= s@.len(),
            find_from(s@, pat@, from as int) == find_from(s@, pat@, i as int),
        decreases s@.len() + 1 - i,
    {
        if occurs(s, pat, i) {
            return Some(i);
        }
        assert(pat@.len() == 0 ==> s@.subrange(i as int, i as int) =~= pat@);
        i += 1;
    }
    None
}

/// `s` with each occurrence of `pat` replaced by `to`, and how many there
/// were.
pub fn replace_counted(s: &[char], pat: &[char], to: &[char]) -> (r: (Vec<char>, usize))
    requires
        pat@.len() > 0,
    ensures
        r.0@ == replace_all(s@, pat@, to@),
        r.1 == count_matches(s@, pat@),
{
    let mut out: Vec<char> = Vec::new();
    let mut count: usize = 0;
    let mut p: usize = 0;
    assert(s@.skip(0) =~= s@);
    loop
        invariant
            pat@.len() > 0,
            p <= s@.len(),
            count <= p,
            replace_all(s@, pat@, to@) == out@ + replace_all(s@.skip(p as int), pat@, to@),
            count_matches(s@, pat@) == count + count_matches(s@.skip(p as int), pat@),
        decreases s@.len() - p,
    {
        proof {
            lemma_find_from_skip(s@, pat@, p as int, 0);
        }
        let ghost rest = s@.skip(p as int);
        match find(s, pat, p) {
            None => {
                let ghost before = out@;
                for k in p..s.len()
                    invariant
                        p <= s@.len(),
                        out@ == before + s@.subrange(p as int, k as int),
                {
                    out.push(s[k]);
                    assert(s@.subrange(p as int, k as int).push(s@[k as int]) =~= s@.subrange(
                        p as int,
                        k + 1,
                    ));
                }
                assert(rest =~= s@.subrange(p as int, s@.len() as int));
                return (out, count);
            },
            Some(i) => {
                let ghost before = out@;
                for k in p..i
                    invariant
                        p <= i <= s@.len(),
                        out@ == before + s@.subrange(p as int, k as int),
                {
                    out.push(s[k]);
                    assert(s@.subrange(p as int, k as int).push(s@[k as int]) =~= s@.subrange(
                        p as int,
                        k + 1,
                    ));
                }
                let ghost mid = out@;
                for k in 0..to.len()
                    invariant
                        out@ == mid + to@.take(k as int),
                {
                    out.push(to[k]);
                    assert(to@.take(k as int).push(to@[k as int]) =~= to@.take(k + 1));
                }
                proof {
                    let d = i - p;
                    assert(rest.take(d) =~= s@.subrange(p as int, i as int));
                    assert(to@.take(to@.len() as int) =~= to@);
                    assert(rest.skip(d + pat@.len()) =~= s@.skip(i + pat@.len()));
                    assert(out@ =~= before + (rest.take(d) + to@));
                    assert(before + (rest.take(d) + to@ + replace_all(
                        s@.skip(i + pat@.len()),
                        pat@,
                        to@,
                    )) =~= out@ + replace_all(s@.skip(i + pat@.len()), pat@, to@));
                }
                count += 1;
                p = i + pat.len();
            },
        }
    }
}

/// Appends `more` to `out`.
pub fn push_all(out: &mut Vec<char>, more: &[char])
    ensures
        final(out)@ == old(out)@ + more@,
{
    let ghost before = out@;
    for k in 0..more.len()
        invariant
            out@ == before + more@.take(k as int),
    {
        out.push(more[k]);
        assert(more@.take(k as int).push(more@[k as int]) =~= more@.take(k + 1));
    }
    assert(more@.take(more@.len() as int) =~= more@);
}

/// Appends `more` to `out`.
pub fn push_str(out: &mut String, more: &str)
    ensures
        final(out)@ == old(out)@ + more@,
{
    out.append(more);
}

/// Whether `pat` stands somewhere in `s`.
pub fn str_contains(s: &str, pat: &str) -> (r: bool)
    ensures
        r == contains(s@, pat@),
{
    let a = chars_of(s);
    let b = chars_of(pat);
    proof {
        lemma_contains(s@, pat@);
    }
    find(a.as_slice(), b.as_slice(), 0).is_some()
}

/// `s` with each occurrence of `pat` replaced by `to`.
pub fn str_replace(s: &str, pat: &str, to: &str) -> (r: String)
    requires
        pat@.len() > 0,
    ensures
        r@ == replace_all(s@, pat@, to@),
{
    let a = chars_of(s);
    let b = chars_of(pat);
    let c = chars_of(to);
    let (out, _count) = replace_counted(a.as_slice(), b.as_slice(), c.as_slice());
    string_of(out.as_slice())
}

/// Whether `s` begins with `pat`.
pub open spec fn starts_with(s: Seq<char>, pat: Seq<char>) -> bool {
    occurs_at(s, pat, 0)
}

/// Whether `s` ends with `pat`.
pub open spec fn ends_with(s: Seq<char>, pat: Seq<char>) -> bool {
    occurs_at(s, pat, s.len() - pat.len())
}

/// Whether `s` begins with `pat`.
pub fn str_starts_with(s: &str, pat: &str) -> (r: bool)
    ensures
        r == starts_with(s@, pat@),
{
    let a = chars_of(s);
    let b = chars_of(pat);
    occurs(a.as_slice(), b.as_slice(), 0)
}

/// Whether `s` ends with `pat`.
pub fn str_ends_with(s: &str, pat: &str) -> (r: bool)
    ensures
        r == ends_with(s@, pat@),
{
    let a = chars_of(s);
    let b = chars_of(pat);
    if b.len() > a.len() {
        return false;
    }
    occurs(a.as_slice(), b.as_slice(), a.len() - b.len())
}

/// The characters of `s` from position `from` up to `to`.
pub fn slice_of(s: &[char], from: usize, to: usize) -> (r: Vec<char>)
    requires
        from <= to <= s@.len(),
    ensures
        r@ == s@.subrange(from as int, to as int),
{
    let mut out: Vec<char> = Vec::new();
    for k in from..to
        invariant
            from <= to <= s@.len(),
            out@ == s@.subrange(from as int, k as int),
    {
        out.push(s[k]);
        assert(s@.subrange(from as int, k as int).push(s@[k as int]) =~= s@.subrange(
            from as int,
            k + 1,
        ));
    }
    out
}

/// `s` without its first `n` characters.
pub fn str_skip(s: &str, n: usize) -> (r: String)
    requires
        n <= s@.len(),
    ensures
        r@ == s@.skip(n as int),
{
    let a = chars_of(s);
    let rest = slice_of(a.as_slice(), n, a.len());
    assert(rest@ =~= s@.skip(n as int));
    string_of(rest.as_slice())
}

/// The first `n` characters of `s`.
pub fn str_take(s: &str, n: usize) -> (r: String)
    requires
        n <= s@.len(),
    ensures
        r@ == s@.take(n as int),
{
    let a = chars_of(s);
    let head = slice_of(a.as_slice(), 0, n);
    assert(head@ =~= s@.take(n as int));
    string_of(head.as_slice())
}

/// What follows `pat` in `s`, where `s` begins with `pat`.
pub fn str_strip_prefix(s: &str, pat: &str) -> (r: Option<String>)
    ensures
        r is Some == starts_with(s@, pat@),
        r matches Some(rest) ==> rest@ == s@.skip(pat@.len() as int),
{
    let a = chars_of(s);
    let b = chars_of(pat);
    if occurs(a.as_slice(), b.as_slice(), 0) {
        let rest = slice_of(a.as_slice(), b.len(), a.len());
        assert(rest@ =~= s@.skip(pat@.len() as int));
        Some(string_of(rest.as_slice()))
    } else {
        None
    }
}

/// The characters with the Unicode property White_Space.
pub open spec fn is_whitespace(c: char) -> bool {
    let n = c as u32;
    ||| 0x09 <= n <= 0x0d
    ||| n == 0x20
    ||| n == 0x85
    ||| n == 0xa0
    ||| n == 0x1680
    ||| 0x2000 <= n <= 0x200a
    ||| n == 0x2028
    ||| n == 0x2029
    ||| n == 0x202f
    ||| n == 0x205f
    ||| n == 0x3000
}

/// Whether `c` has the Unicode property White_Space.
pub fn char_is_whitespace(c: char) -> (r: bool)
    ensures
        r == is_whitespace(c),
{
    let n: u32 = c as u32;
    (0x09 <= n && n <= 0x0d) || n == 0x20 || n == 0x85 || n == 0xa0 || n == 0x1680 || (0x2000 <= n
        && n <= 0x200a) || n == 0x2028 || n == 0x2029 || n == 0x202f || n == 0x205f || n == 0x3000
}

/// `s` without the white space it begins with.
pub open spec fn trim_start(s: Seq<char>) -> Seq<char>
    decreases s.len(),
{
    if s.len() > 0 && is_whitespace(s[0]) {
        trim_start(s.skip(1))
    } else {
        s
    }
}

/// `s` without the white space it ends with.
pub open spec fn trim_end(s: Seq<char>) -> Seq<char>
    decreases s.len(),
{
    if s.len() > 0 && is_whitespace(s.last()) {
        trim_end(s.drop_last())
    } else {
        s
    }
}

/// `s` without the white space at its two ends.
pub open spec fn trim(s: Seq<char>) -> Seq<char> {
    trim_end(trim_start(s))
}

/// Trimming takes white space away from both ends of a text, all of it, and nothing
/// else.
pub proof fn law_trim(s: Seq<char>)
    ensures
        exists|a: int, b: int| #[trigger]
            is_trimmed_to(s, a, b) && trim(s) == s.subrange(a, b),
        trim(s).len() > 0 ==> !is_whitespace(trim(s)[0]) && !is_whitespace(trim(s).last()),
        s.len() == 0 || (!is_whitespace(s[0]) && !is_whitespace(s.last())) ==> trim(s) == s,
{
    lemma_trim_start(s);
    let front = trim_start(s);
    lemma_trim_end(front);
    let a = s.len() - front.len();
    let b = a + trim_end(front).len();
    assert(trim(s) =~= s.subrange(a, b));
    assert(is_trimmed_to(s, a, b)) by {
        assert forall|j: int| b <= j < s.len() implies is_whitespace(#[trigger] s[j]) by {
            assert(s[j] == front[j - a]);
        }
    }
    if trim(s).len() > 0 {
        assert(trim(s)[0] == front[0]);
    }
}

/// What stands before `a` and from `b` on is white space.
pub open spec fn is_trimmed_to(s: Seq<char>, a: int, b: int) -> bool {
    &&& 0 <= a <= b <= s.len()
    &&& forall|j: int| 0 <= j < a ==> is_whitespace(#[trigger] s[j])
    &&& forall|j: int| b <= j < s.len() ==> is_whitespace(#[trigger] s[j])
}

/// Trimming the start takes white space away there, all of it.
proof fn lemma_trim_start(s: Seq<char>)
    ensures
        trim_start(s).len() <= s.len(),
        trim_start(s) == s.skip(s.len() - trim_start(s).len()),
        forall|j: int| 0 <= j < s.len() - trim_start(s).len() ==> is_whitespace(#[trigger] s[j]),
        trim_start(s).len() > 0 ==> !is_whitespace(trim_start(s)[0]),
    decreases s.len(),
{
    if s.len() > 0 && is_whitespace(s[0]) {
        let rest = s.skip(1);
        lemma_trim_start(rest);
        let out = trim_start(s);
        assert(out =~= s.skip(s.len() - out.len()));
        assert forall|j: int| 0 <= j < s.len() - out.len() implies is_whitespace(
            #[trigger] s[j],
        ) by {
            if j > 0 {
                assert(s[j] == rest[j - 1]);
            }
        }
    } else {
        assert(trim_start(s) =~= s.skip(0));
    }
}

/// Trimming the end takes white space away there, all of it.
proof fn lemma_trim_end(s: Seq<char>)
    ensures
        trim_end(s).len() <= s.len(),
        trim_end(s) == s.take(trim_end(s).len() as int),
        forall|j: int| trim_end(s).len() <= j < s.len() ==> is_whitespace(#[trigger] s[j]),
        trim_end(s).len() > 0 ==> !is_whitespace(trim_end(s).last()),
    decreases s.len(),
{
    if s.len() > 0 && is_whitespace(s.last()) {
        let rest = s.drop_last();
        lemma_trim_end(rest);
        let out = trim_end(s);
        assert(out =~= s.take(out.len() as int));
        assert forall|j: int| out.len() <= j < s.len() implies is_whitespace(#[trigger] s[j]) by {
            if j < s.len() - 1 {
                assert(s[j] == rest[j]);
            }
        }
    } else {
        assert(trim_end(s) =~= s.take(s.len() as int));
    }
}

/// How many characters of white space `s` begins with.
pub fn leading_whitespace(s: &[char]) -> (n: usize)
    ensures
        n <= s@.len(),
        s@.skip(n as int) == trim_start(s@),
        forall|j: int| 0 <= j < n ==> is_whitespace(s@[j]),
        n < s@.len() ==> !is_whitespace(s@[n as int]),
{
    let mut n: usize = 0;
    assert(s@.skip(0) =~= s@);
    while n < s.len() && char_is_whitespace(s[n])
        invariant
            n <= s@.len(),
            trim_start(s@.skip(n as int)) == trim_start(s@),
            forall|j: int| 0 <= j < n ==> is_whitespace(s@[j]),
        decreases s@.len() - n,
    {
        assert(s@.skip(n as int).skip(1) =~= s@.skip(n + 1));
        n += 1;
    }
    n
}

/// Where the white space that `s` ends with begins.
pub fn trailing_whitespace(s: &[char]) -> (n: usize)
    ensures
        n <= s@.len(),
        s@.take(n as int) == trim_end(s@),
{
    let mut n: usize = s.len();
    assert(s@.take(s@.len() as int) =~= s@);
    while n > 0 && char_is_whitespace(s[n - 1])
        invariant
            n <= s@.len(),
            trim_end(s@.take(n as int)) == trim_end(s@),
        decreases n,
    {
        assert(s@.take(n as int).drop_last() =~= s@.take(n - 1));
        n -= 1;
    }
    n
}

/// `s` without the white space it begins with.
pub fn str_trim_start(s: &str) -> (r: String)
    ensures
        r@ == trim_start(s@),
{
    let a = chars_of(s);
    let n: usize = leading_whitespace(a.as_slice());
    let rest = slice_of(a.as_slice(), n, a.len());
    assert(rest@ =~= s@.skip(n as int));
    string_of(rest.as_slice())
}

/// `s` without the white space it ends with.
pub fn str_trim_end(s: &str) -> (r: String)
    ensures
        r@ == trim_end(s@),
{
    let a = chars_of(s);
    let n: usize = trailing_whitespace(a.as_slice());
    let head = slice_of(a.as_slice(), 0, n);
    assert(head@ =~= s@.take(n as int));
    string_of(head.as_slice())
}

/// `s` without the white space at its two ends.
pub fn str_trim(s: &str) -> (r: String)
    ensures
        r@ == trim(s@),
{
    let head = str_trim_start(s);
    str_trim_end(head.as_str())
}

/// `c`, a lower-case letter in place of an upper-case one of ASCII.
pub open spec fn ascii_lower_char(c: char) -> char {
    if 'A' <= c <= 'Z' {
        ((c as u8) + 32) as char
    } else {
        c
    }
}

/// `c`, an upper-case letter in place of a lower-case one of ASCII.
pub open spec fn ascii_upper_char(c: char) -> char {
    if 'a' <= c <= 'z' {
        ((c as u8) - 32) as char
    } else {
        c
    }
}

/// `s` with the letters of ASCII in lower case.
pub open spec fn ascii_lower(s: Seq<char>) -> Seq<char> {
    Seq::new(s.len(), |i: int| ascii_lower_char(s[i]))
}

/// `s` with the letters of ASCII in upper case.
pub open spec fn ascii_upper(s: Seq<char>) -> Seq<char> {
    Seq::new(s.len(), |i: int| ascii_upper_char(s[i]))
}

/// `s` with the letters of ASCII in lower case.
pub fn str_ascii_lower(s: &str) -> (r: String)
    ensures
        r@ == ascii_lower(s@),
{
    let mut out = String::new();
    for c in it: s.chars()
        invariant
            out@ == ascii_lower(it.seq().take(it.index() as int)),
            it.seq() == s@,
    {
        let d: char = if 'A' <= c && c <= 'Z' {
            ((c as u8) + 32) as char
        } else {
            c
        };
        out.push(d);
        assert(it.seq().take(it.index() as int).push(c) =~= it.seq().take(it.index() + 1));
        assert(ascii_lower(it.seq().take(it.index() as int)).push(d) =~= ascii_lower(
            it.seq().take(it.index() + 1),
        ));
    }
    assert(s@.take(s@.len() as int) =~= s@);
    out
}

/// `s` with the letters of ASCII in upper case.
pub fn str_ascii_upper(s: &str) -> (r: String)
    ensures
        r@ == ascii_upper(s@),
{
    let mut out = String::new();
    for c in it: s.chars()
        invariant
            out@ == ascii_upper(it.seq().take(it.index() as int)),
            it.seq() == s@,
    {
        let d: char = if 'a' <= c && c <= 'z' {
            ((c as u8) - 32) as char
        } else {
            c
        };
        out.push(d);
        assert(it.seq().take(it.index() as int).push(c) =~= it.seq().take(it.index() + 1));
        assert(ascii_upper(it.seq().take(it.index() as int)).push(d) =~= ascii_upper(
            it.seq().take(it.index() + 1),
        ));
    }
    assert(s@.take(s@.len() as int) =~= s@);
    out
}

/// Equality of two strings but for the case of ASCII letters.
pub fn str_eq_ignore_case(a: &str, b: &str) -> (r: bool)
    ensures
        r == (ascii_lower(a@) == ascii_lower(b@)),
{
    let x = str_ascii_lower(a);
    let y = str_ascii_lower(b);
    x == y
}

/// The last position at which `c` stands in `s`.
pub open spec fn last_position(s: Seq<char>, c: char) -> Option<int>
    decreases s.len(),
{
    if s.len() == 0 {
        None
    } else if s.last() == c {
        Some(s.len() - 1)
    } else {
        last_position(s.drop_last(), c)
    }
}

/// The last position at which `c` stands in `s`.
pub fn rfind_char(s: &[char], c: char) -> (r: Option<usize>)
    ensures
        last_position(s@, c) == (match r {
            Some(i) => Some(i as int),
            None => None,
        }),
        r matches Some(i) ==> i < s@.len() && s@[i as int] == c,
{
    let mut n: usize = s.len();
    assert(s@.take(s@.len() as int) =~= s@);
    while n > 0
        invariant
            n <= s@.len(),
            last_position(s@.take(n as int), c) == last_position(s@, c),
        decreases n,
    {
        if s[n - 1] == c {
            return Some(n - 1);
        }
        assert(s@.take(n as int).drop_last() =~= s@.take(n - 1));
        n -= 1;
    }
    None
}

/// How many of the characters of `s` are kept so that they have no more than
/// `max` bytes, `n` of them being few enough.
pub open spec fn fitting_from(s: Seq<char>, n: int, max: nat) -> int
    decreases s.len() - n,
{
    if 0 <= n < s.len() && byte_len(s.take(n + 1)) <= max {
        fitting_from(s, n + 1, max)
    } else {
        n
    }
}

/// The longest start of `s` that has no more than `max` bytes.
pub open spec fn fitting(s: Seq<char>, max: nat) -> Seq<char> {
    s.take(fitting_from(s, 0, max))
}

/// One more character adds its own bytes.
pub proof fn lemma_byte_len_step(s: Seq<char>, n: int)
    requires
        0 <= n < s.len(),
    ensures
        byte_len(s.take(n + 1)) == byte_len(s.take(n)) + char_width(s[n]),
{
    let c = s[n];
    assert(s.take(n + 1) =~= s.take(n) + seq![c]);
    lemma_encode_concat(s.take(n), seq![c]);
    assert(seq![c].drop_first() =~= Seq::<char>::empty());
    reveal_with_fuel(encode_utf8, 2);
    vstd::utf8::char_is_scalar(c);
    assert(encode_utf8(seq![c]) =~= vstd::utf8::encode_scalar(c as u32));
}

/// The number of bytes of a character.
pub open spec fn char_width(c: char) -> nat {
    let n = c as u32;
    if n < 0x80 {
        1
    } else if n < 0x800 {
        2
    } else if n < 0x10000 {
        3
    } else {
        4
    }
}

/// What is kept lies between what was and the whole, and fits.
proof fn lemma_fitting_from(s: Seq<char>, n: int, max: nat)
    requires
        0 <= n <= s.len(),
        byte_len(s.take(n)) <= max,
    ensures
        n <= fitting_from(s, n, max) <= s.len(),
        byte_len(s.take(fitting_from(s, n, max))) <= max,
        byte_len(s) <= max <==> fitting_from(s, n, max) == s.len(),
    decreases s.len() - n,
{
    assert(s.take(s.len() as int) =~= s);
    if n < s.len() {
        if byte_len(s.take(n + 1)) <= max {
            lemma_fitting_from(s, n + 1, max);
        } else {
            assert(s =~= s.take(n + 1) + s.skip(n + 1));
            lemma_encode_concat(s.take(n + 1), s.skip(n + 1));
        }
    }
}

/// The longest start that fits has no more bytes than allowed, and is the whole
/// where that fits.
pub proof fn law_fitting(s: Seq<char>, max: nat)
    ensures
        byte_len(fitting(s, max)) <= max,
        byte_len(s) <= max <==> fitting(s, max) == s,
        fitting(s, max) == s.take(fitting(s, max).len() as int),
        fitting(s, max).is_prefix_of(s),
{
    assert(s.take(0) =~= Seq::<char>::empty());
    lemma_fitting_from(s, 0, max);
    assert(s.take(s.len() as int) =~= s);
}

/// The longest start of `text` that has no more than `max_bytes` bytes, and
/// whether that is not all of it.
pub fn truncate_utf8(text: &str, max_bytes: usize) -> (r: (String, bool))
    ensures
        r.0@ == fitting(text@, max_bytes as nat),
        r.1 == (byte_len(text@) > max_bytes),
{
    let chars = chars_of(text);
    let mut out = String::new();
    let mut used: usize = 0;
    let mut i: usize = 0;
    assert(chars@.take(0) =~= Seq::<char>::empty());
    while i < chars.len()
        invariant
            i <= chars@.len(),
            chars@ == text@,
            out@ == chars@.take(i as int),
            used == byte_len(chars@.take(i as int)),
            used <= max_bytes,
            fitting_from(text@, 0, max_bytes as nat) == fitting_from(
                text@,
                i as int,
                max_bytes as nat,
            ),
        decreases chars@.len() - i,
    {
        let c: char = chars[i];
        let n: u32 = c as u32;
        let width: usize = if n < 0x80 {
            1
        } else if n < 0x800 {
            2
        } else if n < 0x10000 {
            3
        } else {
            4
        };
        proof {
            lemma_byte_len_step(chars@, i as int);
        }
        if width > max_bytes - used {
            proof {
                lemma_fitting_from(text@, i as int, max_bytes as nat);
            }
            return (out, true);
        }
        out.push(c);
        assert(chars@.take(i as int).push(c) =~= chars@.take(i + 1));
        used += width;
        i += 1;
    }
    assert(chars@.take(chars@.len() as int) =~= chars@);
    (out, false)
}

/// `c` is a letter or a digit of ASCII, or an underscore.
pub open spec fn is_word_char(c: char) -> bool {
    'a' <= c <= 'z' || 'A' <= c <= 'Z' || '0' <= c <= '9' || c == '_'
}

/// Whether `c` is a letter or a digit of ASCII, or an underscore.
pub fn char_is_word(c: char) -> (r: bool)
    ensures
        r == is_word_char(c),
{
    ('a' <= c && c <= 'z') || ('A' <= c && c <= 'Z') || ('0' <= c && c <= '9') || c == '_'
}

/// The letters, digits and underscores that `s` begins with.
pub open spec fn leading_word(s: Seq<char>) -> Seq<char>
    decreases s.len(),
{
    if s.len() > 0 && is_word_char(s[0]) {
        seq![s[0]] + leading_word(s.skip(1))
    } else {
        Seq::empty()
    }
}

/// The letters, digits and underscores that `s` begins with.
pub fn str_leading_word(s: &str) -> (r: String)
    ensures
        r@ == leading_word(s@),
{
    let chars = chars_of(s);
    let mut out = String::new();
    let mut i: usize = 0;
    assert(s@.skip(0) =~= s@);
    while i < chars.len() && char_is_word(chars[i])
        invariant
            i <= chars@.len(),
            chars@ == s@,
            leading_word(s@) == out@ + leading_word(s@.skip(i as int)),
        decreases chars@.len() - i,
    {
        let ghost before = out@;
        out.push(chars[i]);
        assert(s@.skip(i as int).skip(1) =~= s@.skip(i + 1));
        assert(before + (seq![chars@[i as int]] + leading_word(s@.skip(i + 1))) =~= out@
            + leading_word(s@.skip(i + 1)));
        i += 1;
    }
    assert(out@ =~= leading_word(s@));
    out
}

/// `s` without `pat` at its start, however often it stands there. An empty `pat` takes
/// nothing away.
pub open spec fn without_prefixes(s: Seq<char>, pat: Seq<char>) -> Seq<char>
    decreases s.len(),
{
    if pat.len() > 0 && starts_with(s, pat) {
        without_prefixes(s.skip(pat.len() as int), pat)
    } else {
        s
    }
}

/// `s` without `pat` at its start, however often it stands there.
pub fn str_without_prefixes(s: &str, pat: &str) -> (r: String)
    ensures
        r@ == without_prefixes(s@, pat@),
{
    let size: usize = chars_of(pat).len();
    let mut rest: String = s.to_owned();
    while size > 0 && str_starts_with(rest.as_str(), pat)
        invariant
            size == pat@.len(),
            without_prefixes(rest@, pat@) == without_prefixes(s@, pat@),
        decreases rest@.len(),
    {
        rest = str_skip(rest.as_str(), size);
    }
    rest
}

/// `s` without the characters of `set` at its start.
pub open spec fn without_front(s: Seq<char>, set: Seq<char>) -> Seq<char>
    decreases s.len(),
{
    if s.len() > 0 && set.contains(s[0]) {
        without_front(s.skip(1), set)
    } else {
        s
    }
}

/// `s` without the characters of `set` at its end.
pub open spec fn without_back(s: Seq<char>, set: Seq<char>) -> Seq<char>
    decreases s.len(),
{
    if s.len() > 0 && set.contains(s.last()) {
        without_back(s.drop_last(), set)
    } else {
        s
    }
}

/// Whether `c` is one of the characters.
fn is_one_of(c: char, set: &[char]) -> (r: bool)
    ensures
        r == set@.contains(c),
{
    for i in 0..set.len()
        invariant
            forall|k: int| 0 <= k < i ==> set@[k] != c,
    {
        if set[i] == c {
            assert(set@[i as int] == c);
            return true;
        }
    }
    false
}

/// `s` without the characters of `set` at its start.
pub fn str_without_front(s: &str, set: &str) -> (r: String)
    ensures
        r@ == without_front(s@, set@),
{
    let a = chars_of(s);
    let these = chars_of(set);
    let mut n: usize = 0;
    assert(s@.skip(0) =~= s@);
    while n < a.len() && is_one_of(a[n], these.as_slice())
        invariant
            n <= a@.len(),
            a@ == s@,
            these@ == set@,
            without_front(s@.skip(n as int), set@) == without_front(s@, set@),
        decreases a@.len() - n,
    {
        assert(s@.skip(n as int).skip(1) =~= s@.skip(n + 1));
        n += 1;
    }
    let rest = slice_of(a.as_slice(), n, a.len());
    assert(rest@ =~= s@.skip(n as int));
    string_of(rest.as_slice())
}

/// `s` without the characters of `set` at its end.
pub fn str_without_back(s: &str, set: &str) -> (r: String)
    ensures
        r@ == without_back(s@, set@),
{
    let a = chars_of(s);
    let these = chars_of(set);
    let mut n: usize = a.len();
    assert(s@.take(s@.len() as int) =~= s@);
    while n > 0 && is_one_of(a[n - 1], these.as_slice())
        invariant
            n <= a@.len(),
            a@ == s@,
            these@ == set@,
            without_back(s@.take(n as int), set@) == without_back(s@, set@),
        decreases n,
    {
        assert(s@.take(n as int).drop_last() =~= s@.take(n - 1));
        n -= 1;
    }
    let head = slice_of(a.as_slice(), 0, n);
    assert(head@ =~= s@.take(n as int));
    string_of(head.as_slice())
}

/// The last position up to `to` at which `pat` stands in `s`.
pub open spec fn rfind_to(s: Seq<char>, pat: Seq<char>, to: int) -> Option<int>
    decreases to + 1,
{
    if to < 0 {
        None
    } else if occurs_at(s, pat, to) {
        Some(to)
    } else {
        rfind_to(s, pat, to - 1)
    }
}

/// The last position at which `pat` stands in `s`.
pub fn rfind(s: &[char], pat: &[char]) -> (r: Option<usize>)
    ensures
        (match r {
            Some(i) => Some(i as int),
            None => None,
        }) == rfind_to(s@, pat@, s@.len() as int),
        r matches Some(i) ==> i + pat@.len() <= s@.len(),
{
    let mut i: usize = s.len();
    loop
        invariant
            i <= s@.len(),
            rfind_to(s@, pat@, s@.len() as int) == rfind_to(s@, pat@, i as int),
        decreases i,
    {
        if occurs(s, pat, i) {
            return Some(i);
        }
        if i == 0 {
            return None;
        }
        i -= 1;
    }
}

/// The first line of `s`.
pub open spec fn first_line(s: Seq<char>) -> Seq<char> {
    let all = crate::lines::lines(s);
    if all.len() > 0 {
        all[0]
    } else {
        s
    }
}

/// The first line of `s`.
pub fn str_first_line(s: &str) -> (r: String)
    ensures
        r@ == first_line(s@),
{
    let all = crate::lines::str_lines(s);
    assert(views(all@).len() == all@.len());
    if all.len() > 0 {
        assert(views(all@)[0] == all@[0]@);
        all[0].clone()
    } else {
        s.to_owned()
    }
}

} // verus!
