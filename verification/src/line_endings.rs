//! Line endings: the two ways to end a line, and how text is moved from one
//! to the other.

use vstd::prelude::*;

use crate::lines::{law_replaced, replaces};
use crate::text::{
    contains, count_matches, find_from, lemma_find_from, lemma_find_from_skip, occurs_at, opt_view,
    replace_all, str_contains, str_replace,
};

verus! {

/// `s` with a line feed in place of each carriage return and line feed.
pub open spec fn with_lf(s: Seq<char>) -> Seq<char> {
    replace_all(s, "\r\n"@, "\n"@)
}

/// `s` with a carriage return put before each line feed.
pub open spec fn with_added_cr(s: Seq<char>) -> Seq<char> {
    replace_all(s, "\n"@, "\r\n"@)
}

/// `s` with each line ended by a carriage return and line feed.
pub open spec fn with_crlf(s: Seq<char>) -> Seq<char> {
    with_added_cr(with_lf(s))
}

/// The line ending that a text is said to have: `crlf` if that occurs in it,
/// else `lf` if that does.
pub open spec fn ending_of(s: Seq<char>) -> Option<Seq<char>> {
    if contains(s, "\r\n"@) {
        Some("crlf"@)
    } else if contains(s, "\n"@) {
        Some("lf"@)
    } else {
        None
    }
}

/// Replacing goes through a text from its start: an occurrence there is
/// replaced, any other character is kept.
proof fn lemma_replace_step(s: Seq<char>, pat: Seq<char>, to: Seq<char>)
    requires
        s.len() > 0,
        pat.len() > 0,
    ensures
        occurs_at(s, pat, 0) ==> replace_all(s, pat, to) == to + replace_all(
            s.skip(pat.len() as int),
            pat,
            to,
        ),
        !occurs_at(s, pat, 0) ==> replace_all(s, pat, to) == seq![s[0]] + replace_all(
            s.skip(1),
            pat,
            to,
        ),
{
    if occurs_at(s, pat, 0) {
        assert(find_from(s, pat, 0) == Some(0int));
        assert(s.take(0) + to =~= to);
    } else {
        lemma_find_from(s, pat, 0);
        lemma_find_from(s, pat, 1);
        lemma_find_from_skip(s, pat, 1, 0);
        let rest = s.skip(1);
        match find_from(rest, pat, 0) {
            None => {
                assert(find_from(s, pat, 1) is None);
                assert(find_from(s, pat, 0) is None);
                assert(s =~= seq![s[0]] + rest);
            },
            Some(i) => {
                assert(find_from(s, pat, 1) == Some(i + 1));
                lemma_find_from(rest, pat, 0);
                assert(find_from(s, pat, 0) == Some(i + 1));
                assert(s.take(i + 1) =~= seq![s[0]] + rest.take(i));
                assert(s.skip(i + 1 + pat.len()) =~= rest.skip(i + pat.len()));
                let tail = replace_all(rest.skip(i + pat.len()), pat, to);
                assert(s.take(i + 1) + to + tail =~= seq![s[0]] + (rest.take(i) + to + tail));
            },
        }
    }
}

/// A text in which a carriage return was put before each line feed does not
/// begin with a line feed.
proof fn lemma_added_cr_start(s: Seq<char>)
    ensures
        with_added_cr(s).len() > 0 ==> with_added_cr(s)[0] != '\n',
{
    reveal_strlit("\n");
    reveal_strlit("\r\n");
    if s.len() > 0 {
        lemma_replace_step(s, "\n"@, "\r\n"@);
        if s[0] == '\n' {
            assert(s.subrange(0, 1) =~= "\n"@);
        } else {
            if occurs_at(s, "\n"@, 0) {
                assert(s.subrange(0, 1)[0] == '\n');
            }
        }
    }
}

/// Taking away what was put before the line feeds gives the text back.
proof fn lemma_lf_of_added_cr(s: Seq<char>)
    ensures
        with_lf(with_added_cr(s)) == s,
    decreases s.len(),
{
    reveal_strlit("\n");
    reveal_strlit("\r\n");
    if s.len() == 0 {
        assert(with_added_cr(s) =~= s);
        assert(with_lf(s) =~= s);
    } else {
        let rest = s.skip(1);
        let out = with_added_cr(s);
        lemma_replace_step(s, "\n"@, "\r\n"@);
        lemma_lf_of_added_cr(rest);
        assert(s =~= seq![s[0]] + rest);
        if s[0] == '\n' {
            assert(s.subrange(0, 1) =~= "\n"@);
            assert(out == "\r\n"@ + with_added_cr(rest));
            assert(out.subrange(0, 2) =~= "\r\n"@);
            lemma_replace_step(out, "\r\n"@, "\n"@);
            assert(out.skip(2) =~= with_added_cr(rest));
            assert(with_lf(out) =~= s);
        } else {
            if occurs_at(s, "\n"@, 0) {
                assert(s.subrange(0, 1)[0] == '\n');
            }
            assert(out == seq![s[0]] + with_added_cr(rest));
            lemma_added_cr_start(rest);
            lemma_replace_step(out, "\r\n"@, "\n"@);
            if occurs_at(out, "\r\n"@, 0) {
                assert(out.subrange(0, 2)[1] == '\n');
                assert(out[1] == with_added_cr(rest)[0]);
            }
            assert(out.skip(1) =~= with_added_cr(rest));
        }
    }
}

/// Ending the lines with a line feed, or with a carriage return and line feed, changes
/// what ends the lines and nothing else: each carriage return and line feed becomes a
/// line feed, and for the other ending each of these then gets its carriage return.
pub proof fn law_only_endings_change(s: Seq<char>)
    ensures
        exists|n: nat| replaces(s, seq!['\r', '\n'], seq!['\n'], with_lf(s), n),
        exists|n: nat| replaces(with_lf(s), seq!['\n'], seq!['\r', '\n'], with_crlf(s), n),
{
    reveal_strlit("\n");
    reveal_strlit("\r\n");
    assert("\n"@ =~= seq!['\n']);
    assert("\r\n"@ =~= seq!['\r', '\n']);
    law_replaced(s, "\r\n"@, "\n"@);
    law_replaced(with_lf(s), "\n"@, "\r\n"@);
    assert(with_crlf(s) == replace_all(with_lf(s), "\n"@, "\r\n"@));
    assert(replaces(
        with_lf(s),
        seq!['\n'],
        seq!['\r', '\n'],
        with_crlf(s),
        count_matches(with_lf(s), "\n"@),
    ));
}

/// Before each line feed a carriage return stands, where the lines end with both.
pub proof fn law_crlf_everywhere(s: Seq<char>, i: int)
    requires
        0 <= i < with_crlf(s).len(),
        with_crlf(s)[i] == '\n',
    ensures
        i > 0,
        with_crlf(s)[i - 1] == '\r',
{
    lemma_added_cr_everywhere(with_lf(s), i);
}

/// Before each line feed stands the carriage return that was put there.
proof fn lemma_added_cr_everywhere(s: Seq<char>, i: int)
    requires
        0 <= i < with_added_cr(s).len(),
        with_added_cr(s)[i] == '\n',
    ensures
        i > 0,
        with_added_cr(s)[i - 1] == '\r',
    decreases s.len(),
{
    reveal_strlit("\n");
    reveal_strlit("\r\n");
    if s.len() == 0 {
        assert(with_added_cr(s) =~= s);
    } else {
        let rest = s.skip(1);
        let out = with_added_cr(s);
        lemma_replace_step(s, "\n"@, "\r\n"@);
        if s[0] == '\n' {
            assert(s.subrange(0, 1) =~= "\n"@);
            if i > 1 {
                assert(out[i] == with_added_cr(rest)[i - 2]);
                lemma_added_cr_everywhere(rest, i - 2);
                assert(out[i - 1] == with_added_cr(rest)[i - 3]);
            }
        } else {
            if occurs_at(s, "\n"@, 0) {
                assert(s.subrange(0, 1)[0] == '\n');
            }
            if i > 0 {
                assert(out[i] == with_added_cr(rest)[i - 1]);
                lemma_added_cr_everywhere(rest, i - 1);
                assert(out[i - 1] == with_added_cr(rest)[i - 2]);
            }
        }
    }
}

/// Ending the lines with a carriage return and line feed a second time changes
/// nothing.
pub proof fn law_crlf_idempotent(s: Seq<char>)
    ensures
        with_crlf(with_crlf(s)) == with_crlf(s),
{
    lemma_lf_of_added_cr(with_lf(s));
}

/// Going to carriage return and line feed and back to line feed is the same as
/// going to line feed at once.
pub proof fn law_lf_after_crlf(s: Seq<char>)
    ensures
        with_lf(with_crlf(s)) == with_lf(s),
{
    lemma_lf_of_added_cr(with_lf(s));
}

/// Where no carriage return stands before a carriage return and line feed,
/// ending the lines with a line feed leaves no carriage return and line feed.
proof fn lemma_lf_clean(s: Seq<char>)
    requires
        !contains(s, "\r\r\n"@),
    ensures
        !contains(with_lf(s), "\r\n"@),
    decreases s.len(),
{
    reveal_strlit("\n");
    reveal_strlit("\r\n");
    reveal_strlit("\r\r\n");
    let out = with_lf(s);
    if s.len() > 0 {
        lemma_replace_step(s, "\r\n"@, "\n"@);
        let k: int = if occurs_at(s, "\r\n"@, 0) {
            2
        } else {
            1
        };
        let rest = s.skip(k);
        assert(!contains(rest, "\r\r\n"@)) by {
            if contains(rest, "\r\r\n"@) {
                let i = choose|i: int| occurs_at(rest, "\r\r\n"@, i);
                assert(rest.subrange(i, i + 3) =~= s.subrange(i + k, i + k + 3));
                assert(occurs_at(s, "\r\r\n"@, i + k));
            }
        }
        lemma_lf_clean(rest);
        let tail = with_lf(rest);
        if contains(out, "\r\n"@) {
            let i = choose|i: int| occurs_at(out, "\r\n"@, i);
            if i == 0 {
                assert(out.subrange(0, 2)[0] == '\r');
                assert(out.subrange(0, 2)[1] == '\n');
                assert(k == 1);
                assert(s[0] == '\r');
                assert(tail[0] == '\n');
                lemma_replace_step(rest, "\r\n"@, "\n"@);
                if occurs_at(rest, "\r\n"@, 0) {
                    assert(rest.subrange(0, 2)[0] == '\r');
                    assert(rest.subrange(0, 2)[1] == '\n');
                    assert(s.subrange(0, 3) =~= "\r\r\n"@);
                    assert(occurs_at(s, "\r\r\n"@, 0));
                } else {
                    assert(rest[0] == '\n');
                    assert(s.subrange(0, 2) =~= "\r\n"@);
                }
            } else {
                assert(out.subrange(i, i + 2) =~= tail.subrange(i - 1, i + 1));
                assert(occurs_at(tail, "\r\n"@, i - 1));
            }
        }
    } else {
        assert(out =~= s);
        if contains(out, "\r\n"@) {
            let i = choose|i: int| occurs_at(out, "\r\n"@, i);
        }
    }
}

/// Ending the lines with a line feed a second time changes nothing, unless a
/// carriage return stands before a carriage return and line feed.
pub proof fn law_lf_idempotent(s: Seq<char>)
    requires
        !contains(s, "\r\r\n"@),
    ensures
        with_lf(with_lf(s)) == with_lf(s),
{
    lemma_lf_clean(s);
    crate::text::lemma_contains(with_lf(s), "\r\n"@);
}

/// `content` with each line ended by a line feed.
pub fn to_lf(content: &str) -> (r: String)
    ensures
        r@ == with_lf(content@),
        exists|n: nat| replaces(content@, seq!['\r', '\n'], seq!['\n'], r@, n),
{
    proof {
        law_only_endings_change(content@);
        reveal_strlit("\r\n");
    }
    str_replace(content, "\r\n", "\n")
}

/// `content` with each line ended by a carriage return and line feed.
pub fn to_crlf(content: &str) -> (r: String)
    ensures
        r@ == with_crlf(content@),
        forall|i: int|
            0 <= i < r@.len() && #[trigger] r@[i] == '\n' ==> i > 0 && r@[i - 1] == '\r',
{
    proof {
        assert forall|i: int|
            0 <= i < with_crlf(content@).len() && #[trigger] with_crlf(content@)[i]
                == '\n' implies i > 0 && with_crlf(content@)[i - 1] == '\r' by {
            law_crlf_everywhere(content@, i);
        }
        reveal_strlit("\n");
    }
    let lf = to_lf(content);
    str_replace(lf.as_str(), "\n", "\r\n")
}

/// The line ending that `content` is said to have.
pub fn line_ending_metadata(content: &str) -> (r: Option<String>)
    ensures
        opt_view(r) == ending_of(content@),
{
    if str_contains(content, "\r\n") {
        Some("crlf".to_owned())
    } else if str_contains(content, "\n") {
        Some("lf".to_owned())
    } else {
        None
    }
}

} // verus!
