//! Looking into a database without changing it.

use vstd::prelude::*;

use crate::numbers::{decimal, usize_decimal};
use crate::text::{
    ascii_lower, find_from, lemma_find_from, lemma_find_from_skip, occurs_at, replace_all,
    starts_with, str_ascii_lower, str_replace, str_starts_with,
    str_trim_start, trim_start,
};

verus! {

/// The rows of a table that are shown where nothing else is said.
pub const DEFAULT_SAMPLE_ROWS: usize = 10;

/// A statement only reads: it begins with one of four words.
pub open spec fn only_reads(sql: Seq<char>) -> bool {
    let text = ascii_lower(trim_start(sql));
    ||| starts_with(text, "select "@)
    ||| starts_with(text, "pragma "@)
    ||| starts_with(text, "with "@)
    ||| starts_with(text, "explain "@)
}

/// Refuses a statement that does not only read.
pub fn ensure_read_only_sql(sql: &str) -> (r: Result<(), &'static str>)
    ensures
        match r {
            Ok(_) => only_reads(sql@),
            Err(e) => !only_reads(sql@) && e@
                == "sqlite_inspect only allows read-only SQL starting with SELECT, PRAGMA, WITH, or EXPLAIN"@,
        },
        r is Ok ==> ({
            let text = ascii_lower(trim_start(sql@));
            starts_with(text, "select "@) || starts_with(text, "pragma "@) || starts_with(
                text,
                "with "@,
            ) || starts_with(text, "explain "@)
        }),
        starts_with(ascii_lower(trim_start(sql@)), "select "@) ==> r is Ok,
        starts_with(ascii_lower(trim_start(sql@)), "pragma "@) ==> r is Ok,
        starts_with(ascii_lower(trim_start(sql@)), "with "@) ==> r is Ok,
        starts_with(ascii_lower(trim_start(sql@)), "explain "@) ==> r is Ok,
{
    let text = str_ascii_lower(str_trim_start(sql).as_str());
    if str_starts_with(text.as_str(), "select ") || str_starts_with(text.as_str(), "pragma ")
        || str_starts_with(text.as_str(), "with ") || str_starts_with(text.as_str(), "explain ") {
        Ok(())
    } else {
        Err(
            "sqlite_inspect only allows read-only SQL starting with SELECT, PRAGMA, WITH, or EXPLAIN",
        )
    }
}

/// The name of a table as a statement holds it: in quotes, with its own quotes
/// doubled.
pub open spec fn quoted(name: Seq<char>) -> Seq<char> {
    "\""@ + replace_all(name, "\""@, "\"\""@) + "\""@
}

/// The name of a table as a statement holds it.
pub fn quote_name(name: &str) -> (r: String)
    ensures
        r@ == quoted(name@),
{
    proof {
        reveal_strlit("\"");
    }
    let mut out = "\"".to_owned();
    out.append(str_replace(name, "\"", "\"\"").as_str());
    out.append("\"");
    out
}

/// The statement that lists the columns of a table.
pub fn table_columns_query(table: &str) -> (r: String)
    ensures
        r@ == "PRAGMA table_info("@ + quoted(table@) + ")"@,
{
    let mut out = "PRAGMA table_info(".to_owned();
    out.append(quote_name(table).as_str());
    out.append(")");
    out
}

/// The statement that reads the first rows of a table.
pub fn sample_rows_query(table: &str, limit: usize) -> (r: String)
    ensures
        r@ == "SELECT * FROM "@ + quoted(table@) + " LIMIT "@ + decimal(limit as nat),
{
    let mut out = "SELECT * FROM ".to_owned();
    out.append(quote_name(table).as_str());
    out.append(" LIMIT ");
    out.append(usize_decimal(limit).as_str());
    out
}

/// What is shown for bytes in a row.
pub fn blob_text(size: usize) -> (r: String)
    ensures
        r@ == "blob("@ + decimal(size as nat) + " bytes)"@,
{
    let mut out = "blob(".to_owned();
    out.append(usize_decimal(size).as_str());
    out.append(" bytes)");
    out
}

/// The characters of the name with each quote doubled, one after the other.
pub open spec fn doubled(name: Seq<char>) -> Seq<char>
    decreases name.len(),
{
    if name.len() == 0 {
        Seq::empty()
    } else if name[0] == '"' {
        seq!['"', '"'] + doubled(name.skip(1))
    } else {
        seq![name[0]] + doubled(name.skip(1))
    }
}

/// The name that stands in quotes: two quotes are one, and a single quote ends it.
pub open spec fn unquoted(text: Seq<char>) -> (Seq<char>, Seq<char>)
    decreases text.len(),
{
    if text.len() == 0 {
        (Seq::empty(), Seq::empty())
    } else if text[0] == '"' {
        if text.len() > 1 && text[1] == '"' {
            let (name, rest) = unquoted(text.skip(2));
            (seq!['"'] + name, rest)
        } else {
            (Seq::empty(), text)
        }
    } else {
        let (name, rest) = unquoted(text.skip(1));
        (seq![text[0]] + name, rest)
    }
}

/// The replacement doubles each quote.
proof fn lemma_doubled(name: Seq<char>)
    ensures
        replace_all(name, "\""@, "\"\""@) == doubled(name),
    decreases name.len(),
{
    reveal_strlit("\"");
    reveal_strlit("\"\"");
    let pat = "\""@;
    let to = "\"\""@;
    assert(pat =~= seq!['"']);
    assert(to =~= seq!['"', '"']);
    if name.len() > 0 {
        let rest = name.skip(1);
        lemma_doubled(rest);
        assert(name.subrange(0, 1) =~= seq![name[0]]);
        if name[0] == '"' {
            assert(occurs_at(name, pat, 0));
            assert(name.take(0) + to + replace_all(rest, pat, to) =~= to + replace_all(
                rest,
                pat,
                to,
            ));
        } else {
            assert(name.subrange(0, 1)[0] != pat[0]);
            assert(!occurs_at(name, pat, 0));
            lemma_find_from_skip(name, pat, 1, 0);
            lemma_find_from(rest, pat, 0);
            match find_from(rest, pat, 0) {
                Some(i) => {
                    assert(name.take(i + 1) =~= seq![name[0]] + rest.take(i));
                    assert(name.skip(i + 2) =~= rest.skip(i + 1));
                    assert(replace_all(name, pat, to) =~= seq![name[0]] + replace_all(
                        rest,
                        pat,
                        to,
                    ));
                },
                None => {
                    assert(name =~= seq![name[0]] + rest);
                },
            }
        }
    }
}

/// Whatever a table is called, its name in a statement is one name: reading it up to
/// the quote that ends it gives the name back, and what follows is what followed.
pub proof fn law_name_stays_whole(name: Seq<char>, rest: Seq<char>)
    requires
        rest.len() == 0 || rest[0] != '"',
    ensures
        quoted(name)[0] == '"',
        unquoted(quoted(name).skip(1) + rest) == (name, seq!['"'] + rest),
{
    lemma_doubled(name);
    reveal_strlit("\"");
    assert("\""@ =~= seq!['"']);
    assert(quoted(name).skip(1) + rest =~= doubled(name) + (seq!['"'] + rest));
    lemma_unquoted(name, rest);
}

/// A doubled name is read back up to the quote that ends it.
proof fn lemma_unquoted(name: Seq<char>, rest: Seq<char>)
    requires
        rest.len() == 0 || rest[0] != '"',
    ensures
        unquoted(doubled(name) + (seq!['"'] + rest)) == (name, seq!['"'] + rest),
    decreases name.len(),
{
    let tail = seq!['"'] + rest;
    let text = doubled(name) + tail;
    if name.len() == 0 {
        assert(text =~= tail);
        assert(tail.len() > 1 ==> tail[1] == rest[0]);
        assert(name =~= Seq::<char>::empty());
    } else {
        lemma_unquoted(name.skip(1), rest);
        let inner = doubled(name.skip(1)) + tail;
        if name[0] == '"' {
            assert(text.skip(2) =~= inner);
            assert(text[1] == '"');
        } else {
            assert(text.skip(1) =~= inner);
        }
        assert(seq![name[0]] + name.skip(1) =~= name);
    }
}

} // verus!
