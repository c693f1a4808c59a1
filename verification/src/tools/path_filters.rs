//! The patterns that limit a search to some paths.

use vstd::prelude::*;

use crate::globs::{glob_is_valid, glob_matches, glob_valid};
use crate::paths::file_name_of;
use crate::text::{replace_all, starts_with, str_replace, str_starts_with, str_trim, trim, views};
use crate::tools::glob_find::{glob_hits, hits};

verus! {

/// The patterns without the blanks around them, and without those that are
/// empty.
pub open spec fn trimmed_patterns(raw: Seq<Seq<char>>) -> Seq<Seq<char>>
    decreases raw.len(),
{
    if raw.len() == 0 {
        Seq::empty()
    } else {
        let before = trimmed_patterns(raw.drop_last());
        let last = trim(raw.last());
        if last.len() > 0 {
            before.push(last)
        } else {
            before
        }
    }
}

/// The patterns kept are those that are not blank, without the blanks around them.
pub proof fn law_trimmed_patterns(raw: Seq<Seq<char>>, pattern: Seq<char>)
    ensures
        trimmed_patterns(raw).contains(pattern) <==> pattern.len() > 0 && exists|k: int|
            0 <= k < raw.len() && trim(#[trigger] raw[k]) == pattern,
    decreases raw.len(),
{
    if raw.len() > 0 {
        let front = raw.drop_last();
        law_trimmed_patterns(front, pattern);
        let before = trimmed_patterns(front);
        let all = trimmed_patterns(raw);
        assert(raw[raw.len() - 1] == raw.last());
        if before.contains(pattern) {
            let i = before.index_of(pattern);
            assert(all[i] == pattern);
            let k = choose|k: int| 0 <= k < front.len() && trim(#[trigger] front[k]) == pattern;
            assert(trim(raw[k]) == pattern);
        }
        if all.contains(pattern) {
            let i = all.index_of(pattern);
            if i < before.len() {
                assert(before[i] == pattern);
            } else {
                assert(trim(raw[raw.len() - 1]) == pattern);
            }
        }
        if pattern.len() > 0 && exists|k: int|
            0 <= k < raw.len() && trim(#[trigger] raw[k]) == pattern {
            let k = choose|k: int| 0 <= k < raw.len() && trim(#[trigger] raw[k]) == pattern;
            if k < raw.len() - 1 {
                assert(trim(front[k]) == pattern);
            } else {
                assert(all[before.len() as int] == pattern);
            }
        }
    }
}

/// The patterns that a caller gives.
pub fn parse_pattern_strings(raw: &Option<Vec<String>>) -> (r: Vec<String>)
    ensures
        views(r@) == (match raw {
            Some(list) => trimmed_patterns(views(list@)),
            None => Seq::empty(),
        }),
{
    let mut out: Vec<String> = Vec::new();
    assert(views(out@) =~= Seq::<Seq<char>>::empty());
    if let Some(list) = raw {
        let ghost all = views(list@);
        assert(all.take(0) =~= Seq::<Seq<char>>::empty());
        for i in 0..list.len()
            invariant
                all == views(list@),
                views(out@) == trimmed_patterns(all.take(i as int)),
        {
            assert(all.take(i + 1).drop_last() =~= all.take(i as int));
            assert(all.take(i + 1).last() == list@[i as int]@);
            let pattern = str_trim(list[i].as_str());
            if !pattern.as_str().is_empty() {
                let ghost before = views(out@);
                let ghost text = pattern@;
                out.push(pattern);
                assert(views(out@) =~= before.push(text));
            }
        }
        assert(all.take(all.len() as int) =~= all);
    }
    out
}

/// The first of the patterns from `from` on that is not a glob pattern.
pub open spec fn first_invalid(patterns: Seq<Seq<char>>, from: int) -> Option<int>
    decreases patterns.len() - from,
{
    if from < 0 || from >= patterns.len() {
        None
    } else if !glob_is_valid(patterns[from]) {
        Some(from)
    } else {
        first_invalid(patterns, from + 1)
    }
}

/// What is said of a pattern that is not a glob pattern.
pub open spec fn invalid_glob_words(pattern: Seq<char>) -> Seq<char> {
    "Invalid glob pattern '"@ + pattern + "'"@
}

/// What is said of the patterns: nothing where all of them are glob patterns.
pub open spec fn patterns_error(patterns: Seq<Seq<char>>) -> Option<Seq<char>> {
    match first_invalid(patterns, 0) {
        Some(i) => Some(invalid_glob_words(patterns[i])),
        None => None,
    }
}

/// A pattern is found to be invalid exactly where one is.
pub proof fn law_first_invalid(patterns: Seq<Seq<char>>, from: int)
    requires
        0 <= from <= patterns.len(),
    ensures
        match first_invalid(patterns, from) {
            Some(k) => from <= k < patterns.len() && !glob_is_valid(patterns[k]),
            None => forall|j: int|
                from <= j < patterns.len() ==> glob_is_valid(#[trigger] patterns[j]),
        },
    decreases patterns.len() - from,
{
    if from < patterns.len() {
        law_first_invalid(patterns, from + 1);
    }
}

/// Checks that all patterns are glob patterns; names the first one that is not.
pub fn compile_patterns(patterns: &[String]) -> (r: Result<(), String>)
    ensures
        (match r {
            Ok(_) => None,
            Err(e) => Some(e@),
        }) == patterns_error(views(patterns@)),
        r is Ok <==> forall|j: int|
            0 <= j < patterns@.len() ==> glob_is_valid((#[trigger] patterns@[j])@),
{
    proof {
        law_first_invalid(views(patterns@), 0);
        if first_invalid(views(patterns@), 0) is None {
            assert forall|j: int| 0 <= j < patterns@.len() implies glob_is_valid(
                (#[trigger] patterns@[j])@,
            ) by {
                assert(glob_is_valid(views(patterns@)[j]));
            }
        }
    }
    let ghost all = views(patterns@);
    let mut i: usize = 0;
    while i < patterns.len()
        invariant
            i <= patterns@.len(),
            all == views(patterns@),
            first_invalid(all, 0) == first_invalid(all, i as int),
        decreases patterns@.len() - i,
    {
        assert(all[i as int] == patterns@[i as int]@);
        if !glob_valid(patterns[i].as_str()) {
            let mut text = "Invalid glob pattern '".to_owned();
            text.append(patterns[i].as_str());
            text.append("'");
            return Err(text);
        }
        i += 1;
    }
    Ok(())
}

/// One of the values matches one of the patterns.
pub open spec fn any_value_matches(values: Seq<Seq<char>>, patterns: Seq<Seq<char>>) -> bool {
    exists|i: int, j: int|
        0 <= i < patterns.len() && 0 <= j < values.len() && glob_hits(
            #[trigger] patterns[i],
            #[trigger] values[j],
        )
}

/// One of the patterns is valid and matches a file: its path below what is looked at,
/// its whole path, or its name.
pub open spec fn is_hit(
    relative: Seq<char>,
    whole: Seq<char>,
    name: Seq<char>,
    patterns: Seq<Seq<char>>,
) -> bool {
    exists|k: int|
        0 <= k < patterns.len() && #[trigger] glob_is_valid(patterns[k]) && (glob_matches(
            patterns[k],
            relative,
        ) || glob_matches(patterns[k], whole) || glob_matches(patterns[k], name))
}

/// A file is hit by patterns exactly where they match one of its three texts.
pub proof fn law_hit(
    relative: Seq<char>,
    whole: Seq<char>,
    name: Seq<char>,
    patterns: Seq<Seq<char>>,
)
    ensures
        any_value_matches(seq![relative, whole, name], patterns) == is_hit(
            relative,
            whole,
            name,
            patterns,
        ),
{
    let texts = seq![relative, whole, name];
    if any_value_matches(texts, patterns) {
        let (i, j) = choose|i: int, j: int|
            0 <= i < patterns.len() && 0 <= j < texts.len() && glob_hits(
                #[trigger] patterns[i],
                #[trigger] texts[j],
            );
        assert(glob_is_valid(patterns[i]));
    }
    if is_hit(relative, whole, name, patterns) {
        let k = choose|k: int|
            0 <= k < patterns.len() && #[trigger] glob_is_valid(patterns[k]) && (glob_matches(
                patterns[k],
                relative,
            ) || glob_matches(patterns[k], whole) || glob_matches(patterns[k], name));
        assert(texts[0] == relative && texts[1] == whole && texts[2] == name);
        if glob_matches(patterns[k], relative) {
            assert(glob_hits(patterns[k], texts[0]));
        } else if glob_matches(patterns[k], whole) {
            assert(glob_hits(patterns[k], texts[1]));
        } else {
            assert(glob_hits(patterns[k], texts[2]));
        }
    }
}

/// The name that patterns are held against: that of the path, or the path below what
/// is looked at where it has none.
pub open spec fn held_name(path: Seq<char>, relative: Seq<char>) -> Seq<char> {
    match file_name_of(path) {
        Some(name) => if name.len() > 0 {
            name
        } else {
            relative
        },
        None => relative,
    }
}

/// Whether one of the values matches one of the patterns.
pub fn matches_any_pattern(values: &[String], patterns: &[String]) -> (r: bool)
    ensures
        r == any_value_matches(views(values@), views(patterns@)),
{
    let ghost all = views(patterns@);
    let ghost texts = views(values@);
    for i in 0..patterns.len()
        invariant
            all == views(patterns@),
            texts == views(values@),
            forall|k: int, j: int|
                0 <= k < i && 0 <= j < texts.len() ==> !glob_hits(
                    #[trigger] all[k],
                    #[trigger] texts[j],
                ),
    {
        for j in 0..values.len()
            invariant
                i < patterns@.len(),
                all == views(patterns@),
                texts == views(values@),
                forall|k: int| 0 <= k < j ==> !glob_hits(all[i as int], #[trigger] texts[k]),
        {
            assert(all[i as int] == patterns@[i as int]@);
            assert(texts[j as int] == values@[j as int]@);
            if hits(patterns[i].as_str(), values[j].as_str()) {
                return true;
            }
        }
    }
    false
}

/// A pattern that begins with an exclamation mark, with a backslash before it:
/// in the patterns of a walk, the mark stands for what is left out.
pub open spec fn bang_escaped(pattern: Seq<char>) -> Seq<char> {
    if starts_with(pattern, "!"@) {
        "\\"@ + pattern
    } else {
        pattern
    }
}

/// A pattern for a walk that only matches what `pattern` matches.
pub fn escape_leading_bang(pattern: &str) -> (r: String)
    ensures
        r@ == bang_escaped(pattern@),
{
    if str_starts_with(pattern, "!") {
        let mut out = "\\".to_owned();
        out.append(pattern);
        out
    } else {
        pattern.to_owned()
    }
}

/// The pattern of a walk that takes in, or leaves out, what `pattern` matches.
pub open spec fn override_of(pattern: Seq<char>, exclude: bool) -> Seq<char> {
    let escaped = bang_escaped(replace_all(pattern, "\\"@, "/"@));
    if exclude {
        "!"@ + escaped
    } else {
        escaped
    }
}

/// A pattern that leaves out begins with the sign for it, and one that takes in never does.
pub proof fn law_override(pattern: Seq<char>)
    ensures
        override_of(pattern, true).len() > 0 && override_of(pattern, true)[0] == '!',
        override_of(pattern, true).skip(1) == override_of(pattern, false),
        override_of(pattern, false).len() > 0 ==> override_of(pattern, false)[0] != '!',
{
    reveal_strlit("!");
    reveal_strlit("\\");
    let slashes = replace_all(pattern, "\\"@, "/"@);
    let taken = override_of(pattern, false);
    assert(override_of(pattern, true).skip(1) =~= taken);
    if slashes.len() > 0 && slashes[0] == '!' {
        assert(slashes.subrange(0, 1) =~= "!"@);
        assert(taken[0] == '\\');
    } else if starts_with(slashes, "!"@) {
        assert(slashes.subrange(0, 1)[0] == '!');
    }
}

/// The pattern of a walk that takes in, or leaves out, what `pattern` matches.
pub fn override_pattern(pattern: &str, exclude: bool) -> (r: String)
    ensures
        r@ == override_of(pattern@, exclude),
{
    proof {
        reveal_strlit("\\");
    }
    let normalized = str_replace(pattern, "\\", "/");
    let escaped = escape_leading_bang(normalized.as_str());
    if exclude {
        let mut out = "!".to_owned();
        out.append(escaped.as_str());
        out
    } else {
        escaped
    }
}

/// The patterns of a walk: first those that it takes in, then those that it
/// leaves out.
pub open spec fn overrides_of(
    includes: Seq<Seq<char>>,
    excludes: Seq<Seq<char>>,
) -> Seq<Seq<char>> {
    Seq::new(includes.len(), |i: int| override_of(includes[i], false)) + Seq::new(
        excludes.len(),
        |i: int| override_of(excludes[i], true),
    )
}

/// The patterns of a walk.
pub fn walk_overrides(includes: &[String], excludes: &[String]) -> (r: Vec<String>)
    ensures
        views(r@) == overrides_of(views(includes@), views(excludes@)),
{
    let ghost want = overrides_of(views(includes@), views(excludes@));
    let mut out: Vec<String> = Vec::new();
    for i in 0..includes.len()
        invariant
            want == overrides_of(views(includes@), views(excludes@)),
            out@.len() == i,
            forall|k: int| 0 <= k < i ==> (#[trigger] out@[k])@ == want[k],
    {
        out.push(override_pattern(includes[i].as_str(), false));
    }
    for i in 0..excludes.len()
        invariant
            want == overrides_of(views(includes@), views(excludes@)),
            out@.len() == includes@.len() + i,
            forall|k: int| 0 <= k < out@.len() ==> (#[trigger] out@[k])@ == want[k],
    {
        out.push(override_pattern(excludes[i].as_str(), true));
    }
    assert(views(out@) =~= want);
    out
}

} // verus!
