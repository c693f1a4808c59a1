//! Searching the contents of files: what is searched for, and where.

use vstd::prelude::*;

use crate::line_search::{build_matcher, is_search_pattern};
use crate::lines::{split, str_split};
use crate::paths::{parts_of, same_path};
use crate::text::{
    chars_of, opt_view, replace_all, str_eq, str_replace, str_trim_end, trim_end, views,
};
use crate::tools::compare_directories::{arg_usize, clamped};
use crate::tools::compare_summary::distinct;
use crate::tools::fuzzy_find::holds;
use crate::tools::path_filters::{
    compile_patterns, parse_pattern_strings, patterns_error, trimmed_patterns,
};
use crate::unicode::{char_is_uppercase, is_uppercase};
use crate::words::are_distinct;

verus! {

/// How many matches are returned where the caller does not say.
pub const DEFAULT_MAX_RESULTS: usize = 100;

/// How many matches are returned at most.
pub const MAX_RETURNED_MATCHES: usize = 1_000;

/// How many characters of a line are shown where the caller does not say.
pub const DEFAULT_MAX_LINE_LENGTH: usize = 240;

/// How many characters of a line are shown at most.
pub const MAX_LINE_LENGTH: usize = 4_000;

/// How a query is read: as the text itself, or as a regular expression.
#[derive(Clone, Copy, Debug, PartialEq, Eq, Structural)]
pub enum SearchMode {
    Literal,
    Regex,
}

/// How upper and lower case are told apart.
#[derive(Clone, Copy, Debug, PartialEq, Eq, Structural)]
pub enum CaseMode {
    Insensitive,
    Sensitive,
    Smart,
}

/// A character that has a meaning in a regular expression.
pub open spec fn is_meta(c: char) -> bool {
    c == '\\' || c == '.' || c == '+' || c == '*' || c == '?' || c == '(' || c == ')' || c == '|'
        || c == '[' || c == ']' || c == '{' || c == '}' || c == '^' || c == '$' || c == '#' || c
        == '&' || c == '-' || c == '~'
}

/// The regular expression for the text itself: a backslash stands before each
/// character that has a meaning.
pub open spec fn escaped(s: Seq<char>) -> Seq<char>
    decreases s.len(),
{
    if s.len() == 0 {
        Seq::empty()
    } else {
        let before = escaped(s.drop_last());
        if is_meta(s.last()) {
            before.push('\\').push(s.last())
        } else {
            before.push(s.last())
        }
    }
}

/// `regex::escape`: puts a backslash before each character that has a meaning
/// in a regular expression, and keeps all others.
#[verifier::external_body]
pub(crate) fn escape_regex(s: &str) -> (r: String)
    ensures
        r@ == escaped(s@),
{
    regex::escape(s)
}

/// How a query is read: as the text itself where nothing is said.
pub open spec fn mode_of(raw: Option<Seq<char>>) -> Result<SearchMode, Seq<char>> {
    match raw {
        None => Ok(SearchMode::Literal),
        Some(name) => if name == "literal"@ {
            Ok(SearchMode::Literal)
        } else if name == "regex"@ {
            Ok(SearchMode::Regex)
        } else {
            Err("Unsupported mode '"@ + name + "'"@)
        },
    }
}

/// How a query is read.
pub fn parse_mode(raw: &Option<String>) -> (r: Result<SearchMode, String>)
    ensures
        (match r {
            Ok(m) => Ok(m),
            Err(e) => Err(e@),
        }) == mode_of(opt_view(*raw)),
{
    match raw {
        None => Ok(SearchMode::Literal),
        Some(name) => {
            if str_eq(name.as_str(), "literal") {
                Ok(SearchMode::Literal)
            } else if str_eq(name.as_str(), "regex") {
                Ok(SearchMode::Regex)
            } else {
                let mut text = "Unsupported mode '".to_owned();
                text.append(name.as_str());
                text.append("'");
                Err(text)
            }
        },
    }
}

/// How upper and lower case are told apart: a plain yes or no stands above the
/// name of a mode.
pub open spec fn case_of(raw: Option<Seq<char>>, sensitive: Option<bool>) -> Result<
    CaseMode,
    Seq<char>,
> {
    let named: Result<CaseMode, Seq<char>> = match raw {
        None => Ok(CaseMode::Insensitive),
        Some(name) => if name == "insensitive"@ {
            Ok(CaseMode::Insensitive)
        } else if name == "sensitive"@ {
            Ok(CaseMode::Sensitive)
        } else if name == "smart"@ {
            Ok(CaseMode::Smart)
        } else {
            Err("Unsupported case_mode '"@ + name + "'"@)
        },
    };
    match (named, sensitive) {
        (Err(e), _) => Err(e),
        (Ok(_), Some(true)) => Ok(CaseMode::Sensitive),
        (Ok(_), Some(false)) => Ok(CaseMode::Insensitive),
        (Ok(m), None) => Ok(m),
    }
}

/// How upper and lower case are told apart.
pub fn parse_case_mode(raw: &Option<String>, case_sensitive: Option<bool>) -> (r: Result<
    CaseMode,
    String,
>)
    ensures
        (match r {
            Ok(m) => Ok(m),
            Err(e) => Err(e@),
        }) == case_of(opt_view(*raw), case_sensitive),
{
    let named: CaseMode = match raw {
        None => CaseMode::Insensitive,
        Some(name) => {
            if str_eq(name.as_str(), "insensitive") {
                CaseMode::Insensitive
            } else if str_eq(name.as_str(), "sensitive") {
                CaseMode::Sensitive
            } else if str_eq(name.as_str(), "smart") {
                CaseMode::Smart
            } else {
                let mut text = "Unsupported case_mode '".to_owned();
                text.append(name.as_str());
                text.append("'");
                return Err(text);
            }
        },
    };
    match case_sensitive {
        Some(true) => Ok(CaseMode::Sensitive),
        Some(false) => Ok(CaseMode::Insensitive),
        None => Ok(named),
    }
}

/// Upper and lower case are told apart: in the smart mode, where the query has
/// a letter in upper case.
pub open spec fn tells_case(case_mode: CaseMode, query: Seq<char>) -> bool {
    match case_mode {
        CaseMode::Insensitive => false,
        CaseMode::Sensitive => true,
        CaseMode::Smart => exists|i: int| 0 <= i < query.len() && is_uppercase(#[trigger] query[i]),
    }
}

/// Whether upper and lower case are told apart.
pub fn resolve_case_sensitive(case_mode: CaseMode, query: &str) -> (r: bool)
    ensures
        r == tells_case(case_mode, query@),
{
    match case_mode {
        CaseMode::Insensitive => false,
        CaseMode::Sensitive => true,
        CaseMode::Smart => {
            let chars = chars_of(query);
            for i in 0..chars.len()
                invariant
                    case_mode == CaseMode::Smart,
                    chars@ == query@,
                    forall|k: int| 0 <= k < i ==> !is_uppercase(#[trigger] query@[k]),
            {
                if char_is_uppercase(chars[i]) {
                    assert(is_uppercase(query@[i as int]));
                    return true;
                }
            }
            false
        },
    }
}

/// A path to search, with what is known of it: where it leads, what stands
/// there, and the root of the index that holds it.
pub struct InputPath {
    pub path: String,
    pub canonical: String,
    pub exists: bool,
    pub is_file: bool,
    pub is_dir: bool,
    pub indexed_root: Option<String>,
}

/// The path with slashes.
pub open spec fn slashed(path: Seq<char>) -> Seq<char> {
    replace_all(path, "\\"@, "/"@)
}

/// The path with slashes.
pub fn to_slashes(path: &str) -> (r: String)
    ensures
        r@ == slashed(path@),
{
    proof {
        reveal_strlit("\\");
    }
    str_replace(path, "\\", "/")
}

/// The name is one of directories with foreign or generated files.
pub open spec fn is_generated_name(part: Seq<char>) -> bool {
    part == "third_party"@ || part == "out"@ || part == "generated"@ || part == "node_modules"@
        || part == "target"@
}

/// The path leads into a directory with foreign or generated files.
pub open spec fn in_generated(path: Seq<char>) -> bool {
    exists|i: int|
        0 <= i < split(slashed(path), '/').len() && is_generated_name(
            #[trigger] split(slashed(path), '/')[i],
        )
}

/// Whether a path leads into a directory with foreign or generated files.
pub fn is_direct_vendor_or_generated_scope(canonical: &str) -> (r: bool)
    ensures
        r == in_generated(canonical@),
{
    let normal = to_slashes(canonical);
    let parts = str_split(normal.as_str(), '/');
    let ghost all = split(slashed(canonical@), '/');
    for i in 0..parts.len()
        invariant
            views(parts@) == all,
            all == split(slashed(canonical@), '/'),
            forall|k: int| 0 <= k < i ==> !is_generated_name(#[trigger] all[k]),
    {
        assert(all[i as int] == parts@[i as int]@);
        let part = parts[i].as_str();
        if str_eq(part, "third_party") || str_eq(part, "out") || str_eq(part, "generated")
            || str_eq(part, "node_modules") || str_eq(part, "target") {
            assert(is_generated_name(all[i as int]));
            return true;
        }
    }
    assert(views(parts@).len() == parts@.len());
    false
}

/// The patterns of directories that a search leaves out of itself.
pub open spec fn standard_excludes() -> Seq<Seq<char>> {
    seq![
        "out/**"@,
        "**/out/**"@,
        "generated/**"@,
        "**/generated/**"@,
        ".git/**"@,
        "**/.git/**"@,
        "node_modules/**"@,
        "**/node_modules/**"@,
        "target/**"@,
        "**/target/**"@,
        "third_party/**"@,
        "**/third_party/**"@,
    ]
}

/// The patterns that are not among `given`.
pub open spec fn not_given(patterns: Seq<Seq<char>>, given: Seq<Seq<char>>) -> Seq<Seq<char>>
    decreases patterns.len(),
{
    if patterns.len() == 0 {
        Seq::empty()
    } else {
        let before = not_given(patterns.drop_last(), given);
        if given.contains(patterns.last()) {
            before
        } else {
            before.push(patterns.last())
        }
    }
}

/// The patterns that a search leaves out of itself: none where one of the paths
/// leads into what they leave out.
pub open spec fn default_excludes_of(
    inputs: Seq<InputPath>,
    user_excludes: Seq<Seq<char>>,
) -> Seq<Seq<char>> {
    if exists|i: int| 0 <= i < inputs.len() && in_generated((#[trigger] inputs[i]).canonical@) {
        Seq::empty()
    } else {
        not_given(standard_excludes(), user_excludes)
    }
}

/// The patterns of directories that a search leaves out of itself.
fn list_standard_excludes() -> (r: Vec<String>)
    ensures
        views(r@) == standard_excludes(),
{
    let out: Vec<String> = vec![
        "out/**".to_owned(),
        "**/out/**".to_owned(),
        "generated/**".to_owned(),
        "**/generated/**".to_owned(),
        ".git/**".to_owned(),
        "**/.git/**".to_owned(),
        "node_modules/**".to_owned(),
        "**/node_modules/**".to_owned(),
        "target/**".to_owned(),
        "**/target/**".to_owned(),
        "third_party/**".to_owned(),
        "**/third_party/**".to_owned(),
    ];
    assert(views(out@) =~= standard_excludes());
    out
}

/// The patterns that a search leaves out of itself.
pub fn default_fallback_excludes(inputs: &[InputPath], user_excludes: &[String]) -> (r: Vec<String>)
    ensures
        views(r@) == default_excludes_of(inputs@, views(user_excludes@)),
{
    let mut out: Vec<String> = Vec::new();
    assert(views(out@) =~= Seq::<Seq<char>>::empty());
    for i in 0..inputs.len()
        invariant
            views(out@) == Seq::<Seq<char>>::empty(),
            forall|k: int| 0 <= k < i ==> !in_generated((#[trigger] inputs@[k]).canonical@),
    {
        if is_direct_vendor_or_generated_scope(inputs[i].canonical.as_str()) {
            assert(in_generated(inputs@[i as int].canonical@));
            return out;
        }
    }
    let patterns = list_standard_excludes();
    let ghost all = standard_excludes();
    let ghost given = views(user_excludes@);
    assert(all.take(0) =~= Seq::<Seq<char>>::empty());
    for i in 0..patterns.len()
        invariant
            views(patterns@) == all,
            given == views(user_excludes@),
            views(out@) == not_given(all.take(i as int), given),
    {
        assert(all.take(i + 1).drop_last() =~= all.take(i as int));
        assert(all.take(i + 1).last() == patterns@[i as int]@);
        if !holds(user_excludes, patterns[i].as_str()) {
            let ghost before = views(out@);
            out.push(patterns[i].clone());
            assert(views(out@) =~= before.push(all[i as int]));
        }
    }
    assert(views(patterns@).len() == patterns@.len());
    assert(all.take(all.len() as int) =~= all);
    out
}

/// What a caller asks for.
pub struct TextArgs {
    pub query: Option<String>,
    pub mode: Option<String>,
    pub case_mode: Option<String>,
    pub case_sensitive: Option<bool>,
    pub max_results: Option<u64>,
    pub context_lines: Option<u64>,
    pub max_line_length: Option<u64>,
    pub explain_no_results: Option<bool>,
    pub allow_expensive_fallback: Option<bool>,
    pub includes: Option<Vec<String>>,
    pub excludes: Option<Vec<String>>,
}

/// What is searched for: `pattern` is the regular expression for the query.
pub struct TextPlan {
    pub query: String,
    pub pattern: String,
    pub mode: SearchMode,
    pub case_mode: CaseMode,
    pub case_sensitive: bool,
    pub max_results: usize,
    pub context_lines: usize,
    pub max_line_length: usize,
    pub explain_no_results: bool,
    pub allow_expensive_fallback: bool,
    pub includes: Vec<String>,
    pub excludes: Vec<String>,
    pub default_excludes: Vec<String>,
}

/// The query without the blanks at its end.
pub open spec fn query_of(args: TextArgs) -> Seq<char> {
    match args.query {
        Some(text) => trim_end(text@),
        None => trim_end(Seq::empty()),
    }
}

/// The patterns of a list, which may be missing.
pub open spec fn patterns_of(raw: Option<Vec<String>>) -> Seq<Seq<char>> {
    match raw {
        Some(list) => trimmed_patterns(views(list@)),
        None => Seq::empty(),
    }
}

/// The regular expression for a query.
pub open spec fn pattern_of(mode: SearchMode, query: Seq<char>) -> Seq<char> {
    match mode {
        SearchMode::Literal => escaped(query),
        SearchMode::Regex => query,
    }
}

/// All patterns of what is left out: those of the caller, then those of the
/// search itself.
pub open spec fn all_excludes(args: TextArgs, inputs: Seq<InputPath>) -> Seq<Seq<char>> {
    patterns_of(args.excludes) + default_excludes_of(inputs, patterns_of(args.excludes))
}

/// What is wrong with what is asked for: the first of what is checked in turn.
pub open spec fn args_error(args: TextArgs, inputs: Seq<InputPath>) -> Option<Seq<char>> {
    let query = query_of(args);
    let mode = mode_of(opt_view(args.mode));
    let case_mode = case_of(opt_view(args.case_mode), args.case_sensitive);
    if query.len() == 0 {
        Some("Query cannot be empty"@)
    } else if mode is Err {
        Some(mode->Err_0)
    } else if case_mode is Err {
        Some(case_mode->Err_0)
    } else if patterns_error(patterns_of(args.includes)) is Some {
        patterns_error(patterns_of(args.includes))
    } else if patterns_error(all_excludes(args, inputs)) is Some {
        patterns_error(all_excludes(args, inputs))
    } else if !is_search_pattern(
        pattern_of(mode->Ok_0, query),
        tells_case(case_mode->Ok_0, query),
    ) {
        Some("Invalid search query"@)
    } else {
        None
    }
}

/// The plan is the one for what was asked for.
pub open spec fn is_text_plan(args: TextArgs, inputs: Seq<InputPath>, plan: TextPlan) -> bool {
    let query = query_of(args);
    &&& plan.query@ == query
    &&& mode_of(opt_view(args.mode)) == Ok::<SearchMode, Seq<char>>(plan.mode)
    &&& case_of(opt_view(args.case_mode), args.case_sensitive) == Ok::<CaseMode, Seq<char>>(
        plan.case_mode,
    )
    &&& plan.case_sensitive == tells_case(plan.case_mode, query)
    &&& plan.pattern@ == pattern_of(plan.mode, query)
    &&& plan.max_results == clamped(
        args.max_results,
        DEFAULT_MAX_RESULTS,
        0,
        MAX_RETURNED_MATCHES,
    )
    &&& plan.context_lines == (match args.context_lines {
        Some(n) => if n > 10 {
            10
        } else {
            n as int
        },
        None => 0,
    })
    &&& plan.max_line_length == clamped(
        args.max_line_length,
        DEFAULT_MAX_LINE_LENGTH,
        40,
        MAX_LINE_LENGTH,
    )
    &&& plan.explain_no_results == (args.explain_no_results == Some(true))
    &&& plan.allow_expensive_fallback == (args.allow_expensive_fallback == Some(true))
    &&& views(plan.includes@) == patterns_of(args.includes)
    &&& views(plan.excludes@) == all_excludes(args, inputs)
    &&& views(plan.default_excludes@) == default_excludes_of(inputs, patterns_of(args.excludes))
}

/// Plans a search, or says what is wrong with what is asked for.
pub fn plan_text_search(args: &TextArgs, inputs: &[InputPath]) -> (r: Result<TextPlan, String>)
    ensures
        match r {
            Err(e) => args_error(*args, inputs@) == Some(e@),
            Ok(plan) => args_error(*args, inputs@) is None && is_text_plan(*args, inputs@, plan),
        },
        r matches Ok(plan) ==> {
            &&& args.query matches Some(raw) && plan.query@ == trim_end(raw@)
            &&& plan.query@.len() > 0
            &&& (args.mode matches Some(m) && m@ == "regex"@) ==> plan.pattern@ == plan.query@
            &&& !(args.mode matches Some(m) && m@ == "regex"@) ==> plan.pattern@ == escaped(
                plan.query@,
            )
            &&& args.case_sensitive == Some(true) ==> plan.case_sensitive
            &&& args.case_sensitive == Some(false) ==> !plan.case_sensitive
            &&& args.case_sensitive is None && args.case_mode is None ==> !plan.case_sensitive
            &&& plan.max_results <= 1000 && plan.context_lines <= 10 && 40 <= plan.max_line_length
                <= 4000
            &&& args.max_results is None ==> plan.max_results == 100
            &&& args.max_results matches Some(n) ==> n <= 1000 ==> plan.max_results == n
            &&& args.context_lines matches Some(n) ==> n <= 10 ==> plan.context_lines == n
            &&& args.max_line_length matches Some(n) ==> 40 <= n <= 4000 ==> plan.max_line_length
                == n
            &&& plan.allow_expensive_fallback <==> args.allow_expensive_fallback == Some(true)
            &&& patterns_of(args.excludes).is_prefix_of(views(plan.excludes@))
        },
        (args.query matches Some(raw) ==> trim_end(raw@).len() == 0) ==> r is Err,
{
    proof {
        reveal_strlit("regex");
        reveal_strlit("literal");
        assert("regex"@.len() == 5 && "literal"@.len() == 7);
        assert(trim_end(Seq::<char>::empty()) == Seq::<char>::empty());
    }
    let query: String = match &args.query {
        Some(text) => str_trim_end(text.as_str()),
        None => {
            let none = String::new();
            assert(none@ =~= Seq::<char>::empty());
            str_trim_end(none.as_str())
        },
    };
    if query.as_str().is_empty() {
        return Err("Query cannot be empty".to_owned());
    }
    let mode: SearchMode = match parse_mode(&args.mode) {
        Ok(mode) => mode,
        Err(e) => return Err(e),
    };
    let case_mode: CaseMode = match parse_case_mode(&args.case_mode, args.case_sensitive) {
        Ok(mode) => mode,
        Err(e) => return Err(e),
    };
    let case_sensitive = resolve_case_sensitive(case_mode, query.as_str());
    let max_results: usize = arg_usize(
        args.max_results,
        DEFAULT_MAX_RESULTS,
        0,
        MAX_RETURNED_MATCHES,
    );
    let context_lines: usize = match args.context_lines {
        Some(n) => if n > 10 {
            10
        } else {
            n as usize
        },
        None => 0,
    };
    let max_line_length: usize = arg_usize(
        args.max_line_length,
        DEFAULT_MAX_LINE_LENGTH,
        40,
        MAX_LINE_LENGTH,
    );
    let includes = parse_pattern_strings(&args.includes);
    let mut excludes = parse_pattern_strings(&args.excludes);
    let default_excludes = default_fallback_excludes(inputs, excludes.as_slice());
    let ghost own = views(excludes@);
    for i in 0..default_excludes.len()
        invariant
            own == patterns_of(args.excludes),
            views(default_excludes@) == default_excludes_of(inputs@, own),
            views(excludes@) == own + views(default_excludes@).take(i as int),
    {
        let ghost before = views(excludes@);
        excludes.push(default_excludes[i].clone());
        assert(views(excludes@) =~= before.push(views(default_excludes@)[i as int]));
        assert(views(excludes@) =~= own + views(default_excludes@).take(i + 1));
    }
    assert(views(default_excludes@).len() == default_excludes@.len());
    assert(views(excludes@) =~= all_excludes(*args, inputs@));
    if let Err(e) = compile_patterns(includes.as_slice()) {
        return Err(e);
    }
    if let Err(e) = compile_patterns(excludes.as_slice()) {
        return Err(e);
    }
    let pattern: String = match mode {
        SearchMode::Literal => escape_regex(query.as_str()),
        SearchMode::Regex => query.clone(),
    };
    if build_matcher(pattern.as_str(), case_sensitive).is_none() {
        return Err("Invalid search query".to_owned());
    }
    let explain_no_results = match args.explain_no_results {
        Some(b) => b,
        None => false,
    };
    let allow_expensive_fallback = match args.allow_expensive_fallback {
        Some(b) => b,
        None => false,
    };
    Ok(
        TextPlan {
            query,
            pattern,
            mode,
            case_mode,
            case_sensitive,
            max_results,
            context_lines,
            max_line_length,
            explain_no_results,
            allow_expensive_fallback,
            includes,
            excludes,
            default_excludes,
        },
    )
}

/// How many files the index is asked for; nothing where it is not asked.
pub open spec fn candidate_limit_of(plan: TextPlan) -> Option<int> {
    if plan.mode == SearchMode::Literal && plan.max_results > 0 {
        Some(
            if plan.max_results * 64 < 256 {
                256
            } else if plan.max_results * 64 > usize::MAX {
                usize::MAX as int
            } else {
                plan.max_results * 64
            },
        )
    } else {
        None
    }
}

/// How many files the index is asked for. It is asked only for the text of the
/// query itself.
pub fn candidate_limit(plan: &TextPlan) -> (r: Option<usize>)
    ensures
        (match r {
            Some(n) => Some(n as int),
            None => None,
        }) == candidate_limit_of(*plan),
{
    if plan.mode == SearchMode::Literal && plan.max_results > 0 {
        let wanted: usize = match plan.max_results.checked_mul(64) {
            Some(n) => n,
            None => usize::MAX,
        };
        if wanted < 256 {
            Some(256)
        } else {
            Some(wanted)
        }
    } else {
        None
    }
}

/// What the index answered, as far as it decides how the search goes on.
pub struct IndexAnswer {
    pub used: bool,
    pub partial: bool,
    pub fallback_reasons: Vec<String>,
}

/// The path is the root of an index: a search through all of it is expensive.
pub open spec fn is_index_root(input: InputPath) -> bool {
    input.is_dir && (match input.indexed_root {
        Some(root) => parts_of(root@) == parts_of(input.canonical@),
        None => false,
    })
}

/// Whether the path is the root of an index.
pub fn spans_index(input: &InputPath) -> (r: bool)
    ensures
        r == is_index_root(*input),
{
    input.is_dir && match &input.indexed_root {
        Some(root) => same_path(root.as_str(), input.canonical.as_str()),
        None => false,
    }
}

/// The files may be searched one by one: asked for, or not through a whole
/// index.
pub open spec fn may_grep(inputs: Seq<InputPath>, allowed: bool) -> bool {
    allowed || forall|i: int| 0 <= i < inputs.len() ==> !is_index_root(#[trigger] inputs[i])
}

/// Whether the files may be searched one by one.
pub fn plan_grep_fallback(inputs: &[InputPath], allow_expensive_fallback: bool) -> (r: bool)
    ensures
        r == may_grep(inputs@, allow_expensive_fallback),
{
    if allow_expensive_fallback {
        return true;
    }
    for i in 0..inputs.len()
        invariant
            !allow_expensive_fallback,
            forall|k: int| 0 <= k < i ==> !is_index_root(#[trigger] inputs@[k]),
    {
        if spans_index(&inputs[i]) {
            assert(is_index_root(inputs@[i as int]));
            return false;
        }
    }
    true
}

/// How a search goes on once the index has answered: `grep` says that the files
/// are searched one by one.
pub struct Route {
    pub strategy: &'static str,
    pub grep: bool,
    pub fallback_reasons: Vec<String>,
}

/// The index answered for all that is searched.
pub open spec fn index_suffices(answer: Option<IndexAnswer>) -> bool {
    answer matches Some(a) && a.used && !a.partial
}

/// The name of the way that a search takes.
pub open spec fn route_name(
    plan: TextPlan,
    inputs: Seq<InputPath>,
    answer: Option<IndexAnswer>,
) -> Seq<char> {
    if index_suffices(answer) {
        "tantivy"@
    } else if !may_grep(inputs, plan.allow_expensive_fallback) {
        "refused_large_scope"@
    } else if answer matches Some(a) && a.used {
        "mixed"@
    } else {
        "grep_fallback"@
    }
}

/// Why the index did not suffice, in the order of its causes.
pub open spec fn route_reasons(
    plan: TextPlan,
    inputs: Seq<InputPath>,
    answer: Option<IndexAnswer>,
) -> Seq<Seq<char>> {
    let first = match answer {
        Some(a) => views(a.fallback_reasons@),
        None => if plan.mode == SearchMode::Regex {
            seq!["regex_mode_requires_grep"@]
        } else {
            seq!["max_results_zero"@]
        },
    };
    if !index_suffices(answer) && !may_grep(inputs, plan.allow_expensive_fallback) {
        first.push("large_scope_requires_explicit_fallback"@)
    } else {
        first
    }
}

/// Decides how a search goes on once the index has answered; there is no answer
/// where it was not asked.
pub fn choose_route(plan: &TextPlan, inputs: &[InputPath], answer: &Option<IndexAnswer>) -> (r:
    Route)
    ensures
        r.strategy@ == route_name(*plan, inputs@, *answer),
        r.grep == (!index_suffices(*answer) && may_grep(inputs@, plan.allow_expensive_fallback)),
        are_distinct(route_reasons(*plan, inputs@, *answer), views(r.fallback_reasons@)),
        r.strategy@ == "tantivy"@ <==> (*answer matches Some(a) && a.used && !a.partial),
        r.grep <==> !(*answer matches Some(a) && a.used && !a.partial) && (
        plan.allow_expensive_fallback || forall|i: int|
            0 <= i < inputs@.len() ==> !is_index_root(#[trigger] inputs@[i])),
        r.strategy@ == "refused_large_scope"@ <==> !r.grep && r.strategy@ != "tantivy"@,
        r.strategy@ == "mixed"@ ==> r.grep && (*answer matches Some(a) && a.used && a.partial),
        r.strategy@ == "grep_fallback"@ <==> r.grep && !(*answer matches Some(a) && a.used),
{
    proof {
        reveal_strlit("tantivy");
        reveal_strlit("mixed");
        reveal_strlit("refused_large_scope");
        reveal_strlit("grep_fallback");
        assert("tantivy"@.len() == 7 && "mixed"@.len() == 5);
        assert("refused_large_scope"@.len() == 19 && "grep_fallback"@.len() == 13);
    }
    let mut reasons: Vec<String> = Vec::new();
    let mut used = false;
    let mut suffices = false;
    match answer {
        Some(a) => {
            used = a.used;
            suffices = a.used && !a.partial;
            let ghost all = views(a.fallback_reasons@);
            for i in 0..a.fallback_reasons.len()
                invariant
                    all == views(a.fallback_reasons@),
                    views(reasons@) =~= all.take(i as int),
            {
                let ghost before = views(reasons@);
                reasons.push(a.fallback_reasons[i].clone());
                assert(views(reasons@) =~= before.push(all[i as int]));
            }
            assert(all.take(all.len() as int) =~= all);
        },
        None => {
            if plan.mode == SearchMode::Regex {
                reasons.push("regex_mode_requires_grep".to_owned());
                assert(views(reasons@) =~= seq!["regex_mode_requires_grep"@]);
            } else {
                reasons.push("max_results_zero".to_owned());
                assert(views(reasons@) =~= seq!["max_results_zero"@]);
            }
        },
    }
    let allowed = plan_grep_fallback(inputs, plan.allow_expensive_fallback);
    let mut strategy: &'static str = "tantivy";
    if !suffices {
        if !allowed {
            strategy = "refused_large_scope";
            let ghost before = views(reasons@);
            reasons.push("large_scope_requires_explicit_fallback".to_owned());
            assert(views(reasons@) =~= before.push("large_scope_requires_explicit_fallback"@));
        } else if used {
            strategy = "mixed";
        } else {
            strategy = "grep_fallback";
        }
    }
    let fallback_reasons = distinct(reasons.as_slice());
    Route { strategy, grep: !suffices && allowed, fallback_reasons }
}

/// The engine that makes sure of every line that is shown.
pub fn verification_engine() -> (r: &'static str)
    ensures
        r@ == "grep_searcher"@,
{
    "grep_searcher"
}

/// The engine that serves a way of searching.
pub open spec fn engine_of(strategy: Seq<char>) -> Seq<char> {
    if strategy == "tantivy"@ {
        "tantivy+grep_verify"@
    } else if strategy == "mixed"@ {
        "tantivy+grep_fallback"@
    } else if strategy == "refused_large_scope"@ {
        "planner"@
    } else {
        "grep_searcher/ignore"@
    }
}

/// The engine that serves a way of searching.
pub fn engine_for_strategy(strategy: &str) -> (r: &'static str)
    ensures
        r@ == engine_of(strategy@),
{
    if str_eq(strategy, "tantivy") {
        "tantivy+grep_verify"
    } else if str_eq(strategy, "mixed") {
        "tantivy+grep_fallback"
    } else if str_eq(strategy, "refused_large_scope") {
        "planner"
    } else {
        "grep_searcher/ignore"
    }
}

/// The warning of a search through a whole index.
pub open spec fn scope_warning(strategy: Seq<char>, root: Seq<char>) -> Seq<char> {
    "Search used "@ + strategy + " at indexed workspace root '"@ + root
        + "'. For large repos, retry with a narrower paths value (for example a component directory), use a literal query when possible, or set allow_expensive_fallback=true only when a full grep scan is intentional."@
}

/// The warnings of the paths, in their order.
pub open spec fn scope_warnings_of(inputs: Seq<InputPath>, strategy: Seq<char>) -> Seq<Seq<char>>
    decreases inputs.len(),
{
    if inputs.len() == 0 || strategy == "tantivy"@ {
        Seq::empty()
    } else {
        let before = scope_warnings_of(inputs.drop_last(), strategy);
        if is_index_root(inputs.last()) {
            before.push(scope_warning(strategy, inputs.last().canonical@))
        } else {
            before
        }
    }
}

/// The different warnings of searches through a whole index.
pub fn search_scope_warnings(inputs: &[InputPath], strategy: &str) -> (r: Vec<String>)
    ensures
        are_distinct(scope_warnings_of(inputs@, strategy@), views(r@)),
{
    let mut all: Vec<String> = Vec::new();
    assert(views(all@) =~= Seq::<Seq<char>>::empty());
    assert(inputs@.take(0) =~= Seq::<InputPath>::empty());
    if !str_eq(strategy, "tantivy") {
        for i in 0..inputs.len()
            invariant
                strategy@ != "tantivy"@,
                views(all@) == scope_warnings_of(inputs@.take(i as int), strategy@),
        {
            assert(inputs@.take(i + 1).drop_last() =~= inputs@.take(i as int));
            if spans_index(&inputs[i]) {
                let mut text = "Search used ".to_owned();
                text.append(strategy);
                text.append(" at indexed workspace root '");
                text.append(inputs[i].canonical.as_str());
                text.append(
                    "'. For large repos, retry with a narrower paths value (for example a component directory), use a literal query when possible, or set allow_expensive_fallback=true only when a full grep scan is intentional.",
                );
                let ghost before = views(all@);
                let ghost said = text@;
                all.push(text);
                assert(views(all@) =~= before.push(said));
            }
        }
        assert(inputs@.take(inputs@.len() as int) =~= inputs@);
    }
    distinct(all.as_slice())
}

/// What to try next where a search was refused.
pub open spec fn suggestion_of(inputs: Seq<InputPath>, strategy: Seq<char>) -> Option<Seq<char>> {
    if strategy == "refused_large_scope"@ && inputs.len() > 0 {
        Some(
            "Retry with a narrower paths value under '"@ + inputs[0].path@
                + "' or set allow_expensive_fallback=true for an intentional full grep scan."@,
        )
    } else {
        None
    }
}

/// What to try next where a search was refused.
pub fn suggested_next_query(inputs: &[InputPath], strategy: &str) -> (r: Option<String>)
    ensures
        opt_view(r) == suggestion_of(inputs@, strategy@),
{
    if !str_eq(strategy, "refused_large_scope") || inputs.len() == 0 {
        return None;
    }
    let mut text = "Retry with a narrower paths value under '".to_owned();
    text.append(inputs[0].path.as_str());
    text.append("' or set allow_expensive_fallback=true for an intentional full grep scan.");
    Some(text)
}

/// A search through a whole index is never made file by file unless it is asked
/// for, and one that is refused says so.
pub proof fn law_large_scope_refused(
    plan: TextPlan,
    inputs: Seq<InputPath>,
    answer: Option<IndexAnswer>,
    i: int,
)
    requires
        0 <= i < inputs.len(),
        is_index_root(inputs[i]),
        !plan.allow_expensive_fallback,
        !index_suffices(answer),
    ensures
        route_name(plan, inputs, answer) == "refused_large_scope"@,
        route_reasons(plan, inputs, answer).contains("large_scope_requires_explicit_fallback"@),
        suggestion_of(inputs, route_name(plan, inputs, answer)) is Some,
{
    assert(!may_grep(inputs, false));
    let reasons = route_reasons(plan, inputs, answer);
    assert(reasons[reasons.len() - 1] == "large_scope_requires_explicit_fallback"@);
}

/// What is counted of all searches.
#[derive(Clone, Copy, Debug, PartialEq, Eq, Structural)]
pub struct SearchTelemetry {
    pub total_text_searches: u64,
    pub total_grep_fallbacks: u64,
    pub total_refused_large_scope: u64,
    pub last_search_duration_ms: u64,
}

/// The number after this one; zero after the largest.
pub open spec fn counted(n: u64) -> u64 {
    if n == u64::MAX {
        0
    } else {
        (n + 1) as u64
    }
}

impl SearchTelemetry {
    /// Nothing was searched.
    pub fn new() -> (r: Self)
        ensures
            r.total_text_searches == 0,
            r.total_grep_fallbacks == 0,
            r.total_refused_large_scope == 0,
            r.last_search_duration_ms == 0,
    {
        SearchTelemetry {
            total_text_searches: 0,
            total_grep_fallbacks: 0,
            total_refused_large_scope: 0,
            last_search_duration_ms: 0,
        }
    }

    /// Counts a search that begins.
    pub fn note_search(&mut self)
        ensures
            *final(self) == (SearchTelemetry {
                total_text_searches: counted(old(self).total_text_searches),
                ..*old(self)
            }),
    {
        self.total_text_searches = self.total_text_searches.wrapping_add(1);
    }

    /// Counts the way that a search takes: that it reads through files, or that it is
    /// refused.
    pub fn note_route(&mut self, route: &Route)
        ensures
            *final(self) == (if route.grep {
                SearchTelemetry {
                    total_grep_fallbacks: counted(old(self).total_grep_fallbacks),
                    ..*old(self)
                }
            } else if route.strategy@ == "refused_large_scope"@ {
                SearchTelemetry {
                    total_refused_large_scope: counted(old(self).total_refused_large_scope),
                    ..*old(self)
                }
            } else {
                *old(self)
            }),
    {
        if route.grep {
            self.total_grep_fallbacks = self.total_grep_fallbacks.wrapping_add(1);
        } else if str_eq(route.strategy, "refused_large_scope") {
            self.total_refused_large_scope = self.total_refused_large_scope.wrapping_add(1);
        }
    }

    /// Notes how long a search took.
    pub fn note_duration(&mut self, millis: u64)
        ensures
            *final(self) == (SearchTelemetry { last_search_duration_ms: millis, ..*old(self) }),
    {
        self.last_search_duration_ms = millis;
    }
}

} // verus!
