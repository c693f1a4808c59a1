//! What the surroundings say of the index: its limits, and where it is kept.

use vstd::prelude::*;

use std::hash::{Hash, Hasher};

use crate::common::{join_path, joined};
use crate::numbers::{digits_of, is_number, parse_u64, value};
use crate::paths::{normalize_display_path, shown_path};
use crate::text::{ascii_lower, starts_with, str_ascii_lower, str_eq, str_starts_with};

verus! {

/// The seconds after which an index is out of date where nothing else is said.
pub const DEFAULT_STALE_INDEX_SECS: u64 = 3_600;

/// The megabytes that an index may hold where nothing else is said.
pub const DEFAULT_INDEX_MAP_SIZE_MB: u64 = 4_096;

/// The number that a setting gives: one above none, or else the default.
pub open spec fn setting(value_text: Option<Seq<char>>, default: u64) -> u64 {
    match value_text {
        Some(s) => if is_number(s) && 0 < value(digits_of(s)) <= u64::MAX {
            value(digits_of(s)) as u64
        } else {
            default
        },
        None => default,
    }
}

/// The number that a setting gives.
pub fn env_u64(value_text: &Option<String>, default_value: u64) -> (r: u64)
    ensures
        r == setting(crate::text::opt_view(*value_text), default_value),
{
    match value_text {
        Some(s) => match parse_u64(s.as_str()) {
            Some(n) => if n > 0 {
                n
            } else {
                default_value
            },
            None => default_value,
        },
        None => default_value,
    }
}

/// The seconds after which an index is out of date.
pub fn stale_index_after_secs(value_text: &Option<String>) -> (r: u64)
    ensures
        r == setting(crate::text::opt_view(*value_text), DEFAULT_STALE_INDEX_SECS),
{
    env_u64(value_text, DEFAULT_STALE_INDEX_SECS)
}

/// The bytes of so many megabytes, or the largest number of the machine.
pub open spec fn megabytes(n: u64) -> int {
    if n * 1_048_576 > u64::MAX {
        u64::MAX as int
    } else {
        n * 1_048_576
    }
}

/// The bytes that an index may hold.
pub fn index_map_size_bytes(value_text: &Option<String>) -> (r: u64)
    ensures
        r == megabytes(
            setting(crate::text::opt_view(*value_text), DEFAULT_INDEX_MAP_SIZE_MB),
        ),
{
    let n: u64 = env_u64(value_text, DEFAULT_INDEX_MAP_SIZE_MB);
    match n.checked_mul(1_048_576) {
        Some(bytes) => bytes,
        None => u64::MAX,
    }
}

/// The setting does not switch off.
pub open spec fn switched_on(value_text: Option<Seq<char>>) -> bool {
    match value_text {
        Some(s) => ascii_lower(s) != "0"@ && ascii_lower(s) != "false"@ && ascii_lower(s)
            != "off"@,
        None => true,
    }
}

/// Whether the index of contents is switched on: it is, unless a setting says
/// otherwise.
pub fn tantivy_enabled(value_text: &Option<String>) -> (r: bool)
    ensures
        r == switched_on(crate::text::opt_view(*value_text)),
{
    match value_text {
        Some(s) => {
            let lower = str_ascii_lower(s.as_str());
            !str_eq(lower.as_str(), "0") && !str_eq(lower.as_str(), "false") && !str_eq(
                lower.as_str(),
                "off",
            )
        },
        None => true,
    }
}

/// The directories that the surroundings name, where they do.
pub struct StorageDirs {
    pub custom: Option<String>,
    pub local_app_data: Option<String>,
    pub cache_home: Option<String>,
    pub home: Option<String>,
    pub temp: String,
}

/// The directory of all indexes: below the first of those that are named.
pub open spec fn storage_root(dirs: StorageDirs) -> Seq<char> {
    match (dirs.custom, dirs.local_app_data, dirs.cache_home, dirs.home) {
        (Some(dir), _, _, _) => joined(dir@, "index-v2"@),
        (None, Some(dir), _, _) => joined(joined(dir@, "codeloupe-mcp"@), "index-v2"@),
        (None, None, Some(dir), _) => joined(joined(dir@, "codeloupe-mcp"@), "index-v2"@),
        (None, None, None, Some(dir)) => joined(
            joined(joined(dir@, ".cache"@), "codeloupe-mcp"@),
            "index-v2"@,
        ),
        (None, None, None, None) => joined(joined(dirs.temp@, "codeloupe-mcp"@), "index-v2"@),
    }
}

/// The directory of all indexes below a directory for caches.
fn cache_below(dir: &str) -> (r: String)
    ensures
        r@ == joined(joined(dir@, "codeloupe-mcp"@), "index-v2"@),
{
    let own = join_path(dir, "codeloupe-mcp");
    join_path(own.as_str(), "index-v2")
}

/// The directory of all indexes.
pub fn index_storage_root(dirs: &StorageDirs) -> (r: String)
    ensures
        r@ == storage_root(*dirs),
{
    if let Some(dir) = &dirs.custom {
        return join_path(dir.as_str(), "index-v2");
    }
    if let Some(dir) = &dirs.local_app_data {
        return cache_below(dir.as_str());
    }
    if let Some(dir) = &dirs.cache_home {
        return cache_below(dir.as_str());
    }
    if let Some(dir) = &dirs.home {
        let cache = join_path(dir.as_str(), ".cache");
        return cache_below(cache.as_str());
    }
    cache_below(dirs.temp.as_str())
}

/// The key of a path by which it is told from others, on a system that tells
/// upper and lower case apart or does not.
pub open spec fn identity(path: Seq<char>, ignore_case: bool) -> Seq<char> {
    if ignore_case {
        ascii_lower(shown_path(path))
    } else {
        shown_path(path)
    }
}

/// The key of a path by which it is told from others.
pub fn normalize_path_for_identity(path: &str, ignore_case: bool) -> (r: String)
    ensures
        r@ == identity(path@, ignore_case),
{
    let shown = normalize_display_path(path);
    if ignore_case {
        str_ascii_lower(shown.as_str())
    } else {
        shown
    }
}

/// The path is that of the workspace or lies below it.
pub open spec fn belongs(root: Seq<char>, path: Seq<char>, ignore_case: bool) -> bool {
    let own = identity(root, ignore_case);
    let key = identity(path, ignore_case);
    key == own || starts_with(key, own + "/"@)
}

/// What lies below a workspace begins with its path and a slash.
pub proof fn law_belongs(root: Seq<char>, path: Seq<char>, ignore_case: bool)
    ensures
        belongs(root, path, ignore_case) <==> identity(path, ignore_case) == identity(
            root,
            ignore_case,
        ) || exists|rest: Seq<char>|
            identity(path, ignore_case) == #[trigger] (identity(root, ignore_case) + seq!['/']
                + rest),
        belongs(root, root, ignore_case),
{
    reveal_strlit("/");
    assert("/"@ =~= seq!['/']);
    let own = identity(root, ignore_case);
    let key = identity(path, ignore_case);
    let head = own + "/"@;
    if starts_with(key, head) {
        let rest = key.skip(head.len() as int);
        assert(key =~= own + seq!['/'] + rest);
    }
    if exists|rest: Seq<char>| key == #[trigger] (own + seq!['/'] + rest) {
        let rest = choose|rest: Seq<char>| key == #[trigger] (own + seq!['/'] + rest);
        assert(key.subrange(0, head.len() as int) =~= head);
    }
}

/// Whether a path is that of the workspace or lies below it.
pub fn path_belongs_to_workspace(root: &str, path: &str, ignore_case: bool) -> (r: bool)
    ensures
        r == belongs(root@, path@, ignore_case),
        r <==> identity(path@, ignore_case) == identity(root@, ignore_case) || exists|
            rest: Seq<char>,
        |
            identity(path@, ignore_case) == #[trigger] (identity(root@, ignore_case) + seq!['/']
                + rest),
{
    proof {
        law_belongs(root@, path@, ignore_case);
    }
    let own = normalize_path_for_identity(root, ignore_case);
    let key = normalize_path_for_identity(path, ignore_case);
    if str_eq(key.as_str(), own.as_str()) {
        return true;
    }
    let mut head = own;
    head.append("/");
    str_starts_with(key.as_str(), head.as_str())
}

/// The digit of base sixteen.
pub open spec fn hex_digit(n: int) -> char {
    if n < 10 {
        (48 + n) as char
    } else {
        (87 + n) as char
    }
}

/// The last `digits` digits of the number in base sixteen, with zeros before
/// them.
pub open spec fn hex_digits(n: nat, digits: nat) -> Seq<char>
    decreases digits,
{
    if digits == 0 {
        Seq::empty()
    } else {
        hex_digits(n / 16, (digits - 1) as nat).push(hex_digit((n % 16) as int))
    }
}

/// The number as sixteen digits of base sixteen.
pub fn hex_of(n: u64) -> (r: String)
    ensures
        r@ == hex_digits(n as nat, 16),
{
    let mut reversed: Vec<char> = Vec::new();
    let mut rest: u64 = n;
    let mut i: usize = 0;
    while i < 16
        invariant
            i <= 16,
            reversed@.len() == i,
            hex_digits(n as nat, 16) =~= hex_digits(rest as nat, (16 - i) as nat)
                + reversed@.reverse(),
        decreases 16 - i,
    {
        let d: u8 = (rest % 16) as u8;
        let c: char = if d < 10 {
            (48 + d) as char
        } else {
            (87 + d) as char
        };
        let ghost before = reversed@;
        let ghost left = rest;
        reversed.push(c);
        rest = rest / 16;
        i += 1;
        proof {
            assert(c == hex_digit((left as nat % 16) as int));
            assert(reversed@.reverse() =~= seq![c] + before.reverse());
            assert(hex_digits(left as nat, (17 - i) as nat) =~= hex_digits(
                rest as nat,
                (16 - i) as nat,
            ) + seq![c]);
        }
    }
    let mut out = String::new();
    let mut k: usize = 16;
    assert(hex_digits(rest as nat, 0) =~= Seq::<char>::empty());
    assert(reversed@.reverse() =~= hex_digits(n as nat, 16));
    while k > 0
        invariant
            k <= 16,
            reversed@.len() == 16,
            out@ =~= reversed@.reverse().take(16 - k),
        decreases k,
    {
        k -= 1;
        out.push(reversed[k]);
        assert(reversed@.reverse()[15 - k] == reversed@[k as int]);
    }
    assert(reversed@.reverse().take(16) =~= reversed@.reverse());
    out
}

/// The hash that the standard library's default hasher gives a text.
pub uninterp spec fn default_hash(s: Seq<char>) -> u64;

/// `std::hash::DefaultHasher`, new and fed with one text: a function of the
/// text, the same for every hasher that `new` makes.
#[verifier::external_body]
fn hash_text(s: &str) -> (r: u64)
    ensures
        r == default_hash(s@),
{
    let mut hasher = std::hash::DefaultHasher::new();
    s.hash(&mut hasher);
    hasher.finish()
}

/// The name of the directory of a workspace's index.
pub open spec fn workspace_hash(root: Seq<char>, ignore_case: bool) -> Seq<char> {
    hex_digits(default_hash(identity(root, ignore_case)) as nat, 16)
}

/// The name of the directory of a workspace's index.
pub fn hash_workspace_root(root: &str, ignore_case: bool) -> (r: String)
    ensures
        r@ == workspace_hash(root@, ignore_case),
{
    let key = normalize_path_for_identity(root, ignore_case);
    hex_of(hash_text(key.as_str()))
}

/// The directory of a workspace's index.
pub fn index_storage_dir_for_workspace(dirs: &StorageDirs, root: &str, ignore_case: bool) -> (r:
    String)
    ensures
        r@ == joined(storage_root(*dirs), workspace_hash(root@, ignore_case)),
{
    let all = index_storage_root(dirs);
    let name = hash_workspace_root(root, ignore_case);
    join_path(all.as_str(), name.as_str())
}

} // verus!
