//! The paths of a workspace, found by the words in them.

use vstd::prelude::*;

use crate::common::{join_path, joined};
use crate::lines::{lemma_split_len, split, str_split};
use crate::order::lemma_precedes_total;
use crate::sorted::ascending;
use crate::sorted_map::SortedMap;
use crate::text::{
    ascii_lower, byte_len, opt_view, starts_with, str_ascii_lower, str_eq, str_starts_with, views,
};
use crate::tools::compare_summary::distinct;
use crate::words::{are_distinct, find_terms, terms};

verus! {

/// The fewest characters of a word by which a path is found.
pub const MIN_INDEX_TERM_LEN: usize = 3;

/// How many paths the index offers at most.
pub const MAX_SHORTLIST_CANDIDATES: usize = 8_192;

/// A path as it is kept on disk: below the workspace, with slashes.
pub struct IndexedPathEntry {
    pub relative_path: String,
    pub is_dir: bool,
    pub size: u64,
    pub modified_at: u64,
    pub extension_lower: String,
    pub parent_relative_path: String,
    pub indexed_at: u64,
}

/// A path of the index.
pub struct PathIndexEntry {
    pub absolute_path: String,
    pub relative_path: String,
    pub relative_path_lower: String,
    pub file_name_lower: String,
    pub extension_lower: String,
    pub is_dir: bool,
    pub size: u64,
    pub modified_at: u64,
}

/// A path of the index.
pub struct PathEntry {
    pub absolute: Seq<char>,
    pub relative: Seq<char>,
    pub extension: Seq<char>,
    pub is_dir: bool,
    pub size: u64,
    pub modified_at: u64,
}

impl View for PathIndexEntry {
    type V = PathEntry;

    open spec fn view(&self) -> PathEntry {
        PathEntry {
            absolute: self.absolute_path@,
            relative: self.relative_path@,
            extension: self.extension_lower@,
            is_dir: self.is_dir,
            size: self.size,
            modified_at: self.modified_at,
        }
    }
}

/// The paths of the index.
pub open spec fn entry_views(entries: Seq<PathIndexEntry>) -> Seq<PathEntry> {
    Seq::new(entries.len(), |i: int| entries[i]@)
}

/// A path that the index offers.
pub struct PathQueryCandidate {
    pub path: String,
    pub is_dir: bool,
    pub size: u64,
    pub modified_at: u64,
}

/// A path that the index offers.
pub struct Offer {
    pub path: Seq<char>,
    pub is_dir: bool,
    pub size: u64,
    pub modified_at: u64,
}

impl View for PathQueryCandidate {
    type V = Offer;

    open spec fn view(&self) -> Offer {
        Offer {
            path: self.path@,
            is_dir: self.is_dir,
            size: self.size,
            modified_at: self.modified_at,
        }
    }
}

/// The paths that the index offers.
pub open spec fn offers(items: Seq<PathQueryCandidate>) -> Seq<Offer> {
    Seq::new(items.len(), |i: int| items[i]@)
}

/// All that the index holds of a path.
pub struct IndexedPathRecord {
    pub path: String,
    pub relative_path: String,
    pub file_name: String,
    pub extension_lower: String,
    pub is_dir: bool,
    pub size: u64,
    pub modified_at: u64,
}

/// All that the index holds of a path.
pub struct PathRecord {
    pub path: Seq<char>,
    pub relative: Seq<char>,
    pub name: Seq<char>,
    pub extension: Seq<char>,
    pub is_dir: bool,
    pub size: u64,
    pub modified_at: u64,
}

impl View for IndexedPathRecord {
    type V = PathRecord;

    open spec fn view(&self) -> PathRecord {
        PathRecord {
            path: self.path@,
            relative: self.relative_path@,
            name: self.file_name@,
            extension: self.extension_lower@,
            is_dir: self.is_dir,
            size: self.size,
            modified_at: self.modified_at,
        }
    }
}

/// All that the index holds of some paths.
pub open spec fn record_views(items: Seq<IndexedPathRecord>) -> Seq<PathRecord> {
    Seq::new(items.len(), |i: int| items[i]@)
}

/// The name behind the last slash of a path; empty where it ends with one.
pub open spec fn last_name(relative: Seq<char>) -> Seq<char> {
    split(relative, '/').last()
}

/// The name behind the last slash of a path, where there is one.
pub fn file_name_from_relative_path(relative_path: &str) -> (r: Option<String>)
    ensures
        opt_view(r) == (if last_name(relative_path@).len() > 0 {
            Some(last_name(relative_path@))
        } else {
            None
        }),
{
    let mut parts = str_split(relative_path, '/');
    proof {
        lemma_split_len(relative_path@, '/');
    }
    assert(views(parts@).len() == parts@.len());
    let ghost all = parts@;
    match parts.pop() {
        Some(name) => {
            assert(views(all).last() == name@);
            if name.as_str().is_empty() {
                None
            } else {
                Some(name)
            }
        },
        None => None,
    }
}

/// The name behind the last slash of a path.
fn own_name(relative_path: &str) -> (r: String)
    ensures
        r@ == last_name(relative_path@),
{
    match file_name_from_relative_path(relative_path) {
        Some(name) => name,
        None => {
            let none = String::new();
            assert(none@ =~= last_name(relative_path@));
            none
        },
    }
}

/// The words by which a path is found: those of the path, those of its name, and
/// its extension.
pub open spec fn path_terms(e: PathEntry) -> Seq<Seq<char>> {
    let words = terms(ascii_lower(e.relative), 3) + terms(ascii_lower(last_name(e.relative)), 3);
    if byte_len(e.extension) >= 3 {
        words.push(e.extension)
    } else {
        words
    }
}

/// The path is found by the word.
pub open spec fn has_term(e: PathEntry, term: Seq<char>) -> bool {
    path_terms(e).contains(term)
}

/// The different words by which a path is found.
pub fn index_terms(entry: &PathIndexEntry) -> (r: Vec<String>)
    requires
        entry.relative_path_lower@ == ascii_lower(entry.relative_path@),
        entry.file_name_lower@ == ascii_lower(last_name(entry.relative_path@)),
    ensures
        are_distinct(path_terms(entry@), views(r@)),
{
    let mut all = find_terms(entry.relative_path_lower.as_str(), MIN_INDEX_TERM_LEN);
    let mut own = find_terms(entry.file_name_lower.as_str(), MIN_INDEX_TERM_LEN);
    let ghost a = views(all@);
    let ghost b = views(own@);
    all.append(&mut own);
    assert(views(all@) =~= a + b);
    let size: usize = entry.extension_lower.as_str().as_bytes().len();
    if size >= MIN_INDEX_TERM_LEN {
        all.push(entry.extension_lower.clone());
        assert(views(all@) =~= (a + b).push(entry.extension_lower@));
    }
    distinct(all.as_slice())
}

/// The words of a pattern by which paths are looked for.
pub fn query_anchor_terms(pattern: &str) -> (r: Vec<String>)
    ensures
        are_distinct(terms(pattern@, 3), views(r@)),
{
    let found = find_terms(pattern, MIN_INDEX_TERM_LEN);
    distinct(found.as_slice())
}

/// The positions, below `n`, of the paths that are found by the word.
pub open spec fn holders(history: Seq<PathEntry>, term: Seq<char>, n: int) -> Seq<usize>
    decreases n,
{
    if n <= 0 {
        Seq::empty()
    } else {
        let before = holders(history, term, n - 1);
        if has_term(history[n - 1], term) {
            before.push((n - 1) as usize)
        } else {
            before
        }
    }
}

/// The key of a path: upper and lower case are the same.
pub open spec fn key_of(e: PathEntry) -> Seq<char> {
    ascii_lower(e.relative)
}

/// No later path has the same key.
pub open spec fn is_live(history: Seq<PathEntry>, i: int) -> bool {
    forall|j: int| i < j < history.len() ==> key_of(#[trigger] history[j]) != key_of(history[i])
}

/// The paths of a workspace, in the order in which they were put in. A path that
/// was put in again is not live: it stays where it was, and is passed over.
pub struct PathIndex {
    pub entries: Vec<PathIndexEntry>,
    pub live: Vec<bool>,
    pub path_lookup: SortedMap<usize>,
    pub term_postings: SortedMap<Vec<usize>>,
}

impl View for PathIndex {
    type V = Seq<PathEntry>;

    open spec fn view(&self) -> Seq<PathEntry> {
        entry_views(self.entries@)
    }
}

/// The lower-case forms that are kept of a path are those of the path.
pub open spec fn entry_wf(e: PathIndexEntry) -> bool {
    &&& e.relative_path_lower@ == ascii_lower(e.relative_path@)
    &&& e.file_name_lower@ == ascii_lower(last_name(e.relative_path@))
}

/// The lists of positions are those of the paths that each word finds.
pub open spec fn postings_fit(
    postings: Map<Seq<char>, Vec<usize>>,
    history: Seq<PathEntry>,
) -> bool {
    &&& forall|t: Seq<char>| #[trigger]
        postings.contains_key(t) <==> holders(history, t, history.len() as int).len() > 0
    &&& forall|t: Seq<char>| #[trigger]
        postings.contains_key(t) ==> postings[t]@ == holders(history, t, history.len() as int)
}

/// The position kept for a key is that of the last path that has it.
pub open spec fn lookup_fits(lookup: Map<Seq<char>, usize>, history: Seq<PathEntry>) -> bool {
    &&& forall|k: Seq<char>| #[trigger]
        lookup.contains_key(k) ==> lookup[k] < history.len() && key_of(history[lookup[k] as int])
            == k && is_live(history, lookup[k] as int)
    &&& forall|i: int|
        0 <= i < history.len() ==> lookup.contains_key(key_of(#[trigger] history[i]))
}

/// A position is among the holders of a word exactly where its path has it.
proof fn lemma_holders(history: Seq<PathEntry>, term: Seq<char>, n: int)
    requires
        0 <= n <= history.len() <= usize::MAX,
    ensures
        forall|i: int| #![trigger holders(history, term, n)[i]]
            0 <= i < holders(history, term, n).len() ==> holders(history, term, n)[i] < n
                && has_term(history[holders(history, term, n)[i] as int], term),
        forall|i: int, j: int| #![trigger holders(history, term, n)[i], holders(history, term, n)[j]]
            0 <= i < j < holders(history, term, n).len() ==> holders(history, term, n)[i]
                < holders(history, term, n)[j],
        forall|p: int|
            0 <= p < n && has_term(#[trigger] history[p], term) ==> exists|i: int|
                0 <= i < holders(history, term, n).len() && holders(history, term, n)[i] == p,
    decreases n,
{
    if n > 0 {
        lemma_holders(history, term, n - 1);
        let before = holders(history, term, n - 1);
        let all = holders(history, term, n);
        assert forall|p: int| 0 <= p < n && has_term(#[trigger] history[p], term) implies exists|
            i: int,
        |
            0 <= i < all.len() && all[i] == p by {
            if p < n - 1 {
                let i = choose|i: int| 0 <= i < before.len() && before[i] == p;
                assert(all[i] == p);
            } else {
                assert(all[all.len() - 1] == p);
            }
        }
        assert forall|i: int| 0 <= i < all.len() implies all[i] < n && has_term(
            history[#[trigger] all[i] as int],
            term,
        ) by {
            if i < before.len() {
                assert(all[i] == before[i]);
            }
        }
        assert forall|i: int, j: int| 0 <= i < j < all.len() implies #[trigger] all[i]
            < #[trigger] all[j] by {
            assert(all[i] == before[i]);
            if j < before.len() {
                assert(all[j] == before[j]);
            }
        }
    }
}

/// What is put in behind does not change who holds a word before.
proof fn lemma_holders_push(history: Seq<PathEntry>, e: PathEntry, term: Seq<char>, n: int)
    requires
        0 <= n <= history.len(),
    ensures
        holders(history.push(e), term, n) == holders(history, term, n),
    decreases n,
{
    if n > 0 {
        lemma_holders_push(history, e, term, n - 1);
        assert(history.push(e)[n - 1] == history[n - 1]);
    }
}

/// The path lies at or below `root`, a path in lower case; everything lies below
/// none.
pub open spec fn under(relative_lower: Seq<char>, root: Option<Seq<char>>) -> bool {
    match root {
        None => true,
        Some(root) => root.len() == 0 || relative_lower == root || starts_with(
            relative_lower,
            root + "/"@,
        ),
    }
}

/// Whether a path lies at or below `root`.
pub fn relative_root_matches(relative_path_lower: &str, root: &Option<String>) -> (r: bool)
    ensures
        r == under(relative_path_lower@, opt_view(*root)),
{
    match root {
        None => true,
        Some(root) => {
            if root.as_str().is_empty() || str_eq(relative_path_lower, root.as_str()) {
                return true;
            }
            let mut head = root.clone();
            head.append("/");
            str_starts_with(relative_path_lower, head.as_str())
        },
    }
}

/// A root in lower case.
pub open spec fn root_lower(root: Option<Seq<char>>) -> Option<Seq<char>> {
    match root {
        Some(root) => Some(ascii_lower(root)),
        None => None,
    }
}

/// A root in lower case.
fn lower_root(root: &Option<String>) -> (r: Option<String>)
    ensures
        opt_view(r) == root_lower(opt_view(*root)),
{
    match root {
        Some(root) => Some(str_ascii_lower(root.as_str())),
        None => None,
    }
}

/// The path at the position is live, lies below the root, and is found by every
/// one of the words.
pub open spec fn is_offered(
    history: Seq<PathEntry>,
    anchors: Seq<Seq<char>>,
    root: Option<Seq<char>>,
    i: int,
) -> bool {
    &&& is_live(history, i)
    &&& under(key_of(history[i]), root_lower(root))
    &&& forall|t: int| 0 <= t < anchors.len() ==> has_term(history[i], #[trigger] anchors[t])
}

/// What the index offers of a path.
pub open spec fn offer_of(e: PathEntry) -> Offer {
    Offer { path: e.absolute, is_dir: e.is_dir, size: e.size, modified_at: e.modified_at }
}

/// The paths that are offered, of those below position `n`.
pub open spec fn offered(
    history: Seq<PathEntry>,
    anchors: Seq<Seq<char>>,
    root: Option<Seq<char>>,
    n: int,
) -> Seq<Offer>
    decreases n,
{
    if n <= 0 {
        Seq::empty()
    } else {
        let before = offered(history, anchors, root, n - 1);
        if is_offered(history, anchors, root, n - 1) {
            before.push(offer_of(history[n - 1]))
        } else {
            before
        }
    }
}

/// The first `limit` of the items.
pub open spec fn first_items<T>(items: Seq<T>, limit: int) -> Seq<T> {
    if items.len() <= limit {
        items
    } else {
        items.take(limit)
    }
}

/// How many paths are offered at most.
pub open spec fn offer_limit(limit: usize) -> int {
    if limit < MAX_SHORTLIST_CANDIDATES {
        limit as int
    } else {
        MAX_SHORTLIST_CANDIDATES as int
    }
}

/// What the index offers for some words: nothing can be said without words, nor
/// where one of them finds no path.
pub open spec fn shortlist(
    history: Seq<PathEntry>,
    anchors: Seq<Seq<char>>,
    root: Option<Seq<char>>,
    limit: usize,
) -> Option<Seq<Offer>> {
    if anchors.len() == 0 || exists|t: int|
        0 <= t < anchors.len() && holders(
            history,
            #[trigger] anchors[t],
            history.len() as int,
        ).len() == 0 {
        None
    } else {
        Some(
            first_items(
                offered(history, anchors, root, history.len() as int),
                offer_limit(limit),
            ),
        )
    }
}

/// Between two positions nothing is offered where none of the paths there is.
proof fn lemma_offered_gap(
    history: Seq<PathEntry>,
    anchors: Seq<Seq<char>>,
    root: Option<Seq<char>>,
    from: int,
    to: int,
)
    requires
        0 <= from <= to,
        forall|i: int| from <= i < to ==> !#[trigger] is_offered(history, anchors, root, i),
    ensures
        offered(history, anchors, root, to) == offered(history, anchors, root, from),
    decreases to,
{
    if from < to {
        assert(!is_offered(history, anchors, root, to - 1));
        lemma_offered_gap(history, anchors, root, from, to - 1);
    }
}

/// Fewer positions offer the first of what more offer.
proof fn lemma_offered_prefix(
    history: Seq<PathEntry>,
    anchors: Seq<Seq<char>>,
    root: Option<Seq<char>>,
    from: int,
    to: int,
)
    requires
        0 <= from <= to,
    ensures
        offered(history, anchors, root, from).is_prefix_of(offered(history, anchors, root, to)),
    decreases to,
{
    if from < to {
        lemma_offered_prefix(history, anchors, root, from, to - 1);
    }
}

/// What the index holds of a path.
pub open spec fn record_of(e: PathEntry) -> PathRecord {
    PathRecord {
        path: e.absolute,
        relative: e.relative,
        name: last_name(e.relative),
        extension: e.extension,
        is_dir: e.is_dir,
        size: e.size,
        modified_at: e.modified_at,
    }
}

/// What the index holds of the live paths below a root, of those below position
/// `n`.
pub open spec fn records(history: Seq<PathEntry>, root: Option<Seq<char>>, n: int) -> Seq<
    PathRecord,
>
    decreases n,
{
    if n <= 0 {
        Seq::empty()
    } else {
        let before = records(history, root, n - 1);
        if is_live(history, n - 1) && under(key_of(history[n - 1]), root_lower(root)) {
            before.push(record_of(history[n - 1]))
        } else {
            before
        }
    }
}

/// The path of the index for one that is kept on disk.
pub open spec fn entry_of(workspace_root: Seq<char>, e: IndexedPathEntry) -> PathEntry {
    PathEntry {
        absolute: joined(workspace_root, e.relative_path@),
        relative: e.relative_path@,
        extension: e.extension_lower@,
        is_dir: e.is_dir,
        size: e.size,
        modified_at: e.modified_at,
    }
}

/// The paths of the index for those that are kept on disk.
pub open spec fn entries_of(workspace_root: Seq<char>, entries: Seq<IndexedPathEntry>) -> Seq<
    PathEntry,
> {
    Seq::new(entries.len(), |i: int| entry_of(workspace_root, entries[i]))
}

/// What the index holds of a path comes from a live path below the root.
proof fn lemma_record_source(history: Seq<PathEntry>, root: Option<Seq<char>>, n: int, i: int) -> (p:
    int)
    requires
        0 <= n <= history.len(),
        0 <= i < records(history, root, n).len(),
    ensures
        0 <= p < n,
        is_live(history, p),
        under(key_of(history[p]), root_lower(root)),
        records(history, root, n)[i] == record_of(history[p]),
    decreases n,
{
    let before = records(history, root, n - 1);
    if i < before.len() {
        lemma_record_source(history, root, n - 1, i)
    } else {
        n - 1
    }
}

/// The index lists no path twice: upper and lower case are the same.
pub proof fn law_records_distinct(history: Seq<PathEntry>, root: Option<Seq<char>>, n: int)
    requires
        0 <= n <= history.len(),
    ensures
        forall|i: int, j: int|
            0 <= i < j < records(history, root, n).len() ==> ascii_lower(
                (#[trigger] records(history, root, n)[i]).relative,
            ) != ascii_lower((#[trigger] records(history, root, n)[j]).relative),
    decreases n,
{
    if n > 0 {
        law_records_distinct(history, root, n - 1);
        let before = records(history, root, n - 1);
        let all = records(history, root, n);
        assert forall|i: int, j: int| 0 <= i < j < all.len() implies ascii_lower(
            (#[trigger] all[i]).relative,
        ) != ascii_lower((#[trigger] all[j]).relative) by {
            assert(all[i] == before[i]);
            if j < before.len() {
                assert(all[j] == before[j]);
            } else {
                let p = lemma_record_source(history, root, n - 1, i);
                assert(key_of(history[n - 1]) != key_of(history[p]));
            }
        }
    }
}

/// What is offered at a position is among all that is offered.
proof fn lemma_offered_at(
    history: Seq<PathEntry>,
    anchors: Seq<Seq<char>>,
    root: Option<Seq<char>>,
    p: int,
    n: int,
)
    requires
        0 <= p < n,
        is_offered(history, anchors, root, p),
    ensures
        offered(history, anchors, root, n).contains(offer_of(history[p])),
    decreases n,
{
    let all = offered(history, anchors, root, n);
    if p == n - 1 {
        assert(all[all.len() - 1] == offer_of(history[p]));
    } else {
        lemma_offered_at(history, anchors, root, p, n - 1);
        let before = offered(history, anchors, root, n - 1);
        let k = choose|k: int| 0 <= k < before.len() && before[k] == offer_of(history[p]);
        assert(all[k] == offer_of(history[p]));
    }
}

/// No more is offered than there are paths.
proof fn lemma_offered_len(
    history: Seq<PathEntry>,
    anchors: Seq<Seq<char>>,
    root: Option<Seq<char>>,
    n: int,
)
    requires
        0 <= n,
    ensures
        offered(history, anchors, root, n).len() <= n,
    decreases n,
{
    if n > 0 {
        lemma_offered_len(history, anchors, root, n - 1);
    }
}

/// A live path is offered for words that it has, where as many are asked for as
/// there are paths.
pub proof fn law_path_found(
    history: Seq<PathEntry>,
    anchors: Seq<Seq<char>>,
    root: Option<Seq<char>>,
    limit: usize,
    p: int,
)
    requires
        0 <= p < history.len(),
        history.len() <= offer_limit(limit),
        anchors.len() > 0,
        is_offered(history, anchors, root, p),
    ensures
        shortlist(history, anchors, root, limit) is Some,
        shortlist(history, anchors, root, limit)->0.contains(offer_of(history[p])),
{
    let n = history.len() as int;
    assert forall|t: int| 0 <= t < anchors.len() implies holders(
        history,
        #[trigger] anchors[t],
        n,
    ).len() > 0 by {
        lemma_holders(history, anchors[t], n);
        assert(has_term(history[p], anchors[t]));
    }
    lemma_offered_at(history, anchors, root, p, n);
    lemma_offered_len(history, anchors, root, n);
}

/// What is offered is a path of the index that has every one of the words.
pub proof fn law_offers_match(
    history: Seq<PathEntry>,
    anchors: Seq<Seq<char>>,
    root: Option<Seq<char>>,
    n: int,
    i: int,
) -> (p: int)
    requires
        0 <= n <= history.len(),
        0 <= i < offered(history, anchors, root, n).len(),
    ensures
        0 <= p < n,
        is_offered(history, anchors, root, p),
        offered(history, anchors, root, n)[i] == offer_of(history[p]),
    decreases n,
{
    let before = offered(history, anchors, root, n - 1);
    if i < before.len() {
        law_offers_match(history, anchors, root, n - 1, i)
    } else {
        n - 1
    }
}

/// The entry is the last that was noted under its path, no matter the case.
pub open spec fn is_latest(history: Seq<PathEntry>, p: int) -> bool {
    forall|j: int|
        p < j < history.len() ==> ascii_lower((#[trigger] history[j]).relative) != ascii_lower(
            history[p].relative,
        )
}

/// The entry lies at the root or below it, no matter the case.
pub open spec fn lies_under(e: PathEntry, root: Option<Seq<char>>) -> bool {
    root matches Some(given) ==> given.len() == 0 || ascii_lower(e.relative) == ascii_lower(given)
        || exists|rest: Seq<char>|
        ascii_lower(e.relative) == #[trigger] (ascii_lower(given) + seq!['/'] + rest)
}

/// The record tells of the entry.
pub open spec fn tells_path(r: PathRecord, e: PathEntry) -> bool {
    r.path == e.absolute && r.relative == e.relative && r.extension == e.extension && r.is_dir
        == e.is_dir && r.size == e.size && r.modified_at == e.modified_at && r.name == split(
        e.relative,
        '/',
    ).last()
}

/// What lies under a root is the root and what begins with it and a slash.
pub proof fn law_under(e: PathEntry, root: Option<Seq<char>>)
    ensures
        under(key_of(e), root_lower(root)) == lies_under(e, root),
{
    reveal_strlit("/");
    assert("/"@ =~= seq!['/']);
    if let Some(given) = root {
        let low = ascii_lower(given);
        let key = ascii_lower(e.relative);
        let head = low + "/"@;
        if starts_with(key, head) {
            let rest = key.skip(head.len() as int);
            assert(key =~= low + seq!['/'] + rest);
        }
        if exists|rest: Seq<char>| key == #[trigger] (low + seq!['/'] + rest) {
            let rest = choose|rest: Seq<char>| key == #[trigger] (low + seq!['/'] + rest);
            assert(key.subrange(0, head.len() as int) =~= head);
        }
        assert(low.len() == given.len());
    }
}

/// The record tells of one of the first `n` entries, the last under its path, which lies
/// under the root.
pub open spec fn is_told(
    r: PathRecord,
    history: Seq<PathEntry>,
    root: Option<Seq<char>>,
    n: int,
) -> bool {
    exists|p: int|
        0 <= p < n && #[trigger] is_latest(history, p) && lies_under(history[p], root)
            && tells_path(r, history[p])
}

/// The records under a root tell of the entries that were noted last under their paths and
/// lie there, and of nothing else.
pub open spec fn records_tell(
    list: Seq<PathRecord>,
    history: Seq<PathEntry>,
    root: Option<Seq<char>>,
    n: int,
) -> bool {
    &&& forall|i: int| 0 <= i < list.len() ==> is_told(#[trigger] list[i], history, root, n)
    &&& forall|p: int|
        0 <= p < n && #[trigger] is_latest(history, p) && lies_under(history[p], root)
            ==> exists|i: int| 0 <= i < list.len() && tells_path(#[trigger] list[i], history[p])
}

/// The records under a root are those of the entries there, no more and no fewer.
pub proof fn law_records_tell(history: Seq<PathEntry>, root: Option<Seq<char>>, n: int)
    requires
        0 <= n <= history.len(),
    ensures
        records_tell(records(history, root, n), history, root, n),
    decreases n,
{
    if n > 0 {
        law_records_tell(history, root, n - 1);
        law_under(history[n - 1], root);
        let before = records(history, root, n - 1);
        let list = records(history, root, n);
        assert(is_live(history, n - 1) == is_latest(history, n - 1)) by {
            if is_latest(history, n - 1) {
                assert forall|j: int| n - 1 < j < history.len() implies key_of(
                    #[trigger] history[j],
                ) != key_of(history[n - 1]) by {}
            }
            if is_live(history, n - 1) {
                assert forall|j: int| n - 1 < j < history.len() implies ascii_lower(
                    (#[trigger] history[j]).relative,
                ) != ascii_lower(history[n - 1].relative) by {
                    assert(key_of(history[j]) != key_of(history[n - 1]));
                }
            }
        }
        assert forall|i: int| 0 <= i < list.len() implies is_told(
            #[trigger] list[i],
            history,
            root,
            n,
        ) by {
            if i < before.len() {
                assert(list[i] == before[i]);
                let p = choose|p: int|
                    0 <= p < n - 1 && #[trigger] is_latest(history, p) && lies_under(
                        history[p],
                        root,
                    ) && tells_path(before[i], history[p]);
                assert(is_latest(history, p));
            } else {
                assert(is_latest(history, n - 1));
                assert(tells_path(list[i], history[n - 1]));
            }
        }
        assert forall|p: int|
            0 <= p < n && #[trigger] is_latest(history, p) && lies_under(history[p], root)
            implies exists|i: int|
            0 <= i < list.len() && tells_path(#[trigger] list[i], history[p]) by {
            if p == n - 1 {
                assert(tells_path(list[before.len() as int], history[p]));
            } else {
                let i = choose|i: int|
                    0 <= i < before.len() && tells_path(#[trigger] before[i], history[p]);
                assert(list[i] == before[i]);
            }
        }
    }
}

/// The entry answers a query: it is the last under its path, it lies under the root, and
/// it has every one of the terms.
pub open spec fn answers_query(
    history: Seq<PathEntry>,
    anchors: Seq<Seq<char>>,
    root: Option<Seq<char>>,
    p: int,
) -> bool {
    &&& is_latest(history, p)
    &&& lies_under(history[p], root)
    &&& forall|t: int|
        0 <= t < anchors.len() ==> path_terms(history[p]).contains(#[trigger] anchors[t])
}

/// What is offered answers the query.
pub proof fn law_offered_answers(
    history: Seq<PathEntry>,
    anchors: Seq<Seq<char>>,
    root: Option<Seq<char>>,
    p: int,
)
    requires
        0 <= p < history.len(),
    ensures
        is_offered(history, anchors, root, p) == answers_query(history, anchors, root, p),
{
    law_under(history[p], root);
    if is_offered(history, anchors, root, p) {
        assert forall|j: int| p < j < history.len() implies ascii_lower(
            (#[trigger] history[j]).relative,
        ) != ascii_lower(history[p].relative) by {
            assert(key_of(history[j]) != key_of(history[p]));
        }
        assert forall|t: int| 0 <= t < anchors.len() implies path_terms(history[p]).contains(
            #[trigger] anchors[t],
        ) by {
            assert(has_term(history[p], anchors[t]));
        }
    }
    if answers_query(history, anchors, root, p) {
        assert forall|j: int| p < j < history.len() implies key_of(#[trigger] history[j])
            != key_of(history[p]) by {}
        assert forall|t: int| 0 <= t < anchors.len() implies has_term(
            history[p],
            #[trigger] anchors[t],
        ) by {}
    }
}

/// The path is that of an entry which answers the query.
pub open spec fn is_answer(
    offer: Offer,
    history: Seq<PathEntry>,
    anchors: Seq<Seq<char>>,
    root: Option<Seq<char>>,
) -> bool {
    exists|p: int|
        0 <= p < history.len() && #[trigger] answers_query(history, anchors, root, p) && offer.path
            == history[p].absolute && offer.is_dir == history[p].is_dir && offer.size
            == history[p].size && offer.modified_at == history[p].modified_at
}

/// Every path on the shortlist is that of an entry which answers the query.
pub proof fn law_shortlist_answers(
    history: Seq<PathEntry>,
    anchors: Seq<Seq<char>>,
    root: Option<Seq<char>>,
    limit: usize,
    i: int,
)
    requires
        shortlist(history, anchors, root, limit) is Some,
        0 <= i < shortlist(history, anchors, root, limit)->0.len(),
    ensures
        is_answer(shortlist(history, anchors, root, limit)->0[i], history, anchors, root),
        shortlist(history, anchors, root, limit)->0.len() <= limit,
{
    let p = law_offers_match(history, anchors, root, history.len() as int, i);
    law_offered_answers(history, anchors, root, p);
    assert(answers_query(history, anchors, root, p));
}

/// Whether a position is in a list of positions in ascending order.
fn holds_position(list: &[usize], p: usize) -> (r: bool)
    requires
        forall|i: int, j: int| 0 <= i < j < list@.len() ==> list@[i] < list@[j],
    ensures
        r == list@.contains(p),
{
    let mut low: usize = 0;
    let mut high: usize = list.len();
    while low < high
        invariant
            low <= high <= list@.len(),
            forall|i: int, j: int| 0 <= i < j < list@.len() ==> list@[i] < list@[j],
            forall|i: int| 0 <= i < low ==> list@[i] < p,
            forall|i: int| high <= i < list@.len() ==> p < list@[i],
        decreases high - low,
    {
        let mid: usize = low + (high - low) / 2;
        if list[mid] == p {
            assert(list@[mid as int] == p);
            return true;
        }
        if list[mid] < p {
            low = mid + 1;
        } else {
            high = mid;
        }
    }
    false
}

impl PathIndex {
    /// What is kept beside the paths fits them.
    pub open spec fn wf(&self) -> bool {
        &&& self.live@.len() == self.entries@.len()
        &&& self.path_lookup.wf()
        &&& self.term_postings.wf()
        &&& forall|i: int| 0 <= i < self.entries@.len() ==> entry_wf(#[trigger] self.entries@[i])
        &&& forall|i: int|
            0 <= i < self.entries@.len() ==> #[trigger] self.live@[i] == is_live(self@, i)
        &&& lookup_fits(self.path_lookup@, self@)
        &&& postings_fit(self.term_postings@, self@)
    }

    /// An index without paths.
    pub fn new() -> (r: Self)
        ensures
            r.wf(),
            r@ == Seq::<PathEntry>::empty(),
    {
        let out = PathIndex {
            entries: Vec::new(),
            live: Vec::new(),
            path_lookup: SortedMap::new(),
            term_postings: SortedMap::new(),
        };
        assert(out@ =~= Seq::<PathEntry>::empty());
        out
    }

    /// How many paths were put in.
    pub fn live_entries(&self) -> (r: usize)
        ensures
            r == self@.len(),
    {
        self.entries.len()
    }

    /// Marks the path with the same key, where there is one, as not live, and
    /// keeps the position of the one that is put in.
    fn replace_key(&mut self, key: &str)
        requires
            old(self).path_lookup.wf(),
            old(self).live@.len() == old(self).entries@.len(),
            lookup_fits(old(self).path_lookup@, old(self)@),
        ensures
            final(self).entries@ == old(self).entries@,
            final(self).term_postings == old(self).term_postings,
            final(self).live@.len() == old(self).live@.len(),
            final(self).path_lookup.wf(),
            final(self).path_lookup@ == old(self).path_lookup@.insert(
                key@,
                old(self).entries@.len() as usize,
            ),
            forall|i: int|
                0 <= i < old(self).live@.len() ==> #[trigger] final(self).live@[i] == (old(self).live@[i] && !(old(self).path_lookup@.contains_key(key@) && old(self).path_lookup@[key@] == i)),
    {
        let n: usize = self.entries.len();
        assert(self@.len() == n);
        match self.path_lookup.find(key) {
            Some(k) => {
                let at: usize = self.path_lookup.values[k];
                self.live[at] = false;
                self.path_lookup.set(k, n);
            },
            None => {
                self.path_lookup.insert(key, n);
            },
        }
    }

    /// Notes that a word finds the path at position `n`.
    fn post(&mut self, term: &str, n: usize)
        requires
            old(self).term_postings.wf(),
        ensures
            final(self).entries@ == old(self).entries@,
            final(self).live@ == old(self).live@,
            final(self).path_lookup == old(self).path_lookup,
            final(self).term_postings.wf(),
            forall|t: Seq<char>| #[trigger]
                final(self).term_postings@.contains_key(t) <==> (old(self).term_postings@.contains_key(t) || t == term@),
            forall|t: Seq<char>|
                t != term@ && old(self).term_postings@.contains_key(t) ==> #[trigger] final(self).term_postings@[t] == old(self).term_postings@[t],
            final(self).term_postings@[term@]@ == (if old(self).term_postings@.contains_key(term@) {
                old(self).term_postings@[term@]@.push(n)
            } else {
                seq![n]
            }),
    {
        self.term_postings.push_to(term, n);
    }

    /// Puts a path in; one with the same key is no longer live.
    pub fn insert_persisted_entry(&mut self, workspace_root: &str, entry: &IndexedPathEntry)
        requires
            old(self).wf(),
            old(self)@.len() < usize::MAX,
        ensures
            final(self).wf(),
            final(self)@ == old(self)@.push(entry_of(workspace_root@, *entry)),
    {
        let ghost history = self@;
        let ghost e = entry_of(workspace_root@, *entry);
        let ghost grown = history.push(e);
        let key = str_ascii_lower(entry.relative_path.as_str());
        let name = own_name(entry.relative_path.as_str());
        let added = PathIndexEntry {
            absolute_path: join_path(workspace_root, entry.relative_path.as_str()),
            relative_path: entry.relative_path.clone(),
            relative_path_lower: str_ascii_lower(entry.relative_path.as_str()),
            file_name_lower: str_ascii_lower(name.as_str()),
            extension_lower: entry.extension_lower.clone(),
            is_dir: entry.is_dir,
            size: entry.size,
            modified_at: entry.modified_at,
        };
        assert(added@ == e);
        let n: usize = self.entries.len();
        assert(history.len() == n);
        self.replace_key(key.as_str());
        let words = index_terms(&added);
        let ghost found = views(words@);
        let ghost posted = old(self).term_postings@;
        let ghost marks = self.live@;
        let ghost kept = self.path_lookup;
        assert(self.term_postings@ == posted);
        for i in 0..words.len()
            invariant
                found == views(words@),
                ascending(found),
                self.term_postings.wf(),
                self.entries@ == old(self).entries@,
                self.live@ == marks,
                self.path_lookup == kept,
                forall|t: Seq<char>| #[trigger]
                    self.term_postings@.contains_key(t) <==> (posted.contains_key(t)
                        || found.take(i as int).contains(t)),
                forall|t: Seq<char>| #[trigger]
                    self.term_postings@.contains_key(t) ==> self.term_postings@[t]@ == ((
                    if posted.contains_key(t) {
                        posted[t]@
                    } else {
                        Seq::<usize>::empty()
                    }) + (if found.take(i as int).contains(t) {
                        seq![n]
                    } else {
                        Seq::<usize>::empty()
                    })),
        {
            let ghost before = self.term_postings@;
            let ghost term = found[i as int];
            assert(term == words@[i as int]@);
            proof {
                assert(!found.take(i as int).contains(term)) by {
                    if found.take(i as int).contains(term) {
                        let k = choose|k: int|
                            0 <= k < i && #[trigger] found.take(i as int)[k] == term;
                        assert(crate::order::precedes(found[k], found[i as int]));
                        lemma_precedes_total(found[k], found[i as int]);
                    }
                }
                assert forall|t: Seq<char>| #[trigger]
                    found.take(i + 1).contains(t) <==> (found.take(i as int).contains(t) || t
                        == term) by {
                    let now = found.take(i + 1);
                    let past = found.take(i as int);
                    if past.contains(t) {
                        let k = choose|k: int| 0 <= k < past.len() && past[k] == t;
                        assert(now[k] == t);
                    }
                    if t == term {
                        assert(now[i as int] == t);
                    }
                    if now.contains(t) {
                        let k = choose|k: int| 0 <= k < now.len() && now[k] == t;
                        if k < i {
                            assert(past[k] == t);
                        }
                    }
                }
            }
            self.post(words[i].as_str(), n);
            assert forall|t: Seq<char>| #[trigger]
                self.term_postings@.contains_key(t) implies self.term_postings@[t]@ == ((
            if posted.contains_key(t) {
                posted[t]@
            } else {
                Seq::<usize>::empty()
            }) + (if found.take(i + 1).contains(t) {
                seq![n]
            } else {
                Seq::<usize>::empty()
            })) by {
                if t == term {
                    if before.contains_key(t) {
                        assert(before[t]@ =~= posted[t]@);
                        assert(self.term_postings@[t]@ =~= posted[t]@ + seq![n]);
                    } else {
                        assert(self.term_postings@[t]@ =~= Seq::<usize>::empty() + seq![n]);
                    }
                } else {
                    assert(before.contains_key(t));
                }
            }
        }
        assert(found.take(found.len() as int) =~= found);
        assert(found.len() == words@.len());
        let ghost entries = self.entries@;
        self.entries.push(added);
        self.live.push(true);
        assert(self@ =~= grown);
        proof {
            assert forall|t: Seq<char>| #[trigger]
                holders(grown, t, grown.len() as int) == holders(history, t, n as int) + (
            if found.contains(t) {
                seq![n]
            } else {
                Seq::<usize>::empty()
            }) by {
                lemma_holders_push(history, e, t, n as int);
                assert(grown[n as int] == e);
                assert(found.contains(t) == path_terms(e).contains(t));
                assert(holders(grown, t, grown.len() as int) =~= holders(history, t, n as int) + (
                if found.contains(t) {
                    seq![n]
                } else {
                    Seq::<usize>::empty()
                }));
            }
            assert(postings_fit(self.term_postings@, grown)) by {
                assert forall|t: Seq<char>| #[trigger]
                    self.term_postings@.contains_key(t) <==> holders(
                    grown,
                    t,
                    grown.len() as int,
                ).len() > 0 by {
                    let now = holders(grown, t, grown.len() as int);
                    assert(posted.contains_key(t) <==> holders(history, t, n as int).len() > 0);
                }
                assert forall|t: Seq<char>| #[trigger]
                    self.term_postings@.contains_key(t) implies self.term_postings@[t]@ == holders(
                    grown,
                    t,
                    grown.len() as int,
                ) by {
                    let now = holders(grown, t, grown.len() as int);
                    if !posted.contains_key(t) {
                        assert(holders(history, t, n as int) =~= Seq::<usize>::empty());
                    }
                }
            }
            let before = old(self).path_lookup@;
            assert forall|i: int| 0 <= i < n implies #[trigger] is_live(grown, i) == (is_live(
                history,
                i,
            ) && key_of(history[i]) != key_of(e)) by {
                assert(grown[i] == history[i]);
                assert(grown[n as int] == e);
                if is_live(history, i) && key_of(history[i]) != key_of(e) {
                    assert forall|j: int| i < j < grown.len() implies key_of(#[trigger] grown[j])
                        != key_of(grown[i]) by {
                        if j < n {
                            assert(grown[j] == history[j]);
                        }
                    }
                }
                if is_live(grown, i) {
                    assert(key_of(grown[n as int]) != key_of(grown[i]));
                    assert forall|j: int| i < j < history.len() implies key_of(
                        #[trigger] history[j],
                    ) != key_of(history[i]) by {
                        assert(grown[j] == history[j]);
                    }
                }
            }
            assert(is_live(grown, n as int));
            assert forall|i: int| 0 <= i < n implies (before.contains_key(key@) && before[key@] == i)
                == (is_live(history, i) && key_of(#[trigger] history[i]) == key_of(e)) by {
                if is_live(history, i) && key_of(history[i]) == key_of(e) {
                    let k = before[key@] as int;
                    assert(before.contains_key(key_of(history[i])));
                    assert(key_of(history[k]) == key@);
                    assert(is_live(history, k));
                    if k < i {
                        assert(key_of(history[i]) != key_of(history[k]));
                    }
                    if i < k {
                        assert(key_of(history[k]) != key_of(history[i]));
                    }
                }
            }
            assert forall|i: int| 0 <= i < self.entries@.len() implies #[trigger] self.live@[i]
                == is_live(grown, i) by {
                if i < n {
                    assert(old(self).live@[i] == is_live(history, i));
                    assert(marks[i] == self.live@[i]);
                    assert(key_of(history[i]) == key_of(e) || key_of(history[i]) != key_of(e));
                }
            }
            assert forall|i: int| 0 <= i < self.entries@.len() implies entry_wf(
                #[trigger] self.entries@[i],
            ) by {
                if i < n {
                    assert(self.entries@[i] == entries[i]);
                }
            }
            assert(lookup_fits(self.path_lookup@, grown)) by {
                let now = self.path_lookup@;
                assert forall|k: Seq<char>| #[trigger] now.contains_key(k) implies now[k]
                    < grown.len() && key_of(grown[now[k] as int]) == k && is_live(
                    grown,
                    now[k] as int,
                ) by {
                    if k != key@ {
                        assert(before.contains_key(k));
                        assert(grown[now[k] as int] == history[now[k] as int]);
                    } else {
                        assert(grown[n as int] == e);
                    }
                }
                assert forall|i: int| 0 <= i < grown.len() implies now.contains_key(
                    key_of(#[trigger] grown[i]),
                ) by {
                    if i < n {
                        assert(grown[i] == history[i]);
                    }
                }
            }
        }
    }

    /// The index of the paths that are kept on disk.
    pub fn from_entries(workspace_root: &str, entries: &[IndexedPathEntry]) -> (r: Self)
        ensures
            r.wf(),
            r@ == entries_of(workspace_root@, entries@),
    {
        let mut index = PathIndex::new();
        assert(entries_of(workspace_root@, entries@.take(0)) =~= Seq::<PathEntry>::empty());
        for i in 0..entries.len()
            invariant
                index.wf(),
                index@ == entries_of(workspace_root@, entries@.take(i as int)),
        {
            index.insert_persisted_entry(workspace_root, &entries[i]);
            assert(index@ =~= entries_of(workspace_root@, entries@.take(i + 1)));
        }
        assert(entries@.take(entries@.len() as int) =~= entries@);
        index
    }

    /// Whether the path at position `p` is found by every one of the words from
    /// the second on.
    fn found_by_others(&self, anchors: &[String], p: usize) -> (r: bool)
        requires
            self.wf(),
            p < self@.len(),
            forall|t: int|
                0 <= t < anchors@.len() ==> self.term_postings@.contains_key(
                    (#[trigger] anchors@[t])@,
                ),
        ensures
            r == forall|t: int|
                1 <= t < anchors@.len() ==> has_term(self@[p as int], #[trigger] views(anchors@)[t]),
    {
        assert(self@.len() == self.entries@.len());
        let total: usize = self.entries.len();
        let ghost all = views(anchors@);
        let mut t: usize = 1;
        while t < anchors.len()
            invariant
                self.wf(),
                p < self@.len(),
                self@.len() == total,
                all == views(anchors@),
                1 <= t,
                forall|k: int|
                    0 <= k < anchors@.len() ==> self.term_postings@.contains_key(
                        (#[trigger] anchors@[k])@,
                    ),
                forall|k: int| 1 <= k < t ==> has_term(self@[p as int], #[trigger] all[k]),
            decreases anchors@.len() - t,
        {
            assert(all[t as int] == anchors@[t as int]@);
            match self.term_postings.get(anchors[t].as_str()) {
                Some(list) => {
                    proof {
                        lemma_holders(self@, all[t as int], self@.len() as int);
                    }
                    if !holds_position(list.as_slice(), p) {
                        assert(!has_term(self@[p as int], all[t as int])) by {
                            if has_term(self@[p as int], all[t as int]) {
                                let held = holders(self@, all[t as int], self@.len() as int);
                                let i = choose|i: int| 0 <= i < held.len() && held[i] == p;
                                assert(list@[i] == p);
                            }
                        }
                        return false;
                    }
                },
                None => {
                    return false;
                },
            }
            t += 1;
        }
        true
    }

    /// Offers the live paths below a root that are found by every one of the
    /// words, as many as are asked for, in the order in which they were put in.
    pub fn shortlist_candidates(
        &self,
        anchor_terms: &[String],
        relative_root: &Option<String>,
        limit: usize,
    ) -> (r: Option<Vec<PathQueryCandidate>>)
        requires
            self.wf(),
        ensures
            (match r {
                Some(list) => Some(offers(list@)),
                None => None,
            }) == shortlist(self@, views(anchor_terms@), opt_view(*relative_root), limit),
            r matches Some(list) ==> forall|i: int|
                0 <= i < list@.len() ==> is_answer(
                    (#[trigger] list@[i])@,
                    self@,
                    views(anchor_terms@),
                    opt_view(*relative_root),
                ),
    {
        let ghost all = views(anchor_terms@);
        let ghost history = self@;
        let ghost root = opt_view(*relative_root);
        assert(all.len() == anchor_terms@.len());
        let total: usize = self.entries.len();
        assert(history.len() == total);
        if anchor_terms.len() == 0 {
            return None;
        }
        for t in 0..anchor_terms.len()
            invariant
                self.wf(),
                history == self@,
                all == views(anchor_terms@),
                forall|k: int|
                    0 <= k < t ==> self.term_postings@.contains_key((#[trigger] anchor_terms@[k])@),
        {
            if self.term_postings.find(anchor_terms[t].as_str()).is_none() {
                assert(all[t as int] == anchor_terms@[t as int]@);
                assert(holders(history, all[t as int], history.len() as int).len() == 0);
                return None;
            }
        }
        assert forall|t: int| 0 <= t < all.len() implies holders(
            history,
            #[trigger] all[t],
            history.len() as int,
        ).len() > 0 by {
            assert(self.term_postings@.contains_key(anchor_terms@[t]@));
        }
        let most: usize = if limit < MAX_SHORTLIST_CANDIDATES {
            limit
        } else {
            MAX_SHORTLIST_CANDIDATES
        };
        let root_low = lower_root(relative_root);
        let mut out: Vec<PathQueryCandidate> = Vec::new();
        assert(offers(out@) =~= Seq::<Offer>::empty());
        let ghost wanted = offered(history, all, root, history.len() as int);
        assert(all[0] == anchor_terms@[0]@);
        match self.term_postings.get(anchor_terms[0].as_str()) {
            None => None,
            Some(list) => {
                let ghost first = holders(history, all[0], history.len() as int);
                proof {
                    lemma_holders(history, all[0], history.len() as int);
                }
                let ghost mut reached: int = 0;
                let mut k: usize = 0;
                while k < list.len() && out.len() < most
                    invariant
                        self.wf(),
                        history == self@,
                        history.len() == total,
                        all == views(anchor_terms@),
                        all.len() == anchor_terms@.len(),
                        all.len() > 0,
                        root == opt_view(*relative_root),
                        opt_view(root_low) == root_lower(root),
                        first == list@,
                        first == holders(history, all[0], history.len() as int),
                        forall|i: int| #![trigger first[i]]
                            0 <= i < first.len() ==> first[i] < history.len() && has_term(
                                history[first[i] as int],
                                all[0],
                            ),
                        forall|i: int, j: int| #![trigger first[i], first[j]]
                            0 <= i < j < first.len() ==> first[i] < first[j],
                        forall|p: int|
                            0 <= p < history.len() && has_term(#[trigger] history[p], all[0])
                                ==> exists|i: int| 0 <= i < first.len() && first[i] == p,
                        forall|t: int|
                            0 <= t < anchor_terms@.len() ==> self.term_postings@.contains_key(
                                (#[trigger] anchor_terms@[t])@,
                            ),
                        k <= list@.len(),
                        0 <= reached <= history.len(),
                        out@.len() <= most,
                        offers(out@) == offered(history, all, root, reached),
                        forall|i: int| 0 <= i < k ==> first[i] < reached,
                        forall|i: int| k <= i < first.len() ==> reached <= first[i],
                    decreases list@.len() - k,
                {
                    let p: usize = list[k];
                    let ghost before = offers(out@);
                    proof {
                        assert(first[k as int] == p);
                        assert forall|i: int| reached <= i < p implies !#[trigger] is_offered(
                            history,
                            all,
                            root,
                            i,
                        ) by {
                            if is_offered(history, all, root, i) {
                                assert(has_term(history[i], all[0]));
                                let j = choose|j: int| 0 <= j < first.len() && first[j] == i;
                                if j < k {
                                    assert(first[j] < reached);
                                } else if j > k {
                                    assert(first[k as int] < first[j]);
                                }
                            }
                        }
                        lemma_offered_gap(history, all, root, reached, p as int);
                    }
                    let entry = &self.entries[p];
                    assert(entry@ == history[p as int]);
                    assert(entry_wf(self.entries@[p as int]));
                    assert(self.live@[p as int] == is_live(history, p as int));
                    if self.live[p] && relative_root_matches(
                        entry.relative_path_lower.as_str(),
                        &root_low,
                    ) && self.found_by_others(anchor_terms, p) {
                        assert forall|t: int| 0 <= t < all.len() implies has_term(
                            history[p as int],
                            #[trigger] all[t],
                        ) by {
                            if t == 0 {
                                assert(has_term(history[first[k as int] as int], all[0]));
                            }
                        }
                        assert(is_offered(history, all, root, p as int));
                        out.push(
                            PathQueryCandidate {
                                path: entry.absolute_path.clone(),
                                is_dir: entry.is_dir,
                                size: entry.size,
                                modified_at: entry.modified_at,
                            },
                        );
                        assert(offers(out@) =~= before.push(offer_of(history[p as int])));
                    } else {
                        assert(!is_offered(history, all, root, p as int));
                    }
                    proof {
                        reached = p + 1;
                        assert forall|i: int| k + 1 <= i < first.len() implies reached
                            <= first[i] by {
                            assert(first[k as int] < first[i]);
                        }
                    }
                    k += 1;
                }
                proof {
                    if k == list@.len() {
                        assert forall|i: int| reached <= i < history.len() implies !#[trigger] is_offered(
                            history,
                            all,
                            root,
                            i,
                        ) by {
                            if is_offered(history, all, root, i) {
                                assert(has_term(history[i], all[0]));
                                let j = choose|j: int| 0 <= j < first.len() && first[j] == i;
                                assert(first[j] < reached);
                            }
                        }
                        lemma_offered_gap(history, all, root, reached, history.len() as int);
                    } else {
                        lemma_offered_prefix(history, all, root, reached, history.len() as int);
                        assert(offers(out@).len() == most);
                        assert(wanted.take(most as int) =~= offers(out@));
                    }
                    assert(offers(out@).len() == out@.len());
                    assert(first_items(wanted, offer_limit(limit)) =~= offers(out@));
                    assert forall|i: int| 0 <= i < out@.len() implies is_answer(
                        (#[trigger] out@[i])@,
                        history,
                        all,
                        root,
                    ) by {
                        law_shortlist_answers(history, all, root, limit, i);
                        assert(offers(out@)[i] == out@[i]@);
                    }
                }
                Some(out)
            },
        }
    }

    /// All that the index holds of the live paths below a root, in the order in
    /// which they were put in.
    pub fn records_under(&self, relative_root: &Option<String>) -> (r: Vec<IndexedPathRecord>)
        requires
            self.wf(),
        ensures
            record_views(r@) == records(self@, opt_view(*relative_root), self@.len() as int),
            records_tell(
                record_views(r@),
                self@,
                opt_view(*relative_root),
                self@.len() as int,
            ),
    {
        proof {
            law_records_tell(self@, opt_view(*relative_root), self@.len() as int);
        }
        let root_low = lower_root(relative_root);
        let ghost root = opt_view(*relative_root);
        let ghost history = self@;
        let mut out: Vec<IndexedPathRecord> = Vec::new();
        assert(record_views(out@) =~= Seq::<PathRecord>::empty());
        assert(history.len() == self.entries@.len());
        for i in 0..self.entries.len()
            invariant
                self.wf(),
                history == self@,
                history.len() == self.entries@.len(),
                opt_view(root_low) == root_lower(root),
                record_views(out@) == records(history, root, i as int),
        {
            let entry = &self.entries[i];
            assert(entry_wf(self.entries@[i as int]));
            assert(self.live@[i as int] == is_live(history, i as int));
            assert(entry@ == history[i as int]);
            if self.live[i] && relative_root_matches(
                entry.relative_path_lower.as_str(),
                &root_low,
            ) {
                let ghost before = record_views(out@);
                out.push(
                    IndexedPathRecord {
                        path: entry.absolute_path.clone(),
                        relative_path: entry.relative_path.clone(),
                        file_name: own_name(entry.relative_path.as_str()),
                        extension_lower: entry.extension_lower.clone(),
                        is_dir: entry.is_dir,
                        size: entry.size,
                        modified_at: entry.modified_at,
                    },
                );
                assert(record_views(out@) =~= before.push(record_of(history[i as int])));
            }
        }
        out
    }
}

} // verus!
