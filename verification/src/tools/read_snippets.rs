//! Reading ranges of several files within one limit.

use vstd::prelude::*;

use crate::encoding::decoded;
use crate::text::{byte_len, ends_with, opt_view};
use crate::tools::compare_directories::capped_sum;
use crate::tools::read_file::{
    check_read, execute_sync, kept, law_bytes_within_limit, lemma_answers, range_end, range_start,
    read_outcome, read_refusal, rendered_lines, text_lines, Excerpt, ReadRequest, ReadResponse,
};

verus! {

/// One range that is asked for, with the file it is read from: `failure` says
/// what went wrong while the file was read.
pub struct SnippetRequest {
    pub path: Option<String>,
    pub is_file: bool,
    pub len: u64,
    pub bytes: Vec<u8>,
    pub failure: Option<String>,
    pub request: ReadRequest,
}

/// What came of a range: it was read, could not be read, or was left out because
/// the limit was reached. `limited` says that the common limit was the narrower
/// one.
pub enum SnippetResult {
    Read { response: ReadResponse, limited: bool },
    Failed(String),
    Skipped,
}

/// What came of a range.
pub enum Snippet {
    Read { excerpt: Excerpt, limited: bool },
    Failed(Seq<char>),
    Skipped,
}

impl View for SnippetResult {
    type V = Snippet;

    open spec fn view(&self) -> Snippet {
        match self {
            SnippetResult::Read { response, limited } => Snippet::Read {
                excerpt: response@,
                limited: *limited,
            },
            SnippetResult::Failed(words) => Snippet::Failed(words@),
            SnippetResult::Skipped => Snippet::Skipped,
        }
    }
}

/// What came of the ranges.
pub open spec fn snippet_views(items: Seq<SnippetResult>) -> Seq<Snippet> {
    Seq::new(items.len(), |i: int| items[i]@)
}

/// How many bytes are left; none where there is nothing left.
pub open spec fn budget(max_total_bytes: Option<usize>, used: nat) -> Option<int> {
    match max_total_bytes {
        Some(limit) => if used >= limit {
            None
        } else {
            Some(limit - used)
        },
        None => Some(usize::MAX as int),
    }
}

/// How many bytes are left.
pub fn remaining_budget(max_total_bytes: Option<usize>, used_bytes: usize) -> (r: Option<usize>)
    ensures
        (match r {
            Some(n) => Some(n as int),
            None => None,
        }) == budget(max_total_bytes, used_bytes as nat),
{
    match max_total_bytes {
        Some(limit) => if used_bytes >= limit {
            None
        } else {
            Some(limit - used_bytes)
        },
        None => Some(usize::MAX),
    }
}

/// The request with no more bytes than are left, and whether that is fewer than
/// it asks for.
pub open spec fn limited_request(
    request: ReadRequest,
    max_total_bytes: Option<usize>,
    remaining: int,
) -> (ReadRequest, bool) {
    if max_total_bytes is None {
        (request, false)
    } else {
        let most = match request.max_bytes {
            Some(n) => if n < remaining {
                n as int
            } else {
                remaining
            },
            None => remaining,
        };
        (
            ReadRequest { max_bytes: Some(most as usize), ..request },
            match request.max_bytes {
                Some(n) => most < n,
                None => true,
            },
        )
    }
}

/// The request with no more bytes than are left.
pub fn apply_batch_byte_limit(
    request: &ReadRequest,
    max_total_bytes: Option<usize>,
    remaining_budget: usize,
) -> (r: (ReadRequest, bool))
    ensures
        r == limited_request(*request, max_total_bytes, remaining_budget as int),
        r.0.start_line == request.start_line && r.0.end_line == request.end_line
            && r.0.max_lines == request.max_lines && r.0.include_line_numbers
            == request.include_line_numbers,
        max_total_bytes is None ==> r.0.max_bytes == request.max_bytes && !r.1,
        max_total_bytes is Some ==> (r.0.max_bytes matches Some(n) && n <= remaining_budget && (
        request.max_bytes matches Some(own) ==> n <= own) && (n == remaining_budget
            || request.max_bytes == Some(n)) && r.1 == (request.max_bytes != Some(n))),
{
    let mut effective = ReadRequest {
        start_line: request.start_line,
        end_line: request.end_line,
        max_lines: request.max_lines,
        max_bytes: request.max_bytes,
        include_line_numbers: request.include_line_numbers,
    };
    if max_total_bytes.is_none() {
        return (effective, false);
    }
    let most: usize = match request.max_bytes {
        Some(n) => if n < remaining_budget {
            n
        } else {
            remaining_budget
        },
        None => remaining_budget,
    };
    effective.max_bytes = Some(most);
    let narrower = match request.max_bytes {
        Some(n) => most < n,
        None => true,
    };
    (effective, narrower)
}

/// What comes of reading a range: what is wrong with the request stands before
/// what went wrong while the file was read.
pub open spec fn snippet_outcome(r: SnippetRequest, request: ReadRequest) -> Result<
    Excerpt,
    Seq<char>,
> {
    if read_refusal(opt_view(r.path), r.is_file, r.len, request) is None && r.failure is Some {
        Err(r.failure->0@)
    } else {
        read_outcome(opt_view(r.path), r.is_file, r.len, r.bytes@, request)
    }
}

/// What comes of the next range, and the bytes that are used then.
pub open spec fn snippet_next(
    r: SnippetRequest,
    max_total_bytes: Option<usize>,
    used: nat,
) -> (Snippet, nat) {
    match budget(max_total_bytes, used) {
        None => (Snippet::Skipped, used),
        Some(remaining) => {
            let (request, limited) = limited_request(r.request, max_total_bytes, remaining);
            match snippet_outcome(r, request) {
                Err(words) => (Snippet::Failed(words), used),
                Ok(excerpt) => if limited && excerpt.returned == 0 && excerpt.truncated {
                    (Snippet::Skipped, used)
                } else {
                    (
                        Snippet::Read { excerpt, limited },
                        capped_sum(used, byte_len(excerpt.content)),
                    )
                },
            }
        },
    }
}

/// What came of the first `n` ranges, and the bytes that were used.
pub open spec fn snippets(
    requests: Seq<SnippetRequest>,
    max_total_bytes: Option<usize>,
    n: int,
) -> (Seq<Snippet>, nat)
    decreases n,
{
    if n <= 0 {
        (Seq::empty(), 0)
    } else {
        let before = snippets(requests, max_total_bytes, n - 1);
        let next = snippet_next(requests[n - 1], max_total_bytes, before.1);
        (before.0.push(next.0), next.1)
    }
}

/// More can be read of the range: it was left out, or cut.
pub open spec fn has_rest(s: Snippet) -> bool {
    match s {
        Snippet::Skipped => true,
        Snippet::Failed(_) => false,
        Snippet::Read { excerpt, .. } => excerpt.truncated && excerpt.next is Some,
    }
}

/// How many of the ranges have the property.
pub open spec fn tally_of(items: Seq<Snippet>, wanted: spec_fn(Snippet) -> bool) -> nat
    decreases items.len(),
{
    if items.len() == 0 {
        0
    } else {
        tally_of(items.drop_last(), wanted) + if wanted(items.last()) {
            1nat
        } else {
            0nat
        }
    }
}

/// What came of all ranges.
pub struct SnippetBatch {
    pub results: Vec<SnippetResult>,
    pub completed_requests: usize,
    pub errored_requests: usize,
    pub skipped_requests: usize,
    pub truncated_results: usize,
    pub has_more: bool,
    pub total_content_bytes: usize,
}

/// Where to go on reading a range that was cut.
pub struct Continuation {
    pub next_start_line: usize,
    pub remaining_lines: usize,
}

/// Where to go on reading a range that was cut.
pub fn build_truncation_continuation(result: &SnippetResult) -> (r: Option<Continuation>)
    ensures
        r is Some == (result@ is Read && has_rest(result@)),
        r matches Some(c) ==> (result@ matches Snippet::Read { excerpt, .. } && excerpt.next
            == Some(c.next_start_line) && c.remaining_lines == excerpt.omitted),
{
    match result {
        SnippetResult::Read { response, limited: _ } => {
            if !response.limited.truncated {
                return None;
            }
            match response.limited.next_start_line {
                Some(next_start_line) => Some(
                    Continuation {
                        next_start_line,
                        remaining_lines: response.limited.omitted_lines,
                    },
                ),
                None => None,
            }
        },
        _ => None,
    }
}

/// Why there is more to read of a range.
pub open spec fn rest_words(s: Snippet) -> Option<Seq<char>> {
    match s {
        Snippet::Skipped => Some("batch_total_byte_limit_reached"@),
        _ => if has_rest(s) {
            Some("snippet_truncated"@)
        } else {
            None
        },
    }
}

/// Why there is more to read of a range: it was left out, or cut.
pub fn rest_reason(result: &SnippetResult) -> (r: Option<&'static str>)
    ensures
        (match r {
            Some(s) => Some(s@),
            None => None,
        }) == rest_words(result@),
{
    match result {
        SnippetResult::Skipped => Some("batch_total_byte_limit_reached"),
        _ => if build_truncation_continuation(result).is_some() {
            Some("snippet_truncated")
        } else {
            None
        },
    }
}

/// Reads one range.
fn execute_single_request(r: &SnippetRequest, request: &ReadRequest) -> (out: Result<
    ReadResponse,
    String,
>)
    ensures
        (match out {
            Ok(response) => Ok(response@),
            Err(words) => Err(words@),
        }) == snippet_outcome(*r, *request),
{
    if let Err(e) = check_read(&r.path, r.is_file, r.len, request) {
        return Err(e.message());
    }
    if let Some(failure) = &r.failure {
        return Err(failure.clone());
    }
    match execute_sync(&r.path, r.is_file, r.len, r.bytes.as_slice(), request) {
        Ok(response) => {
            proof {
                lemma_answers(response, decoded(r.bytes@).0, *request);
            }
            Ok(response)
        },
        Err(e) => Err(e.message()),
    }
}

/// Reads the ranges in turn, as far as the common limit allows.
pub fn read_snippets(requests: &[SnippetRequest], max_total_bytes: Option<usize>) -> (r:
    SnippetBatch)
    ensures
        ({
            let (all, used) = snippets(requests@, max_total_bytes, requests@.len() as int);
            &&& snippet_views(r.results@) == all
            &&& r.total_content_bytes == used
            &&& r.completed_requests == tally_of(all, |s: Snippet| s is Read)
            &&& r.errored_requests == tally_of(all, |s: Snippet| s is Failed)
            &&& r.skipped_requests == tally_of(all, |s: Snippet| s is Skipped)
            &&& r.truncated_results == tally_of(all, |s: Snippet| s is Read && has_rest(s))
            &&& r.has_more == (tally_of(all, |s: Snippet| has_rest(s)) > 0)
        }),
        r.results@.len() == requests@.len(),
        r.completed_requests + r.errored_requests + r.skipped_requests == requests@.len(),
        max_total_bytes matches Some(limit) ==> r.total_content_bytes <= limit,
        max_total_bytes is None ==> forall|i: int|
            0 <= i < r.results@.len() ==> (#[trigger] r.results@[i])@ == match snippet_outcome(
                requests@[i],
                requests@[i].request,
            ) {
                Ok(excerpt) => Snippet::Read { excerpt, limited: false },
                Err(words) => Snippet::Failed(words),
            },
{
    let mut results: Vec<SnippetResult> = Vec::new();
    let mut used: usize = 0;
    let mut completed: usize = 0;
    let mut errored: usize = 0;
    let mut skipped: usize = 0;
    let mut cut: usize = 0;
    let mut has_more = false;
    assert(snippet_views(results@) =~= Seq::<Snippet>::empty());
    for i in 0..requests.len()
        invariant
            snippets(requests@, max_total_bytes, i as int) == (
                snippet_views(results@),
                used as nat,
            ),
            results@.len() == i,
            completed <= i,
            errored <= i,
            skipped <= i,
            cut <= i,
            completed == tally_of(snippet_views(results@), |s: Snippet| s is Read),
            errored == tally_of(snippet_views(results@), |s: Snippet| s is Failed),
            skipped == tally_of(snippet_views(results@), |s: Snippet| s is Skipped),
            cut == tally_of(
                snippet_views(results@),
                |s: Snippet| s is Read && has_rest(s),
            ),
            has_more == (tally_of(snippet_views(results@), |s: Snippet| has_rest(s)) > 0),
    {
        let r = &requests[i];
        let ghost before = snippet_views(results@);
        let mut result = SnippetResult::Skipped;
        if let Some(remaining) = remaining_budget(max_total_bytes, used) {
            let (request, limited) = apply_batch_byte_limit(
                &r.request,
                max_total_bytes,
                remaining,
            );
            match execute_single_request(r, &request) {
                Err(words) => {
                    result = SnippetResult::Failed(words);
                },
                Ok(response) => {
                    if !(limited && response.limited.returned_lines == 0
                        && response.limited.truncated) {
                        let size: usize = response.limited.content.as_str().as_bytes().len();
                        used = used.saturating_add(size);
                        result = SnippetResult::Read { response, limited };
                    }
                },
            }
        }
        let rest = build_truncation_continuation(&result).is_some();
        match &result {
            SnippetResult::Read { .. } => {
                completed = completed + 1;
                if rest {
                    cut = cut + 1;
                    has_more = true;
                }
            },
            SnippetResult::Failed(_) => {
                errored = errored + 1;
            },
            SnippetResult::Skipped => {
                skipped = skipped + 1;
                has_more = true;
            },
        }
        let ghost item = result@;
        results.push(result);
        assert(snippet_views(results@) =~= before.push(item));
        assert(before.push(item).drop_last() =~= before);
    }
    assert(snippet_views(results@).len() == results@.len());
    proof {
        law_snippets_tallied(snippet_views(results@));
        if let Some(limit) = max_total_bytes {
            law_snippets_within_limit(requests@, limit, requests@.len() as int);
        } else {
            assert forall|i: int| 0 <= i < results@.len() implies (#[trigger] results@[i])@
                == match snippet_outcome(requests@[i], requests@[i].request) {
                Ok(excerpt) => Snippet::Read { excerpt, limited: false },
                Err(words) => Snippet::Failed(words),
            } by {
                law_snippets_unlimited(requests@, requests@.len() as int, i);
                assert(snippet_views(results@)[i] == results@[i]@);
            }
        }
    }
    SnippetBatch {
        results,
        completed_requests: completed,
        errored_requests: errored,
        skipped_requests: skipped,
        truncated_results: cut,
        has_more,
        total_content_bytes: used,
    }
}

/// What is returned of a range is within the limit on the bytes that it was read
/// with.
proof fn lemma_outcome_within_limit(r: SnippetRequest, request: ReadRequest, most: usize)
    requires
        request.max_bytes == Some(most),
        most < usize::MAX,
    ensures
        snippet_outcome(r, request) matches Ok(excerpt) ==> byte_len(excerpt.content) <= most,
{
    let content = decoded(r.bytes@).0;
    let lines = text_lines(content);
    let start = range_start(request.first(), lines.len());
    let end = range_end(request.last(), lines.len());
    let selected = lines.subrange(start, end);
    let all = rendered_lines(selected, (start + 1) as nat, request.numbered());
    let n = kept(all, request.max_lines, request.max_bytes);
    law_bytes_within_limit(
        all,
        ends_with(content, "\n"@) && end == lines.len() && n == selected.len() && n > 0,
        request.max_lines,
        most,
    );
}

/// What is returned of a range is within the limit on the bytes that the range
/// asks for.
pub proof fn law_snippet_within_own_limit(
    r: SnippetRequest,
    max_total_bytes: Option<usize>,
    used: nat,
    most: usize,
)
    requires
        r.request.max_bytes == Some(most),
        most < usize::MAX,
    ensures
        snippet_next(r, max_total_bytes, used).0 matches Snippet::Read { excerpt, .. } ==> byte_len(
            excerpt.content,
        ) <= most,
{
    if let Some(remaining) = budget(max_total_bytes, used) {
        let (request, _limited) = limited_request(r.request, max_total_bytes, remaining);
        lemma_outcome_within_limit(r, request, request.max_bytes->0);
    }
}

/// The bytes that are used never go beyond the limit.
pub proof fn law_snippets_within_limit(requests: Seq<SnippetRequest>, limit: usize, n: int)
    requires
        0 <= n <= requests.len(),
    ensures
        snippets(requests, Some(limit), n).1 <= limit,
    decreases n,
{
    if n > 0 {
        law_snippets_within_limit(requests, limit, n - 1);
        let used = snippets(requests, Some(limit), n - 1).1;
        let r = requests[n - 1];
        if used < limit && limit < usize::MAX {
            let remaining = limit - used;
            let (request, _limited) = limited_request(r.request, Some(limit), remaining);
            lemma_outcome_within_limit(r, request, request.max_bytes->0);
        }
    }
}

/// Every range that is asked for is answered, in the order of the requests.
pub proof fn law_snippets_complete(
    requests: Seq<SnippetRequest>,
    max_total_bytes: Option<usize>,
    n: int,
)
    requires
        0 <= n <= requests.len(),
    ensures
        snippets(requests, max_total_bytes, n).0.len() == n,
    decreases n,
{
    if n > 0 {
        law_snippets_complete(requests, max_total_bytes, n - 1);
    }
}

/// Where there is no limit on all of them, each snippet is what its request asks for, read
/// by itself.
pub proof fn law_snippets_unlimited(requests: Seq<SnippetRequest>, n: int, i: int)
    requires
        0 <= i < n <= requests.len(),
    ensures
        snippets(requests, None, n).0.len() == n,
        snippets(requests, None, n).0[i] == match snippet_outcome(
            requests[i],
            requests[i].request,
        ) {
            Ok(excerpt) => Snippet::Read { excerpt, limited: false },
            Err(words) => Snippet::Failed(words),
        },
    decreases n,
{
    law_snippets_complete(requests, None, n - 1);
    if i < n - 1 {
        law_snippets_unlimited(requests, n - 1, i);
    }
}

/// Every snippet is read, failed or skipped.
pub proof fn law_snippets_tallied(items: Seq<Snippet>)
    ensures
        tally_of(items, |s: Snippet| s is Read) + tally_of(items, |s: Snippet| s is Failed)
            + tally_of(items, |s: Snippet| s is Skipped) == items.len(),
    decreases items.len(),
{
    if items.len() > 0 {
        law_snippets_tallied(items.drop_last());
    }
}

} // verus!
