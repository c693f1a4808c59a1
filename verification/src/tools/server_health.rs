//! How the server and its indexes stand.

use vstd::prelude::*;

use crate::indexer::runtime::IndexRuntimeSnapshot;
use crate::tools::compare_directories::capped_sum;

verus! {

/// How the server and its indexes stand.
pub struct HealthReport {
    pub uptime_seconds: u64,
    pub index_status: &'static str,
    pub indexed_entries_count: usize,
    pub index_workspace_count: usize,
}

/// The entries of the first `n` workspaces together.
pub open spec fn total_entries(runtimes: Seq<IndexRuntimeSnapshot>, n: int) -> nat
    decreases n,
{
    if n <= 0 {
        0
    } else {
        capped_sum(total_entries(runtimes, n - 1), runtimes[n - 1].indexed_entries_count as nat)
    }
}

/// How the indexes stand: there is none, one holds something, or they are empty.
pub open spec fn overall_status(workspaces: nat, entries: nat) -> Seq<char> {
    if workspaces == 0 {
        "disabled"@
    } else if entries > 0 {
        "active"@
    } else {
        "idle"@
    }
}

/// How the server and its indexes stand at `now`; it was started at `started`.
pub fn report_health(runtimes: &[IndexRuntimeSnapshot], started: u64, now: u64) -> (r: HealthReport)
    ensures
        r.uptime_seconds == (if now >= started {
            now - started
        } else {
            0
        }),
        r.indexed_entries_count == total_entries(runtimes@, runtimes@.len() as int),
        r.index_workspace_count == runtimes@.len(),
        r.index_status@ == overall_status(
            runtimes@.len(),
            total_entries(runtimes@, runtimes@.len() as int),
        ),
{
    let mut total: usize = 0;
    for i in 0..runtimes.len()
        invariant
            total == total_entries(runtimes@, i as int),
    {
        total = total.saturating_add(runtimes[i].indexed_entries_count);
    }
    let status: &'static str = if runtimes.len() == 0 {
        "disabled"
    } else if total > 0 {
        "active"
    } else {
        "idle"
    };
    HealthReport {
        uptime_seconds: now.saturating_sub(started),
        index_status: status,
        indexed_entries_count: total,
        index_workspace_count: runtimes.len(),
    }
}

/// The workspace that is told of first: the one that was asked for last, else the
/// first of all.
pub fn primary_runtime<'a>(
    active: &'a Option<IndexRuntimeSnapshot>,
    runtimes: &'a [IndexRuntimeSnapshot],
) -> (r: Option<&'a IndexRuntimeSnapshot>)
    ensures
        (match r {
            Some(s) => Some(*s),
            None => None,
        }) == (match *active {
            Some(s) => Some(s),
            None => if runtimes@.len() > 0 {
                Some(runtimes@[0])
            } else {
                None
            },
        }),
{
    match active {
        Some(s) => Some(s),
        None => if runtimes.len() > 0 {
            Some(&runtimes[0])
        } else {
            None
        },
    }
}

} // verus!
