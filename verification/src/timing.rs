//! Backup phase timings and the choice of the regions that the timing
//! table lists as slowest.

use vstd::prelude::*;

use core::time::Duration;
use std::path::PathBuf;

verus! {

/// A path as the operating system spells it; carried through, never read.
#[verifier::external_type_specification]
#[verifier::external_body]
pub struct ExPathBuf(PathBuf);

/// Per-region timing slice of one backup run.
#[derive(Debug)]
pub struct RegionTiming {
    /// Region file path.
    pub path: PathBuf,
    /// File size in bytes.
    pub bytes: u64,
    /// Chunks ingested from the file.
    pub chunks: usize,
    /// File open time.
    pub open: Duration,
    /// Visit/hash/store time.
    pub ingest: Duration,
    /// Subset of `ingest` spent hashing.
    pub hash: Duration,
    /// Subset of `ingest` spent storing blobs.
    pub cas: Duration,
}

/// Per-phase timings of a backup. Informational only.
#[derive(Debug, Default)]
pub struct BackupTimings {
    pub total: Duration,
    pub discover: Duration,
    pub fingerprint: Duration,
    pub universe_load: Duration,
    pub region_open: Duration,
    pub ingest: Duration,
    pub hash: Duration,
    pub cas_put: Duration,
    pub db_apply: Duration,
    /// Fingerprint-matched regions carried over.
    pub skipped_regions: usize,
    /// History rows carried over.
    pub carried_chunks: usize,
    /// Per-region details for ingested files, in discovery order.
    pub regions: Vec<RegionTiming>,
}

/// Rows the timing table lists at most.
pub const SLOWEST_SHOWN: usize = 5;

/// Region `i` is listed before region `j`: it cost more, or as much and
/// came first.
pub open spec fn ranks_before(costs: Seq<u128>, i: int, j: int) -> bool {
    costs[i] > costs[j] || (costs[i] == costs[j] && i < j)
}

/// What a stable sort by descending cost, cut after `limit` rows, keeps:
/// `picked` lists distinct indices of `costs` in rank order, and every
/// index left out ranks after each one kept.
pub open spec fn is_slowest_first(costs: Seq<u128>, limit: nat, picked: Seq<usize>) -> bool {
    &&& picked.len() == (if limit < costs.len() { limit } else { costs.len() })
    &&& forall|k: int| 0 <= k < picked.len() ==> picked[k] < costs.len()
    &&& forall|a: int, b: int|
        0 <= a < b < picked.len() ==> ranks_before(costs, picked[a] as int, picked[b] as int)
    &&& forall|k: int, j: usize|
        0 <= k < picked.len() && j < costs.len() && !picked.contains(j) ==> ranks_before(
            costs,
            picked[k] as int,
            j as int,
        )
}

/// Indices of the `limit` costliest regions, costliest first; equal costs
/// keep their discovery order.
pub fn slowest_first(costs: &[u128], limit: usize) -> (picked: Vec<usize>)
    ensures
        is_slowest_first(costs@, limit as nat, picked@),
{
    let n = costs.len();
    let mut rest: Vec<usize> = Vec::new();
    let mut i: usize = 0;
    while i < n
        invariant
            i <= n,
            n == costs.len(),
            rest.len() == i,
            forall|q: int| 0 <= q < i ==> rest[q] == q,
        decreases n - i,
    {
        rest.push(i);
        i = i + 1;
    }
    let mut picked: Vec<usize> = Vec::new();
    proof {
        assert forall|j: usize| j < n implies rest@.contains(j) by {
            assert(rest@[j as int] == j);
        }
    }
    while picked.len() < limit && rest.len() > 0
        invariant
            n == costs.len(),
            picked.len() <= limit,
            rest.len() + picked.len() == n,
            forall|q: int| 0 <= q < rest.len() ==> rest[q] < n,
            forall|q: int, r: int| 0 <= q < r < rest.len() ==> rest[q] < rest[r],
            forall|k: int| 0 <= k < picked.len() ==> picked[k] < n,
            forall|j: usize| j < n ==> picked@.contains(j) || rest@.contains(j),
            forall|a: int, b: int|
                0 <= a < b < picked.len() ==> ranks_before(
                    costs@,
                    picked[a] as int,
                    picked[b] as int,
                ),
            forall|k: int, q: int|
                0 <= k < picked.len() && 0 <= q < rest.len() ==> ranks_before(
                    costs@,
                    picked[k] as int,
                    rest[q] as int,
                ),
        decreases rest.len(),
    {
        let mut best: usize = 0;
        let mut q: usize = 1;
        while q < rest.len()
            invariant
                n == costs.len(),
                0 < rest.len(),
                best < q <= rest.len(),
                forall|r: int| 0 <= r < rest.len() ==> rest[r] < n,
                forall|r: int, s: int| 0 <= r < s < rest.len() ==> rest[r] < rest[s],
                forall|r: int|
                    0 <= r < q && r != best ==> ranks_before(
                        costs@,
                        rest[best as int] as int,
                        rest[r] as int,
                    ),
            decreases rest.len() - q,
        {
            if costs[rest[q]] > costs[rest[best]] {
                best = q;
            }
            q = q + 1;
        }
        let ghost old_rest = rest@;
        let ghost old_picked = picked@;
        let chosen = rest.remove(best);
        picked.push(chosen);
        proof {
            assert forall|j: usize| j < n implies picked@.contains(j) || rest@.contains(j) by {
                if old_picked.contains(j) {
                    let k = choose|k: int| 0 <= k < old_picked.len() && old_picked[k] == j;
                    assert(picked@[k] == j);
                } else {
                    let r = choose|r: int| 0 <= r < old_rest.len() && old_rest[r] == j;
                    if r == best {
                        assert(picked@[picked.len() - 1] == j);
                    } else if r < best {
                        assert(rest@[r] == j);
                    } else {
                        assert(rest@[r - 1] == j);
                    }
                }
            }
            assert forall|k: int, s: int|
                0 <= k < picked.len() && 0 <= s < rest.len() implies ranks_before(
                costs@,
                picked[k] as int,
                rest[s] as int,
            ) by {
                let r = if s < best {
                    s
                } else {
                    s + 1
                };
                assert(rest[s] == old_rest[r]);
                if k < old_picked.len() {
                    assert(picked[k] == old_picked[k]);
                } else {
                    assert(r != best);
                }
            }
            assert forall|a: int, b: int| 0 <= a < b < picked.len() implies ranks_before(
                costs@,
                picked[a] as int,
                picked[b] as int,
            ) by {
                if b == old_picked.len() {
                    assert(old_rest[best as int] == chosen);
                }
            }
        }
    }
    proof {
        assert forall|k: int, j: usize|
            0 <= k < picked.len() && j < costs.len() && !picked@.contains(j) implies ranks_before(
            costs@,
            picked[k] as int,
            j as int,
        ) by {
            let q = choose|q: int| 0 <= q < rest.len() && rest[q] == j;
        }
    }
    picked
}

} // verus!
