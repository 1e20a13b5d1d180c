//! Bookkeeping of a backup's ingest of changed files, as each worker's
//! outcomes come back.

use vstd::prelude::*;

use crate::ops::BackupProgress;

verus! {

/// Files across all worker groups.
pub open spec fn group_files(groups: Seq<Vec<usize>>) -> nat
    decreases groups.len(),
{
    if groups.len() == 0 {
        0
    } else {
        group_files(groups.drop_last()) + groups.last()@.len()
    }
}

/// Where an ingest stands.
#[derive(Debug, Clone, Copy, PartialEq, Eq)]
pub struct IngestTally {
    pub files_done: usize,
    pub files_total: usize,
    pub chunks_done: usize,
    pub new_blobs: usize,
}

/// An ingest of the files of `groups`, before any outcome arrived.
pub fn ingest_start(groups: &Vec<Vec<usize>>) -> (r: Option<IngestTally>)
    ensures
        match r {
            Some(t) => group_files(groups@) <= usize::MAX && t == (IngestTally {
                files_done: 0,
                files_total: group_files(groups@) as usize,
                chunks_done: 0,
                new_blobs: 0,
            }),
            None => group_files(groups@) > usize::MAX,
        },
{
    let mut total: usize = 0;
    let mut i: usize = 0;
    while i < groups.len()
        invariant
            i <= groups@.len(),
            total == group_files(groups@.take(i as int)),
        decreases groups@.len() - i,
    {
        assert(groups@.take(i + 1).drop_last() =~= groups@.take(i as int));
        let n = groups[i].len();
        if usize::MAX - total < n {
            proof {
                lemma_group_files_prefix(groups@, i + 1);
            }
            return None;
        }
        total = total + n;
        i = i + 1;
    }
    assert(groups@.take(groups@.len() as int) =~= groups@);
    Some(IngestTally { files_done: 0, files_total: total, chunks_done: 0, new_blobs: 0 })
}

/// A prefix of the groups holds no more files than all of them.
proof fn lemma_group_files_prefix(groups: Seq<Vec<usize>>, n: int)
    requires
        0 <= n <= groups.len(),
    ensures
        group_files(groups.take(n)) <= group_files(groups),
    decreases groups.len() - n,
{
    if n < groups.len() {
        lemma_group_files_prefix(groups, n + 1);
        assert(groups.take(n + 1).drop_last() =~= groups.take(n));
    } else {
        assert(groups.take(n) =~= groups);
    }
}

/// One file's outcome arrived: `chunks` ingested, `new_blobs` stored.
pub open spec fn ingest_step_spec(t: IngestTally, chunks: usize, new_blobs: usize) -> (
    IngestTally,
    BackupProgress,
) {
    let n = IngestTally {
        files_done: (t.files_done + 1) as usize,
        files_total: t.files_total,
        chunks_done: (t.chunks_done + chunks) as usize,
        new_blobs: (t.new_blobs + new_blobs) as usize,
    };
    (n, BackupProgress {
        files_done: n.files_done,
        files_total: n.files_total,
        chunks_done: n.chunks_done,
    })
}

/// Counts one file's outcome and gives the progress report to publish.
pub fn ingest_step(t: &IngestTally, chunks: usize, new_blobs: usize) -> (r: (
    IngestTally,
    BackupProgress,
))
    requires
        t.files_done < usize::MAX,
        t.chunks_done + chunks <= usize::MAX,
        t.new_blobs + new_blobs <= usize::MAX,
    ensures
        r == ingest_step_spec(*t, chunks, new_blobs),
{
    let n = IngestTally {
        files_done: t.files_done + 1,
        files_total: t.files_total,
        chunks_done: t.chunks_done + chunks,
        new_blobs: t.new_blobs + new_blobs,
    };
    (n, BackupProgress { files_done: n.files_done, files_total: n.files_total, chunks_done: n.chunks_done })
}

} // verus!
