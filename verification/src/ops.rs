//! Options, progress reports and timings of the store operations (backup,
//! status, diff, export, gc, prune, rollback), and the split of ingest work
//! across workers.

use vstd::prelude::*;

use core::time::Duration;

use crate::restore::MissingBlobPolicy;

verus! {

/// Backup behavior knobs.
#[derive(Debug, Clone, Default)]
pub struct BackupOptions {
    /// Ingest worker count. `0` means one per CPU, `1` stays sequential.
    pub concurrency: usize,
    /// Derive volatile diff views alongside blobs.
    pub with_diff: bool,
    /// Tag names ignored by diff views. `None` selects the default set.
    pub ignore_tags: Option<Vec<String>>,
}

/// Preview behavior knobs.
#[derive(Debug, Clone, Copy, Default)]
pub struct StatusOptions {
    /// Ingest worker count. `0` means one per CPU, `1` stays sequential.
    pub concurrency: usize,
}

/// Per-phase timings of a status preview.
#[derive(Debug, Clone, Copy, Default)]
pub struct StatusTimings {
    pub total: Duration,
    pub discover: Duration,
    pub fingerprint: Duration,
    pub universe_load: Duration,
    pub region_open: Duration,
    pub ingest: Duration,
    pub hash: Duration,
}

/// Per-file progress report of a backup.
#[derive(Debug, Clone, Copy, PartialEq, Eq)]
pub struct BackupProgress {
    pub files_done: usize,
    pub files_total: usize,
    pub chunks_done: usize,
}

/// Per-phase timings for chunk AST diffs.
#[derive(Debug, Clone, Copy, Default)]
pub struct DiffTimings {
    pub total: Duration,
    pub blob_fetch: Duration,
    pub decompress: Duration,
    pub diff_compute: Duration,
}

/// Per-chunk progress report of a diff.
#[derive(Debug, Clone, Copy)]
pub struct DiffProgress {
    pub chunks_done: usize,
    pub chunks_total: usize,
}

/// Export policy. `Default` aborts on missing blobs, as in rollback.
#[derive(Debug, Clone, Copy, PartialEq, Eq)]
pub struct ExportOptions {
    /// How to handle a snapshot blob missing from CAS.
    pub on_missing_blob: MissingBlobPolicy,
}

impl Default for ExportOptions {
    fn default() -> (r: Self)
        ensures
            r.on_missing_blob == MissingBlobPolicy::Abort,
    {
        ExportOptions { on_missing_blob: MissingBlobPolicy::Abort }
    }
}

/// Outcome of one export run.
#[derive(Debug, Clone, Copy, PartialEq, Eq)]
pub struct ExportReport {
    pub files_written: usize,
    pub chunks_restored: usize,
}

/// Per-phase timings for export execution.
#[derive(Debug, Clone, Copy, Default)]
pub struct ExportTimings {
    pub total: Duration,
    pub plan: Duration,
    pub export_files: Duration,
}

/// Per-file progress report of an export.
#[derive(Debug, Clone, Copy)]
pub struct ExportProgress {
    pub files_done: usize,
    pub files_total: usize,
    pub chunks_done: usize,
}

/// Per-phase timings for garbage collection.
#[derive(Debug, Clone, Copy, Default)]
pub struct GcTimings {
    pub total: Duration,
    pub plan: Duration,
    pub apply: Duration,
}

/// Per-phase timings for snapshot pruning.
#[derive(Debug, Clone, Copy, Default)]
pub struct PruneTimings {
    pub total: Duration,
    pub plan: Duration,
    pub apply: Duration,
}

/// Per-snapshot progress report of a prune.
#[derive(Debug, Clone, Copy)]
pub struct PruneProgress {
    pub snapshots_done: usize,
    pub snapshots_total: usize,
}

/// Per-phase timings for rollback execution.
#[derive(Debug, Clone, Copy, Default)]
pub struct RollbackTimings {
    pub total: Duration,
    pub plan: Duration,
    pub discover: Duration,
    pub rollback_files: Duration,
}

/// Per-file progress report of a rollback.
#[derive(Debug, Clone, Copy, PartialEq, Eq)]
pub struct RollbackProgress {
    pub files_done: usize,
    pub files_total: usize,
    pub chunks_done: usize,
}

/// Workers an ingest of `files` changed files uses: the configured count,
/// or `available` when it is `0`, never more than the files and never
/// fewer than one.
pub open spec fn worker_count_spec(concurrency: usize, available: usize, files: usize) -> int {
    let wanted = if concurrency == 0 {
        available
    } else {
        concurrency
    };
    let capped = if wanted < files {
        wanted
    } else {
        files
    };
    if capped < 1 {
        1
    } else {
        capped as int
    }
}

/// Number of ingest workers for `files` changed files.
pub fn worker_count(concurrency: usize, available: usize, files: usize) -> (r: usize)
    ensures
        r == worker_count_spec(concurrency, available, files),
{
    let wanted = if concurrency == 0 {
        available
    } else {
        concurrency
    };
    let capped = if wanted < files {
        wanted
    } else {
        files
    };
    if capped < 1 {
        1
    } else {
        capped
    }
}

} // verus!
