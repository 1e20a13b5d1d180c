//! The per-region pass of a rollback as a state machine: the caller reads
//! and writes files and fetches blobs, and hands each outcome back as an
//! event; the machine decides the next action and keeps the report.

use vstd::prelude::*;

use std::collections::BTreeSet;
use vstd::std_specs::cmp::OrdSpec;
use vstd::std_specs::iter::IteratorSpec;

use crate::ops::RollbackProgress;
use crate::restore::{
    region_action, region_action_spec, MissingBlobPolicy, RegionAction, RollbackOptions,
};

verus! {

/// What a rollback did.
#[derive(Debug, Clone, Copy, PartialEq, Eq)]
pub struct RollbackReport {
    /// Region files rebuilt and swapped in.
    pub files_written: usize,
    /// Region files deleted.
    pub files_deleted: usize,
    /// Chunks staged from snapshot blobs.
    pub chunks_restored: usize,
}

/// Where a rollback pass stands.
#[derive(Debug, Clone, Copy, PartialEq, Eq)]
pub struct RollbackState {
    pub report: RollbackReport,
    /// Regions finished so far.
    pub files_done: usize,
    /// Regions the pass walks (the union of discovered and snapshot keys).
    pub files_total: usize,
}

/// What the caller observed.
#[derive(Debug, Clone, Copy, PartialEq, Eq)]
pub enum RollbackEvent {
    /// The next region, in key order: whether a live file was discovered
    /// for it, whether the snapshot holds present rows or tombstones for
    /// it, and whether its file exists.
    Region { discovered: bool, has_rows: bool, has_tombstones: bool, file_exists: bool },
    /// The blob of the current region's next snapshot row was fetched, or
    /// is missing from the blob store.
    Blob { found: bool },
    /// The rebuilt image of the current region was swapped in.
    Written,
}

/// What the caller does next.
#[derive(Debug, Clone, Copy, PartialEq, Eq)]
pub enum RollbackAction {
    /// Nothing to do for this region: no file and no snapshot rows.
    Skip,
    /// Leave the live file alone, then report progress.
    Leave(RollbackProgress),
    /// Delete the live file, then report progress.
    Delete(RollbackProgress),
    /// Rebuild the file from the snapshot's rows; merge the live chunks
    /// that the keep-policies retain when `merge_live` is set.
    Rebuild { merge_live: bool },
    /// Stage the fetched blob into the rebuilt file.
    Stage,
    /// Skip this row: its blob is missing and the policy skips it.
    SkipChunk,
    /// Fail: the blob is missing and the policy aborts.
    FailMissingBlob,
    /// Report progress after swapping a rebuilt file in.
    Report(RollbackProgress),
}

/// The pass before the first region.
pub open spec fn rollback_start_spec(files_total: usize) -> RollbackState {
    RollbackState {
        report: RollbackReport { files_written: 0, files_deleted: 0, chunks_restored: 0 },
        files_done: 0,
        files_total,
    }
}

/// Progress after one more finished region.
pub open spec fn progress_after(s: RollbackState, report: RollbackReport) -> RollbackProgress {
    RollbackProgress {
        files_done: (s.files_done + 1) as usize,
        files_total: s.files_total,
        chunks_done: report.chunks_restored,
    }
}

/// The counters a step may raise are below their limit.
pub open spec fn can_step(s: RollbackState) -> bool {
    &&& s.files_done < usize::MAX
    &&& s.report.files_written < usize::MAX
    &&& s.report.files_deleted < usize::MAX
    &&& s.report.chunks_restored < usize::MAX
}

/// One step of the pass.
pub open spec fn rollback_step_spec(s: RollbackState, ev: RollbackEvent, options: RollbackOptions) -> (
    RollbackState,
    RollbackAction,
) {
    match ev {
        RollbackEvent::Region { discovered, has_rows, has_tombstones, file_exists } => {
            match region_action_spec(discovered, has_rows, has_tombstones, options) {
                RegionAction::Untouched => (s, RollbackAction::Skip),
                RegionAction::KeepFile => {
                    let n = RollbackState { files_done: (s.files_done + 1) as usize, ..s };
                    (n, RollbackAction::Leave(progress_after(s, s.report)))
                },
                RegionAction::DeleteFile => if file_exists {
                    let report = RollbackReport {
                        files_deleted: (s.report.files_deleted + 1) as usize,
                        ..s.report
                    };
                    let n = RollbackState { report, files_done: (s.files_done + 1) as usize, ..s };
                    (n, RollbackAction::Delete(progress_after(s, report)))
                } else {
                    let n = RollbackState { files_done: (s.files_done + 1) as usize, ..s };
                    (n, RollbackAction::Leave(progress_after(s, s.report)))
                },
                RegionAction::Rebuild { merge_live } => (
                    s,
                    RollbackAction::Rebuild { merge_live },
                ),
            }
        },
        RollbackEvent::Blob { found } => if found {
            let report = RollbackReport {
                chunks_restored: (s.report.chunks_restored + 1) as usize,
                ..s.report
            };
            (RollbackState { report, ..s }, RollbackAction::Stage)
        } else if options.on_missing_blob == MissingBlobPolicy::SkipChunk {
            (s, RollbackAction::SkipChunk)
        } else {
            (s, RollbackAction::FailMissingBlob)
        },
        RollbackEvent::Written => {
            let report = RollbackReport {
                files_written: (s.report.files_written + 1) as usize,
                ..s.report
            };
            let n = RollbackState { report, files_done: (s.files_done + 1) as usize, ..s };
            (n, RollbackAction::Report(progress_after(s, report)))
        },
    }
}

/// The pass over `files_total` regions, before the first one.
pub fn rollback_start(files_total: usize) -> (r: RollbackState)
    ensures
        r == rollback_start_spec(files_total),
{
    RollbackState {
        report: RollbackReport { files_written: 0, files_deleted: 0, chunks_restored: 0 },
        files_done: 0,
        files_total,
    }
}

/// Decides the next action of the pass from what the caller observed.
pub fn rollback_step(s: &RollbackState, ev: RollbackEvent, options: &RollbackOptions) -> (r: (
    RollbackState,
    RollbackAction,
))
    requires
        can_step(*s),
    ensures
        r == rollback_step_spec(*s, ev, *options),
{
    let s = *s;
    match ev {
        RollbackEvent::Region { discovered, has_rows, has_tombstones, file_exists } => {
            match region_action(discovered, has_rows, has_tombstones, *options) {
                RegionAction::Untouched => (s, RollbackAction::Skip),
                RegionAction::KeepFile => {
                    let progress = RollbackProgress {
                        files_done: s.files_done + 1,
                        files_total: s.files_total,
                        chunks_done: s.report.chunks_restored,
                    };
                    (
                        RollbackState { files_done: s.files_done + 1, ..s },
                        RollbackAction::Leave(progress),
                    )
                },
                RegionAction::DeleteFile => {
                    if file_exists {
                        let report = RollbackReport {
                            files_deleted: s.report.files_deleted + 1,
                            ..s.report
                        };
                        let progress = RollbackProgress {
                            files_done: s.files_done + 1,
                            files_total: s.files_total,
                            chunks_done: report.chunks_restored,
                        };
                        (
                            RollbackState { report, files_done: s.files_done + 1, ..s },
                            RollbackAction::Delete(progress),
                        )
                    } else {
                        let progress = RollbackProgress {
                            files_done: s.files_done + 1,
                            files_total: s.files_total,
                            chunks_done: s.report.chunks_restored,
                        };
                        (
                            RollbackState { files_done: s.files_done + 1, ..s },
                            RollbackAction::Leave(progress),
                        )
                    }
                },
                RegionAction::Rebuild { merge_live } => (s, RollbackAction::Rebuild { merge_live }),
            }
        },
        RollbackEvent::Blob { found } => {
            if found {
                let report = RollbackReport {
                    chunks_restored: s.report.chunks_restored + 1,
                    ..s.report
                };
                (RollbackState { report, ..s }, RollbackAction::Stage)
            } else {
                match options.on_missing_blob {
                    MissingBlobPolicy::SkipChunk => (s, RollbackAction::SkipChunk),
                    MissingBlobPolicy::Abort => (s, RollbackAction::FailMissingBlob),
                }
            }
        },
        RollbackEvent::Written => {
            let report = RollbackReport { files_written: s.report.files_written + 1, ..s.report };
            let progress = RollbackProgress {
                files_done: s.files_done + 1,
                files_total: s.files_total,
                chunks_done: report.chunks_restored,
            };
            (
                RollbackState { report, files_done: s.files_done + 1, ..s },
                RollbackAction::Report(progress),
            )
        },
    }
}

// ---------------------------------------------------------------------------
// The regions a rollback walks
// ---------------------------------------------------------------------------
/// A region file's identity: dimension, region kind and region
/// coordinates, as raw numbers.
#[derive(Debug, Clone, Copy, PartialEq, Eq)]
pub struct RegionKey {
    pub dim: i32,
    pub kind: i32,
    pub rx: i32,
    pub rz: i32,
}

/// Key order: by dimension, then kind, then region X, then region Z.
pub open spec fn key_before(a: RegionKey, b: RegionKey) -> bool {
    a.dim < b.dim || (a.dim == b.dim && (a.kind < b.kind || (a.kind == b.kind && (a.rx < b.rx || (
    a.rx == b.rx && a.rz < b.rz)))))
}

/// Keys in strictly ascending order, so none occurs twice.
pub open spec fn ascending(keys: Seq<RegionKey>) -> bool {
    forall|i: int, j: int| 0 <= i < j < keys.len() ==> key_before(keys[i], keys[j])
}

/// The order of key tuples is the lexicographic one that std documents.
proof fn lemma_key_order()
    ensures
        vstd::laws_cmp::obeys_cmp::<(i32, i32, i32, i32)>(),
{
    broadcast use vstd::laws_cmp::group_laws_cmp;

}

/// Tuples that the set hands out in increasing order are in key order.
proof fn lemma_ascending_tuples(s: Seq<&(i32, i32, i32, i32)>)
    requires
        vstd::std_specs::btree::increasing_seq(s),
    ensures
        forall|i: int, j: int|
            0 <= i < j < s.len() ==> key_before(
                RegionKey { dim: s[i].0, kind: s[i].1, rx: s[i].2, rz: s[i].3 },
                RegionKey { dim: s[j].0, kind: s[j].1, rx: s[j].2, rz: s[j].3 },
            ),
{
    broadcast use vstd::std_specs::btree::group_btree_axioms, vstd::laws_cmp::group_laws_cmp;

    lemma_key_order();
    assert(vstd::laws_cmp::obeys_cmp::<&(i32, i32, i32, i32)>());
    assert(forall|i: int, j: int|
        #![trigger s[i], s[j]]
        0 <= i < j < s.len() ==> OrdSpec::cmp_spec(&s[i], &s[j]) is Less);
    assert forall|i: int, j: int| 0 <= i < j < s.len() implies key_before(
        RegionKey { dim: s[i].0, kind: s[i].1, rx: s[i].2, rz: s[i].3 },
        RegionKey { dim: s[j].0, kind: s[j].1, rx: s[j].2, rz: s[j].3 },
    ) by {
        assert(OrdSpec::cmp_spec(&s[i], &s[j]) is Less);
    }
}

/// A key as the tuple it is ordered by.
pub open spec fn key_tuple(k: RegionKey) -> (i32, i32, i32, i32) {
    (k.dim, k.kind, k.rx, k.rz)
}

fn insert_keys(set: &mut BTreeSet<(i32, i32, i32, i32)>, keys: &[RegionKey])
    ensures
        forall|t: (i32, i32, i32, i32)|
            #[trigger] final(set)@.contains(t) <==> (old(set)@.contains(t) || exists|j: int|
                0 <= j < keys@.len() && key_tuple(keys@[j]) == t),
{
    proof {
        lemma_key_order();
    }
    let ghost start = set@;
    let mut i: usize = 0;
    while i < keys.len()
        invariant
            i <= keys@.len(),
            forall|t: (i32, i32, i32, i32)|
                #[trigger] set@.contains(t) <==> (start.contains(t) || exists|j: int|
                    0 <= j < i && key_tuple(keys@[j]) == t),
        decreases keys@.len() - i,
    {
        let k = keys[i];
        set.insert((k.dim, k.kind, k.rx, k.rz));
        proof {
            assert forall|t: (i32, i32, i32, i32)| #[trigger] set@.contains(t) <==> (start.contains(t)
                || exists|j: int| 0 <= j < i + 1 && key_tuple(keys@[j]) == t) by {
                if t == key_tuple(keys@[i as int]) {
                    assert(key_tuple(keys@[i as int]) == t);
                }
                if exists|j: int| 0 <= j < i + 1 && key_tuple(keys@[j]) == t {
                    let j = choose|j: int| 0 <= j < i + 1 && key_tuple(keys@[j]) == t;
                    if j < i {
                        assert(exists|j2: int| 0 <= j2 < i && key_tuple(keys@[j2]) == t);
                    }
                }
            }
        }
        i = i + 1;
    }
}

/// The regions a rollback walks, in key order, each once: those with a
/// live file, with snapshot rows, or with snapshot tombstones.
pub fn region_keys(discovered: &[RegionKey], rows: &[RegionKey], tombstones: &[RegionKey]) -> (r:
    Vec<RegionKey>)
    ensures
        ascending(r@),
        forall|x: RegionKey|
            r@.contains(x) <==> (discovered@.contains(x) || rows@.contains(x)
                || tombstones@.contains(x)),
{
    let mut set: BTreeSet<(i32, i32, i32, i32)> = BTreeSet::new();
    insert_keys(&mut set, discovered);
    insert_keys(&mut set, rows);
    insert_keys(&mut set, tombstones);
    let mut keys: Vec<RegionKey> = Vec::new();
    proof {
        lemma_key_order();
    }
    let ghost items = vstd::std_specs::btree::spec_btree_keys_iter(&set).remaining();
    for t in it: set.iter()
        invariant
            it.seq() == items,
            keys@.len() == it.index(),
            forall|j: int| 0 <= j < it.index() ==> key_tuple(keys@[j]) == *it.seq()[j],
    {
        keys.push(RegionKey { dim: t.0, kind: t.1, rx: t.2, rz: t.3 });
    }
    proof {
        broadcast use vstd::std_specs::btree::group_btree_axioms;

        let tuples = items.unref();
        assert(tuples.to_set() == set@);
        assert(keys@.len() == tuples.len());
        assert forall|j: int| 0 <= j < keys@.len() implies key_tuple(keys@[j]) == tuples[j] by {}
        lemma_ascending_tuples(items);
        assert forall|a: int, b: int| 0 <= a < b < keys@.len() implies key_before(
            keys@[a],
            keys@[b],
        ) by {
            assert(key_tuple(keys@[a]) == *items[a]);
            assert(key_tuple(keys@[b]) == *items[b]);
            assert(keys@[a] == RegionKey { dim: items[a].0, kind: items[a].1, rx: items[a].2, rz: items[a].3 });
            assert(keys@[b] == RegionKey { dim: items[b].0, kind: items[b].1, rx: items[b].2, rz: items[b].3 });
        }
        assert forall|x: RegionKey| keys@.contains(x) <==> (discovered@.contains(x)
            || rows@.contains(x) || tombstones@.contains(x)) by {
            let t = key_tuple(x);
            if keys@.contains(x) {
                let j = choose|j: int| 0 <= j < keys@.len() && keys@[j] == x;
                assert(tuples[j] == t);
                assert(tuples.contains(t));
            }
            if set@.contains(t) {
                assert(tuples.to_set().contains(t));
                let j = choose|j: int| 0 <= j < tuples.len() && tuples[j] == t;
                assert(key_tuple(keys@[j]) == t);
                assert(keys@[j] == x);
            }
            if discovered@.contains(x) {
                let j = choose|j: int| 0 <= j < discovered@.len() && discovered@[j] == x;
                assert(key_tuple(discovered@[j]) == t);
            }
            if rows@.contains(x) {
                let j = choose|j: int| 0 <= j < rows@.len() && rows@[j] == x;
                assert(key_tuple(rows@[j]) == t);
            }
            if tombstones@.contains(x) {
                let j = choose|j: int| 0 <= j < tombstones@.len() && tombstones@[j] == x;
                assert(key_tuple(tombstones@[j]) == t);
            }
            if set@.contains(t) {
                if exists|j: int| 0 <= j < discovered@.len() && key_tuple(discovered@[j]) == t {
                    let j = choose|j: int| 0 <= j < discovered@.len() && key_tuple(discovered@[j]) == t;
                    assert(discovered@[j] == x);
                }
                if exists|j: int| 0 <= j < rows@.len() && key_tuple(rows@[j]) == t {
                    let j = choose|j: int| 0 <= j < rows@.len() && key_tuple(rows@[j]) == t;
                    assert(rows@[j] == x);
                }
                if exists|j: int| 0 <= j < tombstones@.len() && key_tuple(tombstones@[j]) == t {
                    let j = choose|j: int| 0 <= j < tombstones@.len() && key_tuple(tombstones@[j]) == t;
                    assert(tombstones@[j] == x);
                }
            }
        }
    }
    keys
}

} // verus!
