//! One-line human summaries of a status preview and of snapshot lists.

use vstd::prelude::*;

use crate::restore::joined;
use crate::style::{painted, Styler};
use crate::text::{decimal, decimal_string, push_decimal};

verus! {

/// Preview of what a backup would record.
#[derive(Debug, Clone, Copy)]
pub struct StatusReport {
    /// Nothing in scope differs from the latest snapshot.
    pub clean: bool,
    /// Latest snapshot the preview is measured against, if any.
    pub latest: Option<u64>,
    /// In-scope regions that changed (new files included).
    pub changed_regions: usize,
    /// Changed regions with no stored state.
    pub new_files: usize,
    /// Stored regions gone from disk.
    pub deleted_files: usize,
    /// Chunks that would be newly recorded.
    pub new_chunks: usize,
    /// Tombstones that would be recorded for vanished chunks.
    pub tombstones: usize,
    /// Blobs absent from the blob store (the rest would deduplicate).
    pub new_blobs: usize,
}

/// What a preview is measured against.
pub open spec fn basis_text(latest: Option<u64>) -> Seq<char> {
    match latest {
        Some(id) => "snapshot "@ + decimal(id as nat),
        None => "no snapshot yet"@,
    }
}

/// The status line of a preview.
pub open spec fn status_text(report: StatusReport, on: bool) -> Seq<char> {
    let basis = basis_text(report.latest);
    if report.clean {
        "clean: no changes since "@ + basis
    } else {
        "would record against "@ + basis + ": "@ + painted(
            on,
            decimal(report.changed_regions as nat),
            "1"@,
        ) + " regions changed ("@ + decimal(report.new_files as nat) + " new, "@ + decimal(
            report.deleted_files as nat,
        ) + " deleted), "@ + decimal(report.new_chunks as nat) + " chunks, "@ + decimal(
            report.tombstones as nat,
        ) + " tombstones, "@ + decimal(report.new_blobs as nat) + " new blobs"@
    }
}

/// Human status line of a preview, the changed-region count in bold.
pub fn status_line(report: &StatusReport, style: Styler) -> (r: String)
    ensures
        r@ == status_text(*report, style.on()),
{
    let mut basis = String::new();
    match report.latest {
        Some(id) => {
            basis.append("snapshot ");
            push_decimal(&mut basis, id);
        },
        None => {
            basis.append("no snapshot yet");
        },
    }
    assert(basis@ =~= basis_text(report.latest));
    if report.clean {
        let mut line = String::from_str("clean: no changes since ");
        line.append(basis.as_str());
        return line;
    }
    let changed = decimal_string(report.changed_regions as u64);
    let mut line = String::from_str("would record against ");
    line.append(basis.as_str());
    line.append(": ");
    line.append(style.bold(changed.as_str()).as_str());
    line.append(" regions changed (");
    push_decimal(&mut line, report.new_files as u64);
    line.append(" new, ");
    push_decimal(&mut line, report.deleted_files as u64);
    line.append(" deleted), ");
    push_decimal(&mut line, report.new_chunks as u64);
    line.append(" chunks, ");
    push_decimal(&mut line, report.tombstones as u64);
    line.append(" tombstones, ");
    push_decimal(&mut line, report.new_blobs as u64);
    line.append(" new blobs");
    assert(line@ =~= status_text(*report, style.on()));
    line
}

/// Decimal texts of snapshot ids.
pub open spec fn id_texts(ids: Seq<u64>) -> Seq<Seq<char>> {
    ids.map_values(|id: u64| decimal(id as nat))
}

/// Snapshot ids in decimal, joined with `, `.
pub fn id_list(ids: &[u64]) -> (r: String)
    ensures
        r@ == joined(id_texts(ids@), ", "@),
{
    let ghost texts = id_texts(ids@);
    let mut out = String::new();
    if ids.len() == 0 {
        assert(out@ =~= joined(texts, ", "@));
        return out;
    }
    push_decimal(&mut out, ids[0]);
    let mut i: usize = 1;
    assert(texts.take(1) =~= seq![texts[0]]);
    assert(out@ =~= joined(texts.take(1), ", "@));
    while i < ids.len()
        invariant
            1 <= i <= ids@.len(),
            texts == id_texts(ids@),
            out@ == joined(texts.take(i as int), ", "@),
        decreases ids@.len() - i,
    {
        out.append(", ");
        push_decimal(&mut out, ids[i]);
        assert(texts.take(i + 1).drop_last() =~= texts.take(i as int));
        assert(out@ =~= joined(texts.take(i + 1), ", "@));
        i = i + 1;
    }
    assert(texts.take(ids@.len() as int) =~= texts);
    out
}

/// Number of `true` among `flags`.
pub open spec fn count_true(flags: Seq<bool>) -> nat
    decreases flags.len(),
{
    if flags.len() == 0 {
        0
    } else {
        count_true(flags.drop_last()) + if flags.last() {
            1nat
        } else {
            0nat
        }
    }
}

/// At most every flag is set, and none is set exactly when the count is 0.
pub proof fn lemma_count_true_bounds(flags: Seq<bool>)
    ensures
        count_true(flags) <= flags.len(),
        count_true(flags) == 0 <==> forall|i: int| 0 <= i < flags.len() ==> !flags[i],
    decreases flags.len(),
{
    if flags.len() > 0 {
        let rest = flags.drop_last();
        lemma_count_true_bounds(rest);
        if count_true(flags) == 0 {
            assert forall|i: int| 0 <= i < flags.len() implies !flags[i] by {
                if i < rest.len() {
                    assert(rest[i] == flags[i]);
                }
            }
        } else {
            if !flags.last() {
                let j = choose|j: int| 0 <= j < rest.len() && rest[j];
                assert(flags[j] == rest[j]);
            }
        }
    }
}

fn count_set(flags: &[bool]) -> (r: usize)
    ensures
        r == count_true(flags@),
{
    let mut n: usize = 0;
    let mut i: usize = 0;
    while i < flags.len()
        invariant
            i <= flags@.len(),
            n == count_true(flags@.take(i as int)),
            n <= i,
        decreases flags@.len() - i,
    {
        assert(flags@.take(i + 1).drop_last() =~= flags@.take(i as int));
        if flags[i] {
            n = n + 1;
        }
        i = i + 1;
    }
    assert(flags@.take(flags@.len() as int) =~= flags@);
    n
}

/// The preview of a backup from its staged outcome: `new_file` tells, per
/// staged fingerprint, whether the region had no stored state;
/// `has_blob` tells, per staged history row, whether it records a chunk
/// (not a tombstone); `removed` counts stored regions gone from disk.
pub open spec fn status_of(
    latest: Option<u64>,
    changed_regions: usize,
    new_file: Seq<bool>,
    has_blob: Seq<bool>,
    removed: usize,
    tombstones: usize,
    new_blobs: usize,
) -> StatusReport {
    StatusReport {
        clean: has_blob.len() == 0 && removed == 0 && count_true(new_file) == 0,
        latest,
        changed_regions,
        new_files: count_true(new_file) as usize,
        deleted_files: removed,
        new_chunks: count_true(has_blob) as usize,
        tombstones,
        new_blobs,
    }
}

/// Tallies the preview of a backup from its staged outcome.
pub fn status_counts(
    latest: Option<u64>,
    changed_regions: usize,
    new_file: &[bool],
    has_blob: &[bool],
    removed: usize,
    tombstones: usize,
    new_blobs: usize,
) -> (r: StatusReport)
    ensures
        r == status_of(latest, changed_regions, new_file@, has_blob@, removed, tombstones, new_blobs),
        r.clean <==> (has_blob@.len() == 0 && removed == 0 && forall|i: int|
            0 <= i < new_file@.len() ==> !new_file@[i]),
        r.new_chunks <= has_blob@.len(),
        r.new_files <= new_file@.len(),
        r.latest == latest,
        r.deleted_files == removed,
{
    let new_files = count_set(new_file);
    let new_chunks = count_set(has_blob);
    proof {
        lemma_count_true_bounds(new_file@);
        lemma_count_true_bounds(has_blob@);
    }
    StatusReport {
        clean: has_blob.len() == 0 && removed == 0 && new_files == 0,
        latest,
        changed_regions,
        new_files,
        deleted_files: removed,
        new_chunks,
        tombstones,
        new_blobs,
    }
}

/// A preview is clean exactly when no history row is staged, no stored
/// region is gone and no region is new; any staged chunk row makes it
/// unclean, and no more chunks are counted than rows are staged.
pub proof fn lemma_status_clean(
    latest: Option<u64>,
    changed_regions: usize,
    new_file: Seq<bool>,
    has_blob: Seq<bool>,
    removed: usize,
    tombstones: usize,
    new_blobs: usize,
)
    ensures
        status_of(latest, changed_regions, new_file, has_blob, removed, tombstones, new_blobs).clean
            <==> (has_blob.len() == 0 && removed == 0 && forall|i: int|
            0 <= i < new_file.len() ==> !new_file[i]),
        status_of(latest, changed_regions, new_file, has_blob, removed, tombstones, new_blobs).clean
            ==> status_of(
            latest,
            changed_regions,
            new_file,
            has_blob,
            removed,
            tombstones,
            new_blobs,
        ).new_chunks == 0,
        (exists|i: int| 0 <= i < has_blob.len() && has_blob[i]) ==> !status_of(
            latest,
            changed_regions,
            new_file,
            has_blob,
            removed,
            tombstones,
            new_blobs,
        ).clean,
        has_blob.len() <= usize::MAX ==> status_of(
            latest,
            changed_regions,
            new_file,
            has_blob,
            removed,
            tombstones,
            new_blobs,
        ).new_chunks <= has_blob.len(),
{
    lemma_count_true_bounds(new_file);
    lemma_count_true_bounds(has_blob);
}

} // verus!
