//! Rollback restore policy: the strategy flags, their summary, and the
//! per-region and per-chunk decisions a rollback makes.

use vstd::prelude::*;

use crate::text::{push_char, push_signed_decimal, signed_decimal};

verus! {

/// What to do when a snapshot blob is absent from CAS.
#[derive(Debug, Clone, Copy, PartialEq, Eq)]
pub enum MissingBlobPolicy {
    /// Abort loudly: a missing blob is corruption, and writing a partial
    /// world would be worse than writing none.
    Abort,
    /// Skip the chunk, leaving it out of the rebuilt file.
    SkipChunk,
}

impl Default for MissingBlobPolicy {
    fn default() -> (r: Self)
        ensures
            r == MissingBlobPolicy::Abort,
    {
        MissingBlobPolicy::Abort
    }
}

/// Where to rebuild a snapshot-known region whose file is missing on disk.
#[derive(Debug, Clone, Copy, PartialEq, Eq)]
pub enum MissingFilePolicy {
    /// Prefer a same-dimension sibling's directory, falling back to the
    /// layout-derived path.
    SiblingFirst,
    /// Always use the layout-derived path, ignoring siblings.
    DerivedOnly,
    /// Fail loudly instead of guessing a location.
    Error,
}

impl Default for MissingFilePolicy {
    fn default() -> (r: Self)
        ensures
            r == MissingFilePolicy::SiblingFirst,
    {
        MissingFilePolicy::SiblingFirst
    }
}

/// Rollback restore policy. `Default` is strict: snapshot-unknown files
/// are deleted, tombstoned chunks vanish, missing blobs abort, and
/// missing files resolve sibling-first.
#[derive(Debug, Clone, Copy, PartialEq, Eq)]
pub struct RollbackOptions {
    /// Keep region files unknown to the snapshot instead of deleting them.
    pub keep_post_snapshot_files: bool,
    /// Keep live bytes for chunks unknown to the snapshot instead of
    /// dropping them.
    pub keep_post_snapshot_chunks: bool,
    /// Keep live bytes for snapshot-tombstoned chunks instead of removing
    /// them. Fully tombstoned region files are left alone rather than
    /// deleted.
    pub keep_tombstoned_chunks: bool,
    /// How to handle a snapshot blob missing from CAS.
    pub on_missing_blob: MissingBlobPolicy,
    /// Where to rebuild a snapshot-known region whose file is missing.
    pub on_missing_file: MissingFilePolicy,
}

/// The strict policy.
pub open spec fn strict_options() -> RollbackOptions {
    RollbackOptions {
        keep_post_snapshot_files: false,
        keep_post_snapshot_chunks: false,
        keep_tombstoned_chunks: false,
        on_missing_blob: MissingBlobPolicy::Abort,
        on_missing_file: MissingFilePolicy::SiblingFirst,
    }
}

impl Default for RollbackOptions {
    fn default() -> (r: Self)
        ensures
            r == strict_options(),
    {
        RollbackOptions {
            keep_post_snapshot_files: false,
            keep_post_snapshot_chunks: false,
            keep_tombstoned_chunks: false,
            on_missing_blob: MissingBlobPolicy::Abort,
            on_missing_file: MissingFilePolicy::SiblingFirst,
        }
    }
}

/// `--on-missing-blob`: what to do when a snapshot blob is absent from CAS.
#[derive(Debug, Clone, Copy, PartialEq, Eq)]
pub enum OnMissingBlob {
    /// Abort loudly (a missing blob is corruption).
    Abort,
    /// Skip the chunk, leaving it out of the rebuilt file.
    SkipChunk,
}

/// `--on-missing-file`: where to rebuild a snapshot-known region whose file
/// is missing on disk.
#[derive(Debug, Clone, Copy, PartialEq, Eq)]
pub enum OnMissingFile {
    /// Prefer a same-dimension sibling's directory, then the derived path.
    SiblingFirst,
    /// Always use the layout-derived path.
    DerivedOnly,
    /// Fail loudly instead of guessing a location.
    Error,
}

/// Rollback strategy flags as given on the command line.
pub struct RollbackFlags {
    pub keep_post_snapshot_files: bool,
    pub keep_post_snapshot_chunks: bool,
    pub keep_tombstoned_chunks: bool,
    pub on_missing_blob: OnMissingBlob,
    pub on_missing_file: OnMissingFile,
}

pub open spec fn blob_policy(flag: OnMissingBlob) -> MissingBlobPolicy {
    match flag {
        OnMissingBlob::Abort => MissingBlobPolicy::Abort,
        OnMissingBlob::SkipChunk => MissingBlobPolicy::SkipChunk,
    }
}

pub open spec fn file_policy(flag: OnMissingFile) -> MissingFilePolicy {
    match flag {
        OnMissingFile::SiblingFirst => MissingFilePolicy::SiblingFirst,
        OnMissingFile::DerivedOnly => MissingFilePolicy::DerivedOnly,
        OnMissingFile::Error => MissingFilePolicy::Error,
    }
}

/// Restore policy selected by the command-line flags.
pub fn map_options(flags: &RollbackFlags) -> (r: RollbackOptions)
    ensures
        r == (RollbackOptions {
            keep_post_snapshot_files: flags.keep_post_snapshot_files,
            keep_post_snapshot_chunks: flags.keep_post_snapshot_chunks,
            keep_tombstoned_chunks: flags.keep_tombstoned_chunks,
            on_missing_blob: blob_policy(flags.on_missing_blob),
            on_missing_file: file_policy(flags.on_missing_file),
        }),
{
    RollbackOptions {
        keep_post_snapshot_files: flags.keep_post_snapshot_files,
        keep_post_snapshot_chunks: flags.keep_post_snapshot_chunks,
        keep_tombstoned_chunks: flags.keep_tombstoned_chunks,
        on_missing_blob: match flags.on_missing_blob {
            OnMissingBlob::Abort => MissingBlobPolicy::Abort,
            OnMissingBlob::SkipChunk => MissingBlobPolicy::SkipChunk,
        },
        on_missing_file: match flags.on_missing_file {
            OnMissingFile::SiblingFirst => MissingFilePolicy::SiblingFirst,
            OnMissingFile::DerivedOnly => MissingFilePolicy::DerivedOnly,
            OnMissingFile::Error => MissingFilePolicy::Error,
        },
    }
}

/// The relaxations the flags select, in a fixed order.
pub open spec fn policy_parts(flags: RollbackFlags) -> Seq<Seq<char>> {
    let a = if flags.keep_post_snapshot_files {
        seq!["keep files"@]
    } else {
        Seq::empty()
    };
    let b = if flags.keep_post_snapshot_chunks {
        seq!["keep chunks"@]
    } else {
        Seq::empty()
    };
    let c = if flags.keep_tombstoned_chunks {
        seq!["keep tombstones"@]
    } else {
        Seq::empty()
    };
    let d = if flags.on_missing_blob == OnMissingBlob::SkipChunk {
        seq!["skip missing blobs"@]
    } else {
        Seq::empty()
    };
    let e = match flags.on_missing_file {
        OnMissingFile::SiblingFirst => Seq::empty(),
        OnMissingFile::DerivedOnly => seq!["derived-only"@],
        OnMissingFile::Error => seq!["missing-file error"@],
    };
    a + b + c + d + e
}

/// `parts` joined with `sep`.
pub open spec fn joined(parts: Seq<Seq<char>>, sep: Seq<char>) -> Seq<char>
    decreases parts.len(),
{
    if parts.len() == 0 {
        Seq::empty()
    } else if parts.len() == 1 {
        parts[0]
    } else {
        joined(parts.drop_last(), sep) + sep + parts.last()
    }
}

/// One-line summary of a restore policy: `strict`, or its relaxations
/// joined with `, `.
pub open spec fn policy_text(flags: RollbackFlags) -> Seq<char> {
    let parts = policy_parts(flags);
    if parts.len() == 0 {
        "strict"@
    } else {
        joined(parts, ", "@)
    }
}

/// One-line human summary of the restore policy for the pre-run echo.
pub fn policy_summary(flags: &RollbackFlags) -> (r: String)
    ensures
        r@ == policy_text(*flags),
{
    let mut parts: Vec<&str> = Vec::new();
    if flags.keep_post_snapshot_files {
        parts.push("keep files");
    }
    if flags.keep_post_snapshot_chunks {
        parts.push("keep chunks");
    }
    if flags.keep_tombstoned_chunks {
        parts.push("keep tombstones");
    }
    if matches!(flags.on_missing_blob, OnMissingBlob::SkipChunk) {
        parts.push("skip missing blobs");
    }
    match flags.on_missing_file {
        OnMissingFile::SiblingFirst => {},
        OnMissingFile::DerivedOnly => {
            parts.push("derived-only");
        },
        OnMissingFile::Error => {
            parts.push("missing-file error");
        },
    }
    let ghost views = parts@.map_values(|p: &str| p@);
    assert(views =~= policy_parts(*flags));
    if parts.len() == 0 {
        return "strict".to_owned();
    }
    let mut out = String::new();
    out.append(parts[0]);
    let mut i: usize = 1;
    assert(views.take(1) =~= seq![views[0]]);
    while i < parts.len()
        invariant
            1 <= i <= parts@.len(),
            views == parts@.map_values(|p: &str| p@),
            out@ == joined(views.take(i as int), ", "@),
        decreases parts@.len() - i,
    {
        out.append(", ");
        out.append(parts[i]);
        assert(views.take(i + 1).drop_last() =~= views.take(i as int));
        i = i + 1;
    }
    assert(views.take(parts@.len() as int) =~= views);
    out
}

// ---------------------------------------------------------------------------
// Decisions of a rollback
// ---------------------------------------------------------------------------
/// What a rollback does with one region of its key set.
#[derive(Debug, Clone, Copy, PartialEq, Eq)]
pub enum RegionAction {
    /// Neither a file nor snapshot rows: nothing to do.
    Untouched,
    /// No snapshot rows: the live file is left as it is.
    KeepFile,
    /// No snapshot rows: the live file is deleted if it exists.
    DeleteFile,
    /// Rebuild the file from the snapshot's rows, merging live chunks
    /// into it when `merge_live` is set.
    Rebuild { merge_live: bool },
}

/// Decision for one region, from whether a live file was discovered for
/// it, whether the snapshot holds present rows for it, and whether it holds
/// tombstones for it.
pub open spec fn region_action_spec(
    discovered: bool,
    has_rows: bool,
    has_tombstones: bool,
    options: RollbackOptions,
) -> RegionAction {
    if !has_rows {
        if !discovered {
            RegionAction::Untouched
        } else if (if has_tombstones {
            options.keep_tombstoned_chunks
        } else {
            options.keep_post_snapshot_files
        }) {
            RegionAction::KeepFile
        } else {
            RegionAction::DeleteFile
        }
    } else {
        RegionAction::Rebuild {
            merge_live: options.keep_post_snapshot_chunks || options.keep_tombstoned_chunks,
        }
    }
}

/// Decides what a rollback does with one region: regions without snapshot
/// rows keep or lose their live file by the keep-policies, the others are
/// rebuilt.
pub fn region_action(
    discovered: bool,
    has_rows: bool,
    has_tombstones: bool,
    options: RollbackOptions,
) -> (r: RegionAction)
    ensures
        r == region_action_spec(discovered, has_rows, has_tombstones, options),
        has_rows ==> r == (RegionAction::Rebuild {
            merge_live: options.keep_post_snapshot_chunks || options.keep_tombstoned_chunks,
        }),
        !has_rows && !discovered ==> r == RegionAction::Untouched,
        !has_rows && discovered && has_tombstones ==> r == (if options.keep_tombstoned_chunks {
            RegionAction::KeepFile
        } else {
            RegionAction::DeleteFile
        }),
        !has_rows && discovered && !has_tombstones ==> r == (if options.keep_post_snapshot_files {
            RegionAction::KeepFile
        } else {
            RegionAction::DeleteFile
        }),
{
    if !has_rows {
        if !discovered {
            return RegionAction::Untouched;
        }
        let keep = if has_tombstones {
            options.keep_tombstoned_chunks
        } else {
            options.keep_post_snapshot_files
        };
        if keep {
            RegionAction::KeepFile
        } else {
            RegionAction::DeleteFile
        }
    } else {
        RegionAction::Rebuild {
            merge_live: options.keep_post_snapshot_chunks || options.keep_tombstoned_chunks,
        }
    }
}

/// Whether a live chunk joins the rebuilt file: never when the snapshot
/// restored its coordinate; otherwise by the tombstone or post-snapshot
/// keep-policy that applies to it.
pub open spec fn keeps_live_chunk(restored: bool, tombstoned: bool, options: RollbackOptions) -> bool {
    !restored && (if tombstoned {
        options.keep_tombstoned_chunks
    } else {
        options.keep_post_snapshot_chunks
    })
}

/// Decides whether a live chunk is merged into a rebuilt file.
pub fn keep_live_chunk(restored: bool, tombstoned: bool, options: RollbackOptions) -> (r: bool)
    ensures
        r == keeps_live_chunk(restored, tombstoned, options),
        restored ==> !r,
        !restored && tombstoned ==> r == options.keep_tombstoned_chunks,
        !restored && !tombstoned ==> r == options.keep_post_snapshot_chunks,
{
    if restored {
        return false;
    }
    if tombstoned {
        options.keep_tombstoned_chunks
    } else {
        options.keep_post_snapshot_chunks
    }
}

/// File name of region `(x, z)`: `r.<x>.<z>.mca`.
pub open spec fn region_file_name_text(x: i32, z: i32) -> Seq<char> {
    seq!['r', '.'] + signed_decimal(x as int) + seq!['.'] + signed_decimal(z as int) + seq![
        '.',
        'm',
        'c',
        'a',
    ]
}

/// File name of region `(x, z)`.
pub fn region_file_name(x: i32, z: i32) -> (r: String)
    ensures
        r@ == region_file_name_text(x, z),
{
    let mut out = String::new();
    push_char(&mut out, 'r');
    push_char(&mut out, '.');
    push_signed_decimal(&mut out, x as i64);
    push_char(&mut out, '.');
    push_signed_decimal(&mut out, z as i64);
    push_char(&mut out, '.');
    push_char(&mut out, 'm');
    push_char(&mut out, 'c');
    push_char(&mut out, 'a');
    assert(out@ =~= region_file_name_text(x, z));
    out
}

/// A region with snapshot rows is always rebuilt, and the live chunks are
/// consulted exactly when one of the two chunk keep-policies is set; a
/// region without rows is never rebuilt, and without a live file it is left
/// untouched.
pub proof fn lemma_region_action_rules(
    discovered: bool,
    has_rows: bool,
    has_tombstones: bool,
    options: RollbackOptions,
)
    ensures
        has_rows ==> region_action_spec(discovered, has_rows, has_tombstones, options) == (
        RegionAction::Rebuild {
            merge_live: options.keep_post_snapshot_chunks || options.keep_tombstoned_chunks,
        }),
        has_rows && options.keep_post_snapshot_chunks ==> region_action_spec(
            discovered,
            has_rows,
            has_tombstones,
            options,
        ) == (RegionAction::Rebuild { merge_live: true }),
        !has_rows ==> !(region_action_spec(discovered, has_rows, has_tombstones, options) is Rebuild),
        !has_rows && !discovered ==> region_action_spec(discovered, has_rows, has_tombstones, options)
            == RegionAction::Untouched,
        !has_rows && discovered && !(if has_tombstones {
            options.keep_tombstoned_chunks
        } else {
            options.keep_post_snapshot_files
        }) ==> region_action_spec(discovered, has_rows, has_tombstones, options)
            == RegionAction::DeleteFile,
{
}

/// The strict policy never merges live chunks, deletes every live file the
/// snapshot holds no rows for, and rebuilds every region it holds rows for.
pub proof fn lemma_strict_rollback(discovered: bool, has_rows: bool, has_tombstones: bool)
    ensures
        has_rows ==> region_action_spec(discovered, has_rows, has_tombstones, strict_options())
            == (RegionAction::Rebuild { merge_live: false }),
        !has_rows && discovered ==> region_action_spec(
            discovered,
            has_rows,
            has_tombstones,
            strict_options(),
        ) == RegionAction::DeleteFile,
{
}

/// A live chunk at a coordinate the snapshot restored is never merged,
/// whatever its tombstone state and the keep-policies: the restored chunk
/// wins. Any other live chunk is merged exactly when the keep-policy for
/// its kind (tombstoned or post-snapshot) is set, so with both policies
/// off no live chunk is merged.
pub proof fn lemma_live_chunk_rules(restored: bool, tombstoned: bool, options: RollbackOptions)
    ensures
        restored ==> !keeps_live_chunk(restored, tombstoned, options),
        !restored && tombstoned ==> keeps_live_chunk(restored, tombstoned, options)
            == options.keep_tombstoned_chunks,
        !restored && !tombstoned ==> keeps_live_chunk(restored, tombstoned, options)
            == options.keep_post_snapshot_chunks,
        !options.keep_tombstoned_chunks && !options.keep_post_snapshot_chunks ==> !keeps_live_chunk(
            restored,
            tombstoned,
            options,
        ),
{
}

/// A live chunk is only ever merged into a region that is rebuilt with
/// merging on.
pub proof fn lemma_merge_only_when_asked(
    discovered: bool,
    has_tombstones: bool,
    restored: bool,
    tombstoned: bool,
    options: RollbackOptions,
)
    ensures
        keeps_live_chunk(restored, tombstoned, options) ==> region_action_spec(
            discovered,
            true,
            has_tombstones,
            options,
        ) == (RegionAction::Rebuild { merge_live: true }),
{
}

} // verus!
