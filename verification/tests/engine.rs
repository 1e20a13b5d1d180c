use sekai::diffview::{
    diff_output, needs_enumeration, nonempty_diffs, render_diff_grouped, ChunkDiffView,
    DiffOutput, NbtChange, NbtDiffEntry,
};
use sekai::ingest::{ingest_start, ingest_step, IngestTally};
use sekai::ops::{BackupProgress, RollbackProgress};
use sekai::report::json_escape;
use sekai::restore::{MissingBlobPolicy, MissingFilePolicy, RollbackOptions};
use sekai::rollback::{
    region_keys, rollback_start, rollback_step, RegionKey, RollbackAction, RollbackEvent,
    RollbackReport,
};
use sekai::style::Styler;

fn strict() -> RollbackOptions {
    RollbackOptions {
        keep_post_snapshot_files: false,
        keep_post_snapshot_chunks: false,
        keep_tombstoned_chunks: false,
        on_missing_blob: MissingBlobPolicy::Abort,
        on_missing_file: MissingFilePolicy::SiblingFirst,
    }
}

fn region(discovered: bool, has_rows: bool, has_tombstones: bool, file_exists: bool) -> RollbackEvent {
    RollbackEvent::Region { discovered, has_rows, has_tombstones, file_exists }
}

#[test]
fn rollback_pass_counts_and_reports() {
    let options = strict();
    let s = rollback_start(3);
    let (s, a) = rollback_step(&s, region(false, false, false, false), &options);
    assert_eq!(a, RollbackAction::Skip);
    let (s, a) = rollback_step(&s, region(true, true, false, true), &options);
    assert_eq!(a, RollbackAction::Rebuild { merge_live: false });
    let (s, a) = rollback_step(&s, RollbackEvent::Blob { found: true }, &options);
    assert_eq!(a, RollbackAction::Stage);
    let (s, a) = rollback_step(&s, RollbackEvent::Blob { found: false }, &options);
    assert_eq!(a, RollbackAction::FailMissingBlob);
    let (s, a) = rollback_step(&s, RollbackEvent::Written, &options);
    assert_eq!(
        a,
        RollbackAction::Report(RollbackProgress { files_done: 1, files_total: 3, chunks_done: 1 })
    );
    let (s, a) = rollback_step(&s, region(true, false, false, true), &options);
    assert_eq!(
        a,
        RollbackAction::Delete(RollbackProgress { files_done: 2, files_total: 3, chunks_done: 1 })
    );
    let (s, a) = rollback_step(&s, region(true, false, true, false), &options);
    assert_eq!(
        a,
        RollbackAction::Leave(RollbackProgress { files_done: 3, files_total: 3, chunks_done: 1 })
    );
    assert_eq!(
        s.report,
        RollbackReport { files_written: 1, files_deleted: 1, chunks_restored: 1 }
    );
}

#[test]
fn rollback_policies_keep_and_skip() {
    let options = RollbackOptions {
        keep_post_snapshot_files: true,
        keep_tombstoned_chunks: true,
        on_missing_blob: MissingBlobPolicy::SkipChunk,
        ..strict()
    };
    let s = rollback_start(1);
    let (_, a) = rollback_step(&s, RollbackEvent::Blob { found: false }, &options);
    assert_eq!(a, RollbackAction::SkipChunk);
    let (_, a) = rollback_step(&s, region(true, true, true, true), &options);
    assert_eq!(a, RollbackAction::Rebuild { merge_live: true });
    let (t, a) = rollback_step(&s, region(true, false, false, true), &options);
    assert_eq!(
        a,
        RollbackAction::Leave(RollbackProgress { files_done: 1, files_total: 1, chunks_done: 0 })
    );
    assert_eq!(t.report.files_deleted, 0);
}

fn key(dim: i32, kind: i32, rx: i32, rz: i32) -> RegionKey {
    RegionKey { dim, kind, rx, rz }
}

#[test]
fn region_keys_are_a_sorted_union() {
    let keys = region_keys(
        &[key(0, 0, 1, 0), key(-1, 0, 0, 0)],
        &[key(0, 0, 0, 5), key(0, 0, 1, 0)],
        &[key(0, 1, -3, 0), key(-1, 0, 0, 0)],
    );
    assert_eq!(
        keys,
        vec![key(-1, 0, 0, 0), key(0, 0, 0, 5), key(0, 0, 1, 0), key(0, 1, -3, 0)]
    );
    assert!(region_keys(&[], &[], &[]).is_empty());
}

#[test]
fn ingest_tally_counts_outcomes() {
    let groups = vec![vec![0, 2], vec![1]];
    let t = ingest_start(&groups).unwrap();
    assert_eq!(t, IngestTally { files_done: 0, files_total: 3, chunks_done: 0, new_blobs: 0 });
    let (t, p) = ingest_step(&t, 40, 3);
    assert_eq!(p, BackupProgress { files_done: 1, files_total: 3, chunks_done: 40 });
    let (t, p) = ingest_step(&t, 2, 0);
    assert_eq!(p, BackupProgress { files_done: 2, files_total: 3, chunks_done: 42 });
    assert_eq!(t.new_blobs, 3);
}

#[test]
fn diff_outcomes_choose_their_rendering() {
    assert!(needs_enumeration(true, 4));
    assert!(needs_enumeration(false, 0));
    assert!(!needs_enumeration(false, 2));
    assert_eq!(diff_output(1, &[false], true), DiffOutput::SingleJson);
    assert_eq!(diff_output(1, &[false], false), DiffOutput::SingleHuman);
    assert_eq!(diff_output(3, &[false, true, false], true), DiffOutput::GroupedJson);
    assert_eq!(diff_output(3, &[false, false, false], false), DiffOutput::NothingFound);
    assert_eq!(diff_output(0, &[], false), DiffOutput::NothingFound);
    assert_eq!(diff_output(2, &[false, true], false), DiffOutput::GroupedHuman);
    assert_eq!(nonempty_diffs(&[true, false, true]), vec![0, 2]);
}

#[test]
fn renders_grouped_diffs() {
    let diffs = vec![
        ChunkDiffView {
            dim: "overworld".to_owned(),
            kind: "region".to_owned(),
            x: 1,
            z: -2,
            entries: vec![NbtDiffEntry {
                path: "xPos".to_owned(),
                change: NbtChange::Added("3".to_owned()),
            }],
        },
        ChunkDiffView {
            dim: "nether".to_owned(),
            kind: "entities".to_owned(),
            x: 0,
            z: 0,
            entries: vec![NbtDiffEntry {
                path: "old".to_owned(),
                change: NbtChange::Removed("1b".to_owned()),
            }],
        },
    ];
    assert_eq!(
        render_diff_grouped(&diffs, true, Styler::disabled()),
        "chunk overworld/region (1, -2):\n+ xPos: 3\nchunk nether/entities (0, 0):\n- old: 1b"
    );
    assert_eq!(
        render_diff_grouped(&diffs[..1], false, Styler::enabled()),
        "\x1b[1mchunk overworld/region (1, -2):\x1b[0m\n\x1b[32m+\x1b[0m xPos"
    );
}

#[test]
fn json_escape_reads_back() {
    let text = "a\"b\\c\nd\u{1}e";
    let escaped = json_escape(text);
    assert_eq!(escaped, "a\\\"b\\\\c\\nd\\u0001e");
    let parsed: String = serde_json::from_str(&format!("\"{escaped}\"")).unwrap();
    assert_eq!(parsed, text);
}
