use sekai::error::AnvilError;
use sekai::flags::{export_options, ReportOut, TimingArgs};
use sekai::ops::{worker_count, ExportOptions};
use sekai::report::{
    envelope_err, envelope_ok, format_time, json_escape, render_error, render_report,
    render_time, report_envelope, truncate_value,
};
use sekai::restore::{
    keep_live_chunk, map_options, policy_summary, region_action, MissingBlobPolicy,
    MissingFilePolicy, OnMissingBlob, OnMissingFile, RegionAction, RollbackFlags,
    RollbackOptions,
};
use sekai::style::{highlight_count, resolve_color, ColorChoice, Styler};

#[test]
fn resolves_color_choice() {
    assert!(resolve_color(ColorChoice::Always, true, false));
    assert!(!resolve_color(ColorChoice::Never, false, true));
    assert!(resolve_color(ColorChoice::Auto, false, true));
    assert!(!resolve_color(ColorChoice::Auto, true, true));
    assert!(!resolve_color(ColorChoice::Auto, false, false));
}

#[test]
fn paints_exact_escapes_when_enabled() {
    let style = Styler::enabled();
    assert!(style.is_enabled());
    assert_eq!(style.red("+"), "\x1b[31m+\x1b[0m");
    assert_eq!(style.red_bold("error:"), "\x1b[1;31merror:\x1b[0m");
    assert_eq!(style.green("+"), "\x1b[32m+\x1b[0m");
    assert_eq!(style.yellow("~"), "\x1b[33m~\x1b[0m");
    assert_eq!(style.bold("3"), "\x1b[1m3\x1b[0m");
    assert_eq!(style.dim("x"), "\x1b[2mx\x1b[0m");
}

#[test]
fn passes_text_through_when_disabled_or_empty() {
    let style = Styler::disabled();
    assert!(!style.is_enabled());
    assert_eq!(style.red("+"), "+");
    assert_eq!(style.bold("3"), "3");
    assert_eq!(Styler::enabled().red(""), "");
}

#[test]
fn gc_highlight_count_emphasizes_nonzero() {
    let style = Styler::enabled();
    assert_eq!(highlight_count(style, 0), "0");
    assert_eq!(highlight_count(style, 7), "\x1b[33m7\x1b[0m");
    assert_eq!(highlight_count(Styler::disabled(), 7), "7");
}

#[test]
fn main_highlight_count_emphasizes_nonzero() {
    let style = Styler::enabled();
    assert_eq!(highlight_count(style, 0), "0");
    assert_eq!(highlight_count(style, 7), "\x1b[33m7\x1b[0m");
    assert_eq!(highlight_count(Styler::disabled(), 7), "7");
}

#[test]
fn styler_follows_choice_and_terminal() {
    assert!(Styler::from_tty(ColorChoice::Auto, false, true).is_enabled());
    assert!(!Styler::from_tty(ColorChoice::Auto, true, true).is_enabled());
    assert!(Styler::from_tty(ColorChoice::Always, true, false).is_enabled());
    assert_eq!(ColorChoice::default(), ColorChoice::Auto);
    assert_eq!(highlight_count(Styler::enabled(), 1234), "\x1b[33m1234\x1b[0m");
}

fn chained(root: &str, context: &str) -> anyhow::Error {
    anyhow::Error::msg(root.to_owned()).context(context.to_owned())
}

#[test]
fn main_renders_error_with_chain() {
    let err = chained("torn tail at sector 1034", "backup of /w failed");
    assert_eq!(
        render_error(&err, Styler::enabled()),
        "\x1b[1;31merror\x1b[0m: backup of /w failed\n\nCaused by:\n    torn tail at sector 1034"
    );
    assert_eq!(
        render_error(&err, Styler::disabled()),
        "error: backup of /w failed\n\nCaused by:\n    torn tail at sector 1034"
    );
}

#[test]
fn envelope_renders_error_with_chain() {
    let err = chained("torn tail at sector 1034", "backup of /w failed");
    assert_eq!(
        render_error(&err, Styler::enabled()),
        "\x1b[1;31merror\x1b[0m: backup of /w failed\n\nCaused by:\n    torn tail at sector 1034"
    );
    assert_eq!(
        render_error(&err, Styler::disabled()),
        "error: backup of /w failed\n\nCaused by:\n    torn tail at sector 1034"
    );
}

#[test]
fn renders_reports_line_by_line() {
    let plain = Styler::disabled();
    assert_eq!(render_report("", plain), "error");
    assert_eq!(render_report("one", plain), "error: one");
    assert_eq!(render_report("one\n", plain), "error: one");
    assert_eq!(render_report("one\r\ntwo\r", plain), "error: one\ntwo\r");
    assert_eq!(render_report("a\n\nb\n\n", plain), "error: a\n\nb\n");
    assert_eq!(render_report("\n", Styler::enabled()), "\x1b[1;31merror\x1b[0m: ");
}

#[test]
fn escapes_json_paths() {
    assert_eq!(json_escape("a\"b\\c"), "a\\\"b\\\\c");
}

#[test]
fn escapes_json_control_characters() {
    assert_eq!(json_escape("a\nb\rc\td"), "a\\nb\\rc\\td");
    assert_eq!(json_escape("\u{1}\u{1f}\u{7f}é"), "\\u0001\\u001f\u{7f}é");
    assert_eq!(json_escape(""), "");
}

#[test]
fn main_renders_json_envelopes() {
    assert_eq!(
        envelope_ok("list", "[1,2]"),
        r#"{"command":"list","status":"ok","result":[1,2]}"#
    );
    let err = chained("root cause", "backup of /w failed");
    assert_eq!(
        envelope_err("backup", &err),
        r#"{"command":"backup","status":"error","error":"backup of /w failed\n\nCaused by:\n    root cause"}"#
    );
}

#[test]
fn envelope_renders_json_envelopes() {
    let result = serde_json::to_string(&[1, 2]).unwrap();
    assert_eq!(
        envelope_ok("list", &result),
        r#"{"command":"list","status":"ok","result":[1,2]}"#
    );
    let err = chained("root cause", "backup of /w failed");
    assert_eq!(
        envelope_err("backup", &err),
        r#"{"command":"backup","status":"error","error":"backup of /w failed\n\nCaused by:\n    root cause"}"#
    );
}

#[test]
fn list_formats_times() {
    assert_eq!(format_time(0), "1970-01-01T00:00:00+00:00");
    assert_eq!(format_time(u64::MAX), format!("{}ms", u64::MAX));
}

#[test]
fn wraps_reports_in_error_documents() {
    assert_eq!(
        report_envelope("gc", "bad \"blob\""),
        r#"{"command":"gc","status":"error","error":"bad \"blob\""}"#
    );
}

#[test]
fn truncate_value_cuts_long_text() {
    let big = "x".repeat(600);
    let cut = truncate_value(&big);
    assert_eq!(cut.chars().count(), 503);
    assert!(cut.ends_with("..."));
    assert_eq!(truncate_value("short"), "short");
    let exact = "é".repeat(500);
    assert_eq!(truncate_value(&exact), exact);
}

#[test]
fn main_formats_times() {
    assert_eq!(format_time(0), "1970-01-01T00:00:00+00:00");
    assert_eq!(format_time(u64::MAX), format!("{}ms", u64::MAX));
}

#[test]
fn renders_times_from_calendar_or_millis() {
    assert_eq!(render_time(5, Some("t".to_owned())), "t");
    assert_eq!(render_time(1700000000000, None), "1700000000000ms");
}

fn flags(
    files: bool,
    chunks: bool,
    tombstones: bool,
    blob: OnMissingBlob,
    file: OnMissingFile,
) -> RollbackFlags {
    RollbackFlags {
        keep_post_snapshot_files: files,
        keep_post_snapshot_chunks: chunks,
        keep_tombstoned_chunks: tombstones,
        on_missing_blob: blob,
        on_missing_file: file,
    }
}

#[test]
fn summarizes_restore_policy() {
    let strict = flags(false, false, false, OnMissingBlob::Abort, OnMissingFile::SiblingFirst);
    assert_eq!(policy_summary(&strict), "strict");
    let lenient = flags(true, false, true, OnMissingBlob::SkipChunk, OnMissingFile::Error);
    assert_eq!(
        policy_summary(&lenient),
        "keep files, keep tombstones, skip missing blobs, missing-file error"
    );
    let derived = flags(false, true, false, OnMissingBlob::Abort, OnMissingFile::DerivedOnly);
    assert_eq!(policy_summary(&derived), "keep chunks, derived-only");
}

#[test]
fn maps_strategy_flags_to_options() {
    let strict = flags(false, false, false, OnMissingBlob::Abort, OnMissingFile::SiblingFirst);
    assert_eq!(map_options(&strict), RollbackOptions::default());
    let lenient = flags(true, true, true, OnMissingBlob::SkipChunk, OnMissingFile::Error);
    assert_eq!(
        map_options(&lenient),
        RollbackOptions {
            keep_post_snapshot_files: true,
            keep_post_snapshot_chunks: true,
            keep_tombstoned_chunks: true,
            on_missing_blob: MissingBlobPolicy::SkipChunk,
            on_missing_file: MissingFilePolicy::Error,
        }
    );
    assert_eq!(export_options(OnMissingBlob::SkipChunk).on_missing_blob, MissingBlobPolicy::SkipChunk);
    assert_eq!(ExportOptions::default().on_missing_blob, MissingBlobPolicy::Abort);
}

#[test]
fn decides_region_and_chunk_fates() {
    let strict = RollbackOptions::default();
    assert_eq!(region_action(false, false, false, strict), RegionAction::Untouched);
    assert_eq!(region_action(true, false, false, strict), RegionAction::DeleteFile);
    assert_eq!(region_action(true, false, true, strict), RegionAction::DeleteFile);
    assert_eq!(region_action(true, true, false, strict), RegionAction::Rebuild { merge_live: false });
    let keep = RollbackOptions { keep_tombstoned_chunks: true, ..strict };
    assert_eq!(region_action(true, false, true, keep), RegionAction::KeepFile);
    assert_eq!(region_action(true, false, false, keep), RegionAction::DeleteFile);
    assert_eq!(region_action(false, true, true, keep), RegionAction::Rebuild { merge_live: true });
    assert!(!keep_live_chunk(true, true, keep));
    assert!(keep_live_chunk(false, true, keep));
    assert!(!keep_live_chunk(false, false, keep));
}

#[test]
fn report_controls_follow_flags() {
    let out = ReportOut::of(TimingArgs { timing: true, json: false }, Styler::disabled());
    assert!(out.timing);
    assert!(!out.json);
    assert!(!out.style.is_enabled());
    assert_eq!(worker_count(0, 8, 3), 3);
    assert_eq!(worker_count(2, 8, 3), 2);
    assert_eq!(worker_count(0, 0, 0), 1);
}

#[test]
fn describes_errors() {
    assert_eq!(
        AnvilError::WrongRegion { region_x: -1, region_z: 2, x: 5, z: -7 }.message(),
        "chunk (5, -7) does not belong to r.-1.2"
    );
    assert_eq!(
        AnvilError::TruncatedFile { len: 100 }.message(),
        "truncated region image: 100 bytes, need at least 8192"
    );
    assert_eq!(
        AnvilError::CorruptEntry { index: 3, offset: 9, sectors: 1 }.message(),
        "corrupt location entry 3: offset 9 sectors, 1 sectors"
    );
    assert_eq!(AnvilError::Lz4.message(), "lz4 decode failed");
    assert_eq!(
        AnvilError::BadFilename { name: "x".to_owned() }.message(),
        "bad region file name (expected r.<x>.<z>.mca): x"
    );
}

#[test]
fn escapes_backspace_and_form_feed_by_name() {
    assert_eq!(json_escape("a\u{8}b\u{c}c"), "a\\bb\\fc");
    let escaped = json_escape("\u{8}\u{c}\u{b}");
    let parsed: String = serde_json::from_str(&format!("\"{escaped}\"")).unwrap();
    assert_eq!(parsed, "\u{8}\u{c}\u{b}");
    assert_eq!(escaped, serde_json::to_string("\u{8}\u{c}\u{b}").unwrap().trim_matches('"'));
}

#[test]
fn envelopes_escape_the_command_name() {
    assert_eq!(
        envelope_ok("odd\"name", "1"),
        r#"{"command":"odd\"name","status":"ok","result":1}"#
    );
    let err = chained("root", "ctx");
    assert!(envelope_err("a\\b", &err).starts_with(r#"{"command":"a\\b","status":"error""#));
}
