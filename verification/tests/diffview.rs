use sekai::diffview::{render_diff_entries, render_diff_human, NbtChange, NbtDiffEntry};
use sekai::style::Styler;

fn sample_diffs() -> Vec<NbtDiffEntry> {
    vec![
        NbtDiffEntry {
            path: "Status".to_owned(),
            change: NbtChange::Modified {
                old: "\"minecraft:full\"".to_owned(),
                new: "\"minecraft:empty\"".to_owned(),
            },
        },
        NbtDiffEntry {
            path: "xPos".to_owned(),
            change: NbtChange::Added("3".to_owned()),
        },
        NbtDiffEntry {
            path: "old_tag".to_owned(),
            change: NbtChange::Removed("1b".to_owned()),
        },
    ]
}

#[test]
fn renders_diff_human_without_and_with_values() {
    assert_eq!(
        render_diff_human(10, -5, &sample_diffs(), false, Styler::disabled()),
        "~ Status\n+ xPos\n- old_tag"
    );
    assert_eq!(
        render_diff_human(10, -5, &sample_diffs(), true, Styler::disabled()),
        "~ Status: \"minecraft:full\" -> \"minecraft:empty\"\n+ xPos: 3\n- old_tag: 1b"
    );
}

#[test]
fn diff_render_truncates_huge_values() {
    let big = format!("\"{}\"", "x".repeat(600));
    let diffs = vec![NbtDiffEntry {
        path: "blob".to_owned(),
        change: NbtChange::Added(big),
    }];
    let rendered = render_diff_human(0, 0, &diffs, true, Styler::disabled());
    assert!(rendered.starts_with("+ blob: \"xxx"));
    assert!(rendered.ends_with("..."));
}

#[test]
fn renders_diff_human_without_values() {
    assert_eq!(
        render_diff_human(10, -5, &sample_diffs(), false, Styler::disabled()),
        "~ Status\n+ xPos\n- old_tag"
    );
}

#[test]
fn renders_diff_human_with_values() {
    assert_eq!(
        render_diff_human(10, -5, &sample_diffs(), true, Styler::disabled()),
        "~ Status: \"minecraft:full\" -> \"minecraft:empty\"\n+ xPos: 3\n- old_tag: 1b"
    );
}

#[test]
fn renders_diff_human_styled() {
    assert_eq!(
        render_diff_human(10, -5, &sample_diffs(), false, Styler::enabled()),
        "\x1b[33m~\x1b[0m Status\n\x1b[32m+\x1b[0m xPos\n\x1b[31m-\x1b[0m old_tag"
    );
}

#[test]
fn renders_diff_human_empty() {
    assert_eq!(
        render_diff_human(10, -5, &[], true, Styler::disabled()),
        "No differences found for chunk (10, -5)."
    );
}

#[test]
fn main_truncates_huge_values() {
    let big = format!("\"{}\"", "x".repeat(600));
    let diffs = vec![NbtDiffEntry {
        path: "blob".to_owned(),
        change: NbtChange::Added(big),
    }];
    let rendered = render_diff_human(0, 0, &diffs, true, Styler::disabled());
    assert!(rendered.starts_with("+ blob: \"xxx"));
    assert!(rendered.ends_with("..."));
    assert_eq!(
        rendered.chars().count(),
        "+ blob: ".len() + 500 + "...".len()
    );
}

#[test]
fn paths_are_never_cut_and_modified_values_are_cut_together() {
    let long_path = "p".repeat(700);
    let entries = vec![NbtDiffEntry {
        path: long_path.clone(),
        change: NbtChange::Modified {
            old: "a".repeat(300),
            new: "b".repeat(300),
        },
    }];
    let rendered = render_diff_entries(&entries, true, Styler::disabled());
    let expected = format!("~ {long_path}: {} -> {}...", "a".repeat(300), "b".repeat(196));
    assert_eq!(rendered, expected);
    assert_eq!(render_diff_entries(&[], true, Styler::disabled()), "");
}
