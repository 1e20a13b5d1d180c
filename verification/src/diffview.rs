//! Human rendering of chunk diffs. Values arrive as their SNBT text.

use vstd::prelude::*;

use crate::report::{truncate_value, truncated};
use crate::restore::joined;
use crate::style::{painted, Styler};
use crate::text::{push_signed_decimal, signed_decimal};

verus! {

/// How one NBT path changed, with values as SNBT text.
#[derive(Debug, Clone, PartialEq, Eq)]
pub enum NbtChange {
    /// The path appeared with this value.
    Added(String),
    /// The path disappeared; it held this value.
    Removed(String),
    /// The value at the path changed.
    Modified { old: String, new: String },
}

/// One changed NBT path.
#[derive(Debug, Clone, PartialEq, Eq)]
pub struct NbtDiffEntry {
    /// Dotted path of the changed tag.
    pub path: String,
    /// What changed there.
    pub change: NbtChange,
}

/// The marker of a change: `~`, `+` or `-`, in yellow, green or red.
pub open spec fn marker(change: NbtChange, on: bool) -> Seq<char> {
    match change {
        NbtChange::Added(_) => painted(on, "+"@, "32"@),
        NbtChange::Removed(_) => painted(on, "-"@, "31"@),
        NbtChange::Modified { .. } => painted(on, "~"@, "33"@),
    }
}

/// The values a change shows: the value, or `old -> new`.
pub open spec fn change_detail(change: NbtChange) -> Seq<char> {
    match change {
        NbtChange::Added(v) => v@,
        NbtChange::Removed(v) => v@,
        NbtChange::Modified { old, new } => old@ + " -> "@ + new@,
    }
}

/// One diff line: marker and path, then the (cut) values when shown.
pub open spec fn entry_line(entry: NbtDiffEntry, show_values: bool, on: bool) -> Seq<char> {
    let head = marker(entry.change, on) + " "@ + entry.path@;
    if show_values {
        head + ": "@ + truncated(change_detail(entry.change))
    } else {
        head
    }
}

/// The lines of `entries`, joined with line feeds.
pub open spec fn entry_lines(entries: Seq<NbtDiffEntry>, show_values: bool, on: bool) -> Seq<
    char,
> {
    joined(entries.map_values(|e: NbtDiffEntry| entry_line(e, show_values, on)), "\n"@)
}

/// The diff of one chunk: its lines, or a note that nothing differs.
pub open spec fn chunk_diff_text(
    cx: i32,
    cz: i32,
    entries: Seq<NbtDiffEntry>,
    show_values: bool,
    on: bool,
) -> Seq<char> {
    if entries.len() == 0 {
        "No differences found for chunk ("@ + signed_decimal(cx as int) + ", "@ + signed_decimal(
            cz as int,
        ) + ")."@
    } else {
        entry_lines(entries, show_values, on)
    }
}

fn render_entry(entry: &NbtDiffEntry, show_values: bool, style: Styler) -> (r: String)
    ensures
        r@ == entry_line(*entry, show_values, style.on()),
{
    let mut line = match &entry.change {
        NbtChange::Added(_) => style.green("+"),
        NbtChange::Removed(_) => style.red("-"),
        NbtChange::Modified { .. } => style.yellow("~"),
    };
    line.append(" ");
    line.append(entry.path.as_str());
    if show_values {
        let detail = match &entry.change {
            NbtChange::Added(v) => v.clone(),
            NbtChange::Removed(v) => v.clone(),
            NbtChange::Modified { old, new } => {
                let mut both = old.clone();
                both.append(" -> ");
                both.append(new.as_str());
                both
            },
        };
        assert(detail@ == change_detail(entry.change));
        line.append(": ");
        line.append(truncate_value(detail.as_str()).as_str());
    }
    line
}

/// Diff lines of one chunk's entries, joined with line feeds. Values are
/// shown only with `show_values`, each cut by the value limit; paths are
/// never cut.
pub fn render_diff_entries(entries: &[NbtDiffEntry], show_values: bool, style: Styler) -> (r:
    String)
    ensures
        r@ == entry_lines(entries@, show_values, style.on()),
{
    let ghost lines = entries@.map_values(
        |e: NbtDiffEntry| entry_line(e, show_values, style.on()),
    );
    let mut out = String::new();
    if entries.len() == 0 {
        assert(out@ =~= joined(lines, "\n"@));
        return out;
    }
    let first = render_entry(&entries[0], show_values, style);
    out.append(first.as_str());
    let mut i: usize = 1;
    assert(lines.take(1) =~= seq![lines[0]]);
    assert(out@ =~= joined(lines.take(1), "\n"@));
    while i < entries.len()
        invariant
            1 <= i <= entries@.len(),
            lines == entries@.map_values(|e: NbtDiffEntry| entry_line(e, show_values, style.on())),
            out@ == joined(lines.take(i as int), "\n"@),
        decreases entries@.len() - i,
    {
        out.append("\n");
        let line = render_entry(&entries[i], show_values, style);
        out.append(line.as_str());
        assert(lines.take(i + 1).drop_last() =~= lines.take(i as int));
        assert(out@ =~= joined(lines.take(i + 1), "\n"@));
        i = i + 1;
    }
    assert(lines.take(entries@.len() as int) =~= lines);
    out
}

/// Human rendering of one chunk's diff at chunk `(cx, cz)`.
pub fn render_diff_human(
    cx: i32,
    cz: i32,
    entries: &[NbtDiffEntry],
    show_values: bool,
    style: Styler,
) -> (r: String)
    ensures
        r@ == chunk_diff_text(cx, cz, entries@, show_values, style.on()),
{
    if entries.len() == 0 {
        let mut out = String::from_str("No differences found for chunk (");
        push_signed_decimal(&mut out, cx as i64);
        out.append(", ");
        push_signed_decimal(&mut out, cz as i64);
        out.append(").");
        return out;
    }
    render_diff_entries(entries, show_values, style)
}

// ---------------------------------------------------------------------------
// Diffs of several chunks
// ---------------------------------------------------------------------------
/// The diff of one chunk, its dimension and region kind as display text.
#[derive(Debug, Clone, PartialEq, Eq)]
pub struct ChunkDiffView {
    pub dim: String,
    pub kind: String,
    pub x: i32,
    pub z: i32,
    pub entries: Vec<NbtDiffEntry>,
}

/// Heading of one chunk's group: `chunk DIM/KIND (X, Z):`.
pub open spec fn group_heading(d: ChunkDiffView) -> Seq<char> {
    "chunk "@ + d.dim@ + "/"@ + d.kind@ + " ("@ + signed_decimal(d.x as int) + ", "@
        + signed_decimal(d.z as int) + "):"@
}

/// One chunk's group: its heading in bold, a line feed, its diff lines.
pub open spec fn group_text(d: ChunkDiffView, show_values: bool, on: bool) -> Seq<char> {
    painted(on, group_heading(d), "1"@) + "\n"@ + entry_lines(d.entries@, show_values, on)
}

/// Groups of several chunks, joined with line feeds.
pub open spec fn grouped_diff_text(diffs: Seq<ChunkDiffView>, show_values: bool, on: bool) -> Seq<
    char,
> {
    joined(diffs.map_values(|d: ChunkDiffView| group_text(d, show_values, on)), "\n"@)
}

fn render_group(d: &ChunkDiffView, show_values: bool, style: Styler) -> (r: String)
    ensures
        r@ == group_text(*d, show_values, style.on()),
{
    let mut heading = String::from_str("chunk ");
    heading.append(d.dim.as_str());
    heading.append("/");
    heading.append(d.kind.as_str());
    heading.append(" (");
    push_signed_decimal(&mut heading, d.x as i64);
    heading.append(", ");
    push_signed_decimal(&mut heading, d.z as i64);
    heading.append("):");
    assert(heading@ =~= group_heading(*d));
    let mut out = style.bold(heading.as_str());
    out.append("\n");
    let lines = render_diff_entries(d.entries.as_slice(), show_values, style);
    out.append(lines.as_str());
    out
}

/// Human rendering of the diffs of several chunks, grouped per chunk.
pub fn render_diff_grouped(diffs: &[ChunkDiffView], show_values: bool, style: Styler) -> (r:
    String)
    ensures
        r@ == grouped_diff_text(diffs@, show_values, style.on()),
{
    let ghost groups = diffs@.map_values(|d: ChunkDiffView| group_text(d, show_values, style.on()));
    let mut out = String::new();
    if diffs.len() == 0 {
        assert(out@ =~= joined(groups, "\n"@));
        return out;
    }
    let first = render_group(&diffs[0], show_values, style);
    out.append(first.as_str());
    let mut i: usize = 1;
    assert(groups.take(1) =~= seq![groups[0]]);
    assert(out@ =~= joined(groups.take(1), "\n"@));
    while i < diffs.len()
        invariant
            1 <= i <= diffs@.len(),
            groups == diffs@.map_values(
                |d: ChunkDiffView| group_text(d, show_values, style.on()),
            ),
            out@ == joined(groups.take(i as int), "\n"@),
        decreases diffs@.len() - i,
    {
        out.append("\n");
        let group = render_group(&diffs[i], show_values, style);
        out.append(group.as_str());
        assert(groups.take(i + 1).drop_last() =~= groups.take(i as int));
        assert(out@ =~= joined(groups.take(i + 1), "\n"@));
        i = i + 1;
    }
    assert(groups.take(diffs@.len() as int) =~= groups);
    out
}

/// Whether the chunks to diff must be enumerated from the world or the
/// snapshots: the selection holds broad areas, or names no chunk at all.
pub fn needs_enumeration(broad_areas: bool, explicit_chunks: usize) -> (r: bool)
    ensures
        r == (broad_areas || explicit_chunks == 0),
{
    broad_areas || explicit_chunks == 0
}

/// How the outcome of a diff command is printed.
#[derive(Debug, Clone, Copy, PartialEq, Eq)]
pub enum DiffOutput {
    /// One chunk was compared: its entries as a JSON array.
    SingleJson,
    /// One chunk was compared: its lines, or that nothing differs there.
    SingleHuman,
    /// Several chunks: the non-empty ones as a JSON array of groups.
    GroupedJson,
    /// Several chunks, none differs: `No differences found.`
    NothingFound,
    /// Several chunks: the non-empty ones as grouped lines.
    GroupedHuman,
}

/// How `n_diffs` compared chunks are printed, where `nonempty` tells which
/// of them differ.
pub open spec fn diff_output_spec(n_diffs: nat, nonempty: Seq<bool>, json: bool) -> DiffOutput {
    if n_diffs == 1 {
        if json {
            DiffOutput::SingleJson
        } else {
            DiffOutput::SingleHuman
        }
    } else if json {
        DiffOutput::GroupedJson
    } else if exists|i: int| 0 <= i < nonempty.len() && nonempty[i] {
        DiffOutput::GroupedHuman
    } else {
        DiffOutput::NothingFound
    }
}

/// Decides how the outcome of a diff command is printed.
pub fn diff_output(n_diffs: usize, nonempty: &[bool], json: bool) -> (r: DiffOutput)
    ensures
        r == diff_output_spec(n_diffs as nat, nonempty@, json),
        n_diffs == 1 ==> r == (if json {
            DiffOutput::SingleJson
        } else {
            DiffOutput::SingleHuman
        }),
        n_diffs != 1 && json ==> r == DiffOutput::GroupedJson,
        n_diffs != 1 && !json ==> (r == DiffOutput::NothingFound <==> forall|i: int|
            0 <= i < nonempty@.len() ==> !nonempty@[i]),
        n_diffs != 1 && !json && r != DiffOutput::NothingFound ==> r == DiffOutput::GroupedHuman,
{
    if n_diffs == 1 {
        return if json {
            DiffOutput::SingleJson
        } else {
            DiffOutput::SingleHuman
        };
    }
    if json {
        return DiffOutput::GroupedJson;
    }
    let mut i: usize = 0;
    while i < nonempty.len()
        invariant
            i <= nonempty@.len(),
            n_diffs != 1,
            !json,
            forall|j: int| 0 <= j < i ==> !nonempty@[j],
        decreases nonempty@.len() - i,
    {
        if nonempty[i] {
            assert(0 <= i < nonempty@.len() && nonempty@[i as int]);
            return DiffOutput::GroupedHuman;
        }
        i = i + 1;
    }
    DiffOutput::NothingFound
}

/// A single comparison is printed on its own, in JSON when asked; several
/// comparisons in JSON always give the grouped JSON envelope, even when no
/// chunk differs (an empty array of groups); several comparisons for humans
/// print the groups, or the plain "nothing found" line exactly when no chunk
/// differs.
pub proof fn lemma_diff_output_rules(n_diffs: nat, nonempty: Seq<bool>, json: bool)
    ensures
        n_diffs == 1 ==> diff_output_spec(n_diffs, nonempty, json) == (if json {
            DiffOutput::SingleJson
        } else {
            DiffOutput::SingleHuman
        }),
        n_diffs != 1 && json ==> diff_output_spec(n_diffs, nonempty, json)
            == DiffOutput::GroupedJson,
        n_diffs != 1 && !json ==> (diff_output_spec(n_diffs, nonempty, json)
            == DiffOutput::NothingFound <==> forall|i: int|
            0 <= i < nonempty.len() ==> !nonempty[i]),
        n_diffs != 1 && !json && (exists|i: int| 0 <= i < nonempty.len() && nonempty[i])
            ==> diff_output_spec(n_diffs, nonempty, json) == DiffOutput::GroupedHuman,
        diff_output_spec(n_diffs, nonempty, json) == DiffOutput::NothingFound ==> !json,
{
}

/// Indices of the chunks that differ, in order: the groups printed.
pub open spec fn kept_indices(nonempty: Seq<bool>, n: int) -> Seq<usize>
    decreases n,
{
    if n <= 0 {
        Seq::empty()
    } else if nonempty[n - 1] {
        kept_indices(nonempty, n - 1).push((n - 1) as usize)
    } else {
        kept_indices(nonempty, n - 1)
    }
}

/// The chunks whose diff is not empty, in order.
pub fn nonempty_diffs(nonempty: &[bool]) -> (r: Vec<usize>)
    ensures
        r@ == kept_indices(nonempty@, nonempty@.len() as int),
{
    let mut kept: Vec<usize> = Vec::new();
    let mut i: usize = 0;
    while i < nonempty.len()
        invariant
            i <= nonempty@.len(),
            kept@ == kept_indices(nonempty@, i as int),
        decreases nonempty@.len() - i,
    {
        if nonempty[i] {
            kept.push(i);
        }
        i = i + 1;
    }
    kept
}

} // verus!
