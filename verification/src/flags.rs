//! Command-line option groups shared by the subcommands.

use vstd::prelude::*;

use crate::ops::ExportOptions;
use crate::restore::{blob_policy, MissingBlobPolicy, OnMissingBlob};
use crate::style::Styler;

verus! {

/// `--timing`/`--json` pair shared by every report command except `list`.
#[derive(Debug, Clone, Copy)]
pub struct TimingArgs {
    /// Print a per-phase timing breakdown after the report.
    pub timing: bool,
    /// Emit output as JSON instead of human text.
    pub json: bool,
}

/// Output controls shared by report commands.
#[derive(Debug, Clone, Copy)]
pub struct ReportOut {
    pub timing: bool,
    pub json: bool,
    pub style: Styler,
}

impl ReportOut {
    pub fn of(output: TimingArgs, style: Styler) -> (r: Self)
        ensures
            r.timing == output.timing,
            r.json == output.json,
            r.style == style,
    {
        Self { timing: output.timing, json: output.json, style }
    }
}

/// Directory layout for `export` output.
#[derive(Debug, Clone, Copy, PartialEq, Eq)]
pub enum ExportFlavor {
    /// Single world folder (`region/`, `DIM-1/`, `DIM1/`).
    Legacy,
    /// Modern layout (`dimensions/minecraft/<name>/`).
    New,
    /// Bukkit-family split folders (`<base>/`, `<base>_nether/DIM-1/`,
    /// `<base>_the_end/DIM1/`).
    Bukkit,
}

/// `export` strategy flags.
pub struct ExportFlags {
    pub flavor: ExportFlavor,
    pub base: String,
    pub on_missing_blob: OnMissingBlob,
}

/// Export policy selected by `--on-missing-blob`.
pub fn export_options(on_missing_blob: OnMissingBlob) -> (r: ExportOptions)
    ensures
        r.on_missing_blob == blob_policy(on_missing_blob),
{
    ExportOptions {
        on_missing_blob: match on_missing_blob {
            OnMissingBlob::Abort => MissingBlobPolicy::Abort,
            OnMissingBlob::SkipChunk => MissingBlobPolicy::SkipChunk,
        },
    }
}

/// `X,Z` coordinate pair inside `--in` and `--region` specs.
#[derive(Debug, Clone, Copy, PartialEq, Eq)]
pub struct Xz {
    pub x: i32,
    pub z: i32,
}

} // verus!
