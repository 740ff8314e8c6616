//! The commands and options the command line gives.
use vstd::prelude::*;

use crate::ident::{Prefix, ReportId, Severity};
use crate::setup::{FieldDetail, FormatKind};

verus! {

/// Output options given on the command line.
#[derive(Clone, Debug, PartialEq, Eq)]
pub struct Output {
    /// Output to the provided file.
    pub output: Option<String>,
    /// Output format kind.
    pub format: Option<FormatKind>,
    /// Output detail level for human output.
    pub detail: Option<FieldDetail>,
}

/// Severity overrides given on the command line, by target severity.
#[derive(Clone, Debug, PartialEq, Eq)]
pub struct SeverityOverrides {
    pub suppress: Vec<Prefix>,
    pub error: Vec<Prefix>,
    pub warning: Vec<Prefix>,
    pub info: Vec<Prefix>,
    pub debug: Vec<Prefix>,
    pub trace: Vec<Prefix>,
    /// Default severity for unknown report ids.
    pub unknown: Option<Severity>,
}

/// List all known report ids.
#[derive(Clone, Debug, PartialEq, Eq)]
pub struct ListCommand {
    /// Path to Cargo.toml.
    pub manifest_path: Option<String>,
    /// Scholium profile to use.
    pub profile_id: Option<String>,
    /// Output detail level for human output.
    pub detail: Option<FieldDetail>,
}

/// Explain a known report id.
#[derive(Clone, Debug, PartialEq, Eq)]
pub struct ExplainCommand {
    /// Path to Cargo.toml.
    pub manifest_path: Option<String>,
    /// Full report id in form `group::report_id`.
    pub report_id: ReportId,
}

/// Report `#[scholium::mark(...)]` annotations usage across code.
#[derive(Clone, Debug, PartialEq, Eq)]
pub struct ReportCommand {
    /// Path to Cargo.toml.
    pub manifest_path: Option<String>,
    /// Packages to report; all when none is given.
    pub packages: Vec<String>,
    /// Severity overrides.
    pub overrides: SeverityOverrides,
    /// Scholium profile to use.
    pub profile_id: Option<String>,
    pub output: Output,
}

/// Scholium commands.
#[derive(Clone, Debug, PartialEq, Eq)]
pub enum ScholiumArgs {
    /// Report `#[scholium::mark(...)]` annotations usage across code.
    Report(ReportCommand),
    /// List known report ids with their meaning.
    List(ListCommand),
    /// Explain known report ids.
    Explain(ExplainCommand),
}

} // verus!
