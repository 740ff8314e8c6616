//! Output settings: how reports are written and where, resolved from the
//! command line and the selected profile.
use vstd::prelude::*;

verus! {

/// How much detail human output carries.
#[derive(Clone, Copy, Debug, PartialEq, Eq, Structural)]
pub enum FieldDetail {
    /// Full multiline details for human output.
    Full,
    /// Compact one-line details for human output.
    Compact,
}

/// The kind of output.
#[derive(Clone, Copy, Debug, PartialEq, Eq, Structural)]
pub enum FormatKind {
    /// Human textual output.
    Human,
    /// Per-record JSON output.
    Json,
}

/// Where output is written.
#[derive(Clone, Debug, PartialEq, Eq)]
pub enum OutputTarget {
    /// The standard output stream.
    Stdout,
    /// A file, appended to.
    File(String),
}

/// The resolved output settings.
#[derive(Clone, Debug, PartialEq, Eq)]
pub struct TracingSetup {
    pub format: FormatKind,
    pub detail: FieldDetail,
    pub target: OutputTarget,
}

impl FieldDetail {
    /// The default detail: full.
    pub fn default() -> (r: FieldDetail)
        ensures
            r == FieldDetail::Full,
    {
        FieldDetail::Full
    }
}

impl FormatKind {
    /// The default format: human.
    pub fn default() -> (r: FormatKind)
        ensures
            r == FormatKind::Human,
    {
        FormatKind::Human
    }
}

/// The first of two options that holds a value.
pub open spec fn first_some<T>(a: Option<T>, b: Option<T>) -> Option<T> {
    match a {
        Some(x) => Some(x),
        None => b,
    }
}

/// The output settings: a command-line choice wins over the profile's,
/// which wins over the default (human format, full detail, standard output).
pub open spec fn spec_setup(
    cli_format: Option<FormatKind>,
    cli_detail: Option<FieldDetail>,
    cli_output: Option<String>,
    profile_format: Option<FormatKind>,
    profile_detail: Option<FieldDetail>,
    profile_output: Option<String>,
) -> TracingSetup {
    TracingSetup {
        format: match first_some(cli_format, profile_format) {
            Some(f) => f,
            None => FormatKind::Human,
        },
        detail: match first_some(cli_detail, profile_detail) {
            Some(d) => d,
            None => FieldDetail::Full,
        },
        target: match first_some(cli_output, profile_output) {
            Some(path) => OutputTarget::File(path),
            None => OutputTarget::Stdout,
        },
    }
}

/// Resolves the output settings: a command-line choice wins over the
/// profile's, which wins over the default (human format, full detail,
/// standard output).
pub fn setup_tracing(
    cli_format: Option<FormatKind>,
    cli_detail: Option<FieldDetail>,
    cli_output: Option<String>,
    profile_format: Option<FormatKind>,
    profile_detail: Option<FieldDetail>,
    profile_output: Option<String>,
) -> (r: TracingSetup)
    ensures
        r == spec_setup(cli_format, cli_detail, cli_output, profile_format, profile_detail, profile_output),
{
    let format = match cli_format {
        Some(f) => f,
        None => match profile_format {
            Some(f) => f,
            None => FormatKind::default(),
        },
    };
    let detail = match cli_detail {
        Some(d) => d,
        None => match profile_detail {
            Some(d) => d,
            None => FieldDetail::default(),
        },
    };
    let target = match cli_output {
        Some(path) => OutputTarget::File(path),
        None => match profile_output {
            Some(path) => OutputTarget::File(path),
            None => OutputTarget::Stdout,
        },
    };
    TracingSetup { format, detail, target }
}

} // verus!
