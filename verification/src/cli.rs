//! The command line of the `dioxus-showcase` tool, as plain data.
use vstd::prelude::*;

verus! {

/// Parsed command-line arguments.
#[derive(Debug, Clone, PartialEq, Eq, Default)]
pub struct Cli {
    pub command: Option<Command>,
}

/// The subcommands.
#[derive(Debug, Clone, PartialEq, Eq)]
pub enum Command {
    Init,
    Dev,
    Build(BuildArgs),
    /// Build a deployable static website of the showcased components.
    Export(ExportArgs),
    Check,
    Doctor,
}

/// Options of `build`.
#[derive(Debug, Clone, PartialEq, Eq, Default)]
pub struct BuildArgs {
    /// Rebuild showcase artifacts when annotated component sources change.
    pub watch: bool,
}

/// Options of `export`.
#[derive(Debug, Clone, PartialEq, Eq, Default)]
pub struct ExportArgs {
    /// Directory to write the static site into (default: `<build.out_dir>/site`).
    pub out_dir: Option<String>,
    /// Public sub-path the site is served from, e.g. `/my-repo` (default: `build.base_path`).
    pub base_path: Option<String>,
    /// Build the site in debug mode instead of release.
    pub debug: bool,
}

} // verus!
