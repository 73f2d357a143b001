//! The commands of the program and their arguments.

use vstd::prelude::*;

verus! {

/// The parsed command line: one subcommand.
pub struct WeaveCommand {
    pub command: Commands,
}

/// The subcommands.
pub enum Commands {
    /// Create a new project with the interactive wizard.
    Init(InitArgs),
    /// Update the cached template to the latest version.
    Update(UpdateArgs),
    /// Show the template cache and version.
    Info,
}

/// Arguments of `init`.
pub struct InitArgs {
    /// Project name; without one the current directory is scaffolded, named
    /// after the directory.
    pub project_name: Option<String>,
    /// A local template directory, used instead of a GitHub release.
    pub source: Option<String>,
    /// A template version tag; the latest release when absent.
    pub version: Option<String>,
    /// A weave.toml whose selections replace the wizard.
    pub config: Option<String>,
    /// The directory in which the project is created.
    pub output: Option<String>,
    /// Do not run `bun install` after scaffolding.
    pub skip_install: bool,
    /// Do not initialize a git repository.
    pub skip_git: bool,
}

/// Arguments of `update`.
pub struct UpdateArgs {
    /// Download again even when the cache is up to date.
    pub force: bool,
}

} // verus!
