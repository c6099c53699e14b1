//! The command-line surface of the tool, as plain data. Argument
//! parsing itself happens outside the library; these types carry the
//! parsed values in.

use vstd::prelude::*;

verus! {

/// The one subcommand: run the full matrix over the configured sources
/// and record a snapshot.
#[derive(Debug, Clone)]
pub struct StatSubcommand {
    pub repo_url: Option<String>,
    pub file: Option<String>,
    pub skip_install: bool,
    pub skip_update: bool,
}

#[derive(Debug, Clone)]
pub enum MoonBuildDashBoardSubcommands {
    Stat(StatSubcommand),
}

#[derive(Debug, Clone)]
pub struct MoonBuildDashBoardCli {
    pub subcommand: MoonBuildDashBoardSubcommands,
}

} // verus!
