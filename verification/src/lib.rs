//! A verified core for a toolchain compatibility dashboard: it resolves
//! package-source descriptions into an indexed work list, folds the timed
//! outcomes of an external toolchain's check/build/test matrix into immutable
//! per-source records, and assembles the final two-channel snapshot.
//!
//! All process spawning, file reading and network fetching live outside this
//! crate; the functions here take the observed outcomes as plain values and
//! are verified to aggregate them faithfully.

use vstd::prelude::*;

pub mod aggregate;
pub mod cli;
pub mod dashboard;
pub mod matrix;
pub mod mooncakesio;
pub mod resolver;
pub mod strutil;

verus! {

/// A single record of one toolchain invocation, as kept by an earlier
/// flat-file layout of the dashboard data.
#[derive(Debug, Clone)]
pub struct Statistics {
    pub repo: String,
    pub rev: String,
    pub command: MoonCommand,
    pub moon_version: String,
    pub moonc_version: String,
    pub status: i32,
    pub elapsed: Option<u64>,
    pub start_time: String,
    pub run_id: String,
    pub run_number: String,
}

/// A toolchain operation without a backend selector.
#[derive(Debug, Clone, Copy, PartialEq, Eq, Structural)]
pub enum MoonCommand {
    Check,
    Build,
    Test,
    Bundle,
}

impl MoonCommand {
    /// The exact argument list handed to the toolchain for this operation.
    pub open spec fn args_spec(&self) -> Seq<Seq<char>> {
        match self {
            MoonCommand::Check => seq!["check"@, "-q"@],
            MoonCommand::Build => seq!["build"@, "-q"@],
            MoonCommand::Test => seq!["test"@, "-q"@, "--build-only"@],
            MoonCommand::Bundle => seq!["bundle"@, "-q"@],
        }
    }

    pub fn args(&self) -> (r: Vec<&str>)
        ensures
            r.deep_view() == self.args_spec(),
    {
        let r: Vec<&str> = match self {
            MoonCommand::Check => vec!["check", "-q"],
            MoonCommand::Build => vec!["build", "-q"],
            MoonCommand::Test => vec!["test", "-q", "--build-only"],
            MoonCommand::Bundle => vec!["bundle", "-q"],
        };
        proof {
            assert(r.deep_view() =~= self.args_spec());
        }
        r
    }
}

} // verus!
