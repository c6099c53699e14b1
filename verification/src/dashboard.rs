//! The dashboard data model: sources of work, the operation/backend matrix
//! vocabulary, and the records a finished run is folded into.

use vstd::prelude::*;

verus! {

/// One unit of work: a registry package with chosen versions, or a git
/// repository with chosen revisions. `index` is the position of the source
/// in the resolved work list; it is the only cross-reference joining a
/// source to its results.
#[derive(Debug, Clone, PartialEq, Eq, Hash)]
pub enum MooncakeSource {
    MooncakesIO { name: String, version: Vec<String>, index: usize },
    Git { url: String, rev: Vec<String>, index: usize },
}

impl MooncakeSource {
    /// The position this source claims in the resolved work list.
    pub open spec fn index_spec(&self) -> int {
        match self {
            MooncakeSource::MooncakesIO { index, .. } => *index as int,
            MooncakeSource::Git { index, .. } => *index as int,
        }
    }

    /// The declared checkout targets: versions for a registry source,
    /// revisions for a git source.
    pub open spec fn targets(&self) -> Seq<Seq<char>> {
        match self {
            MooncakeSource::MooncakesIO { version, .. } => version.deep_view(),
            MooncakeSource::Git { rev, .. } => rev.deep_view(),
        }
    }

    pub fn get_index(&self) -> (i: usize)
        ensures
            i == self.index_spec(),
    {
        match self {
            MooncakeSource::MooncakesIO { index, .. } => *index,
            MooncakeSource::Git { index, .. } => *index,
        }
    }
}

/// A compilation backend of the toolchain.
#[derive(Debug, Clone, Copy, PartialEq, Eq, Structural)]
pub enum Backend {
    Wasm,
    WasmGC,
    Js,
}

impl Backend {
    /// The backend-selection flag value passed to the toolchain.
    pub open spec fn flag_spec(&self) -> Seq<char> {
        match self {
            Backend::Wasm => "wasm"@,
            Backend::WasmGC => "wasm-gc"@,
            Backend::Js => "js"@,
        }
    }

    pub fn to_flag(&self) -> (r: &str)
        ensures
            r@ == self.flag_spec(),
    {
        match self {
            Backend::Wasm => "wasm",
            Backend::WasmGC => "wasm-gc",
            Backend::Js => "js",
        }
    }
}

/// One cell of the operation matrix: an operation pinned to a backend.
#[derive(Debug, Clone, Copy, PartialEq, Eq, Structural)]
pub enum MoonCommand {
    Check(Backend),
    Build(Backend),
    Test(Backend),
}

impl MoonCommand {
    /// The exact argument list handed to the toolchain for this cell.
    pub open spec fn args_spec(&self) -> Seq<Seq<char>> {
        match self {
            MoonCommand::Check(backend) => seq![
                "check"@,
                "-q"@,
                "--target"@,
                backend.flag_spec(),
            ],
            MoonCommand::Build(backend) => seq![
                "build"@,
                "-q"@,
                "--target"@,
                backend.flag_spec(),
            ],
            MoonCommand::Test(backend) => seq![
                "test"@,
                "-q"@,
                "--build-only"@,
                "--target"@,
                backend.flag_spec(),
            ],
        }
    }

    pub fn args(&self) -> (r: Vec<&str>)
        ensures
            r.deep_view() == self.args_spec(),
    {
        let r: Vec<&str> = match self {
            MoonCommand::Check(backend) => vec!["check", "-q", "--target", backend.to_flag()],
            MoonCommand::Build(backend) => vec!["build", "-q", "--target", backend.to_flag()],
            MoonCommand::Test(backend) => {
                vec!["test", "-q", "--build-only", "--target", backend.to_flag()]
            },
        };
        proof {
            assert(r.deep_view() =~= self.args_spec());
        }
        r
    }
}

/// The release track of the toolchain a channel pass ran against.
#[derive(Debug, Clone, Copy, PartialEq, Eq, Structural)]
pub enum ToolChainLabel {
    Stable,
    Bleeding,
}

/// The toolchain identity captured once per channel, before any source runs.
#[derive(Debug, Clone, PartialEq)]
pub struct ToolChainVersion {
    pub label: ToolChainLabel,
    pub moon_version: String,
    pub moonc_version: String,
}

/// Pass/fail of one external command. Cell failures are data, never errors.
#[derive(Debug, Clone, Copy, PartialEq, Eq, Structural)]
pub enum Status {
    Success,
    Failure,
}

/// The outcome of one external command: whether it exited successfully,
/// when it started, and how long it ran (in milliseconds; `0` when the
/// command never started).
#[derive(Debug, Clone, PartialEq)]
pub struct ExecuteResult {
    pub status: Status,
    pub start_time: String,
    pub elapsed: u64,
}

/// Three outcomes of the same operation, one per backend.
#[derive(Debug, Clone, PartialEq)]
pub struct BackendState {
    pub wasm: ExecuteResult,
    pub wasm_gc: ExecuteResult,
    pub js: ExecuteResult,
}

/// One working directory's full matrix outcome: check, build and test,
/// each across all backends.
#[derive(Debug, Clone, PartialEq)]
pub struct CBT {
    pub check: BackendState,
    pub build: BackendState,
    pub test: BackendState,
}

/// One source's results for one channel: one entry per declared
/// revision/version, in declared order. `None` records a checkout that
/// failed before any matrix cell could run.
#[derive(Debug, Clone, PartialEq)]
pub struct BuildState {
    pub source: usize,
    pub cbts: Vec<Option<CBT>>,
}

/// The immutable top-level snapshot of one complete run.
#[derive(Debug, Clone, PartialEq)]
pub struct MoonBuildDashboard {
    pub run_id: String,
    pub run_number: String,
    pub start_time: String,
    pub sources: Vec<MooncakeSource>,
    pub stable_toolchain_version: ToolChainVersion,
    pub stable_release_data: Vec<BuildState>,
    pub bleeding_toolchain_version: ToolChainVersion,
    pub bleeding_release_data: Vec<BuildState>,
}

} // verus!
