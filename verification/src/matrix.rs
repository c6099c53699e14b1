//! The operation/backend matrix: the fixed command grid one working
//! directory is run through, and the folding of observed command
//! outcomes into matrix cells.

use vstd::prelude::*;

verus! {

use crate::dashboard::Backend;
use crate::dashboard::BackendState;
use crate::dashboard::ExecuteResult;
use crate::dashboard::MoonCommand;
use crate::dashboard::Status;
use crate::dashboard::CBT;

/// What the caller observed of one external toolchain command: the
/// process never started, or it ran to some exit with a measured
/// duration in milliseconds.
#[derive(Debug, Clone, Copy, PartialEq, Eq, Structural)]
pub enum CommandOutcome {
    NotStarted,
    Ran { exit_zero: bool, elapsed_ms: u64 },
}

/// The status a cell records: success exactly when the command ran and
/// exited with code zero.
pub open spec fn outcome_status(o: CommandOutcome) -> Status {
    match o {
        CommandOutcome::Ran { exit_zero, elapsed_ms } => if exit_zero {
            Status::Success
        } else {
            Status::Failure
        },
        CommandOutcome::NotStarted => Status::Failure,
    }
}

/// The elapsed time a cell records: the measured duration when the
/// command ran (even if it failed), and `0` when it never started.
pub open spec fn outcome_elapsed(o: CommandOutcome) -> u64 {
    match o {
        CommandOutcome::Ran { exit_zero, elapsed_ms } => elapsed_ms,
        CommandOutcome::NotStarted => 0,
    }
}

/// Fold one observed command outcome into its matrix cell: `Success`
/// iff the exit code was zero, the elapsed time always recorded.
pub fn stat_mooncake(outcome: CommandOutcome, start_time: String) -> (r: ExecuteResult)
    ensures
        r.status == outcome_status(outcome),
        r.status == Status::Success <==> (outcome matches CommandOutcome::Ran {
            exit_zero: true,
            ..
        }),
        r.elapsed == outcome_elapsed(outcome),
        r.start_time == start_time,
{
    match outcome {
        CommandOutcome::Ran { exit_zero, elapsed_ms } => {
            let status = if exit_zero {
                Status::Success
            } else {
                Status::Failure
            };
            ExecuteResult { status, start_time, elapsed: elapsed_ms }
        },
        CommandOutcome::NotStarted => ExecuteResult {
            status: Status::Failure,
            start_time,
            elapsed: 0,
        },
    }
}

/// The fixed evaluation order of the matrix: check, then build, then
/// test, and within each operation the wasm, wasm-gc and js backends,
/// in that order. The grid is never reordered.
pub open spec fn matrix_commands_spec() -> Seq<MoonCommand> {
    seq![
        MoonCommand::Check(Backend::Wasm),
        MoonCommand::Check(Backend::WasmGC),
        MoonCommand::Check(Backend::Js),
        MoonCommand::Build(Backend::Wasm),
        MoonCommand::Build(Backend::WasmGC),
        MoonCommand::Build(Backend::Js),
        MoonCommand::Test(Backend::Wasm),
        MoonCommand::Test(Backend::WasmGC),
        MoonCommand::Test(Backend::Js),
    ]
}

/// The matrix command list, in evaluation order.
pub fn matrix_commands() -> (r: Vec<MoonCommand>)
    ensures
        r@ == matrix_commands_spec(),
        r@.len() == 9,
{
    let r: Vec<MoonCommand> = vec![
        MoonCommand::Check(Backend::Wasm),
        MoonCommand::Check(Backend::WasmGC),
        MoonCommand::Check(Backend::Js),
        MoonCommand::Build(Backend::Wasm),
        MoonCommand::Build(Backend::WasmGC),
        MoonCommand::Build(Backend::Js),
        MoonCommand::Test(Backend::Wasm),
        MoonCommand::Test(Backend::WasmGC),
        MoonCommand::Test(Backend::Js),
    ];
    proof {
        assert(r@ =~= matrix_commands_spec());
    }
    r
}

/// The matrix cells assembled from the nine results, in the evaluation
/// order of `matrix_commands_spec`: positions 0 to 2 are the check row,
/// 3 to 5 the build row, 6 to 8 the test row, each row in backend order.
pub open spec fn cbt_of(results: Seq<ExecuteResult>) -> CBT {
    CBT {
        check: BackendState { wasm: results[0], wasm_gc: results[1], js: results[2] },
        build: BackendState { wasm: results[3], wasm_gc: results[4], js: results[5] },
        test: BackendState { wasm: results[6], wasm_gc: results[7], js: results[8] },
    }
}

/// Assemble one working directory's matrix outcome from its nine cell
/// results, given in the evaluation order of `matrix_commands_spec`.
pub fn run_matrix(results: Vec<ExecuteResult>) -> (r: CBT)
    requires
        results@.len() == 9,
    ensures
        r == cbt_of(results@),
{
    let ghost rs = results@;
    let mut v = results;
    let test_js = v.pop().unwrap();
    let test_wasm_gc = v.pop().unwrap();
    let test_wasm = v.pop().unwrap();
    let build_js = v.pop().unwrap();
    let build_wasm_gc = v.pop().unwrap();
    let build_wasm = v.pop().unwrap();
    let check_js = v.pop().unwrap();
    let check_wasm_gc = v.pop().unwrap();
    let check_wasm = v.pop().unwrap();
    CBT {
        check: BackendState { wasm: check_wasm, wasm_gc: check_wasm_gc, js: check_js },
        build: BackendState { wasm: build_wasm, wasm_gc: build_wasm_gc, js: build_js },
        test: BackendState { wasm: test_wasm, wasm_gc: test_wasm_gc, js: test_js },
    }
}

} // verus!
