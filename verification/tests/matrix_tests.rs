use moon_dashboard::MoonCommand as RootCommand;
use moon_dashboard::dashboard::Backend;
use moon_dashboard::dashboard::ExecuteResult;
use moon_dashboard::dashboard::MoonCommand;
use moon_dashboard::dashboard::Status;
use moon_dashboard::matrix::matrix_commands;
use moon_dashboard::matrix::run_matrix;
use moon_dashboard::matrix::stat_mooncake;
use moon_dashboard::matrix::CommandOutcome;

#[test]
fn backend_flags() {
    assert_eq!(Backend::Wasm.to_flag(), "wasm");
    assert_eq!(Backend::WasmGC.to_flag(), "wasm-gc");
    assert_eq!(Backend::Js.to_flag(), "js");
}

#[test]
fn command_args_are_exact() {
    assert_eq!(
        MoonCommand::Check(Backend::Wasm).args(),
        vec!["check", "-q", "--target", "wasm"]
    );
    assert_eq!(
        MoonCommand::Build(Backend::WasmGC).args(),
        vec!["build", "-q", "--target", "wasm-gc"]
    );
    assert_eq!(
        MoonCommand::Test(Backend::Js).args(),
        vec!["test", "-q", "--build-only", "--target", "js"]
    );
}

#[test]
fn root_command_args_are_exact() {
    assert_eq!(RootCommand::Check.args(), vec!["check", "-q"]);
    assert_eq!(RootCommand::Build.args(), vec!["build", "-q"]);
    assert_eq!(RootCommand::Test.args(), vec!["test", "-q", "--build-only"]);
    assert_eq!(RootCommand::Bundle.args(), vec!["bundle", "-q"]);
}

#[test]
fn matrix_order_is_check_build_test_by_backend() {
    // Record the invocation order as a test double of the external
    // toolchain would see it.
    let mut recorded: Vec<Vec<String>> = Vec::new();
    for cmd in matrix_commands() {
        recorded.push(cmd.args().iter().map(|a| a.to_string()).collect());
    }
    let expect: Vec<Vec<&str>> = vec![
        vec!["check", "-q", "--target", "wasm"],
        vec!["check", "-q", "--target", "wasm-gc"],
        vec!["check", "-q", "--target", "js"],
        vec!["build", "-q", "--target", "wasm"],
        vec!["build", "-q", "--target", "wasm-gc"],
        vec!["build", "-q", "--target", "js"],
        vec!["test", "-q", "--build-only", "--target", "wasm"],
        vec!["test", "-q", "--build-only", "--target", "wasm-gc"],
        vec!["test", "-q", "--build-only", "--target", "js"],
    ];
    assert_eq!(recorded.len(), expect.len());
    for (got, want) in recorded.iter().zip(expect.iter()) {
        let want: Vec<String> = want.iter().map(|a| a.to_string()).collect();
        assert_eq!(got, &want);
    }
}

#[test]
fn success_iff_exit_code_zero() {
    let ok = stat_mooncake(
        CommandOutcome::Ran { exit_zero: true, elapsed_ms: 42 },
        "t0".to_string(),
    );
    assert_eq!(ok.status, Status::Success);
    assert_eq!(ok.elapsed, 42);
    assert_eq!(ok.start_time, "t0");

    let failed = stat_mooncake(
        CommandOutcome::Ran { exit_zero: false, elapsed_ms: 17 },
        "t1".to_string(),
    );
    assert_eq!(failed.status, Status::Failure);
    // The partial duration is recorded even though the command failed.
    assert_eq!(failed.elapsed, 17);

    let never_ran = stat_mooncake(CommandOutcome::NotStarted, "t2".to_string());
    assert_eq!(never_ran.status, Status::Failure);
    assert_eq!(never_ran.elapsed, 0);
}

fn result_with_elapsed(elapsed: u64) -> ExecuteResult {
    ExecuteResult {
        status: Status::Success,
        start_time: "t".to_string(),
        elapsed,
    }
}

#[test]
fn matrix_cells_keep_their_positions() {
    let results: Vec<ExecuteResult> = (0..9).map(result_with_elapsed).collect();
    let cbt = run_matrix(results);
    assert_eq!(cbt.check.wasm.elapsed, 0);
    assert_eq!(cbt.check.wasm_gc.elapsed, 1);
    assert_eq!(cbt.check.js.elapsed, 2);
    assert_eq!(cbt.build.wasm.elapsed, 3);
    assert_eq!(cbt.build.wasm_gc.elapsed, 4);
    assert_eq!(cbt.build.js.elapsed, 5);
    assert_eq!(cbt.test.wasm.elapsed, 6);
    assert_eq!(cbt.test.wasm_gc.elapsed, 7);
    assert_eq!(cbt.test.js.elapsed, 8);
}

#[test]
fn all_successful_commands_give_an_all_success_matrix() {
    let mut results: Vec<ExecuteResult> = Vec::new();
    for _ in 0..9 {
        results.push(stat_mooncake(
            CommandOutcome::Ran { exit_zero: true, elapsed_ms: 5 },
            "t".to_string(),
        ));
    }
    let cbt = run_matrix(results);
    for row in [&cbt.check, &cbt.build, &cbt.test] {
        for cell in [&row.wasm, &row.wasm_gc, &row.js] {
            assert_eq!(cell.status, Status::Success);
        }
    }
}
