use moon_dashboard::aggregate::build;
use moon_dashboard::aggregate::make_dashboard;
use moon_dashboard::aggregate::run_channel;
use moon_dashboard::aggregate::BuildError;
use moon_dashboard::aggregate::RevisionOutcome;
use moon_dashboard::aggregate::SourceOutcome;
use moon_dashboard::dashboard::BuildState;
use moon_dashboard::dashboard::ExecuteResult;
use moon_dashboard::dashboard::MooncakeSource;
use moon_dashboard::dashboard::Status;
use moon_dashboard::dashboard::ToolChainLabel;
use moon_dashboard::dashboard::ToolChainVersion;

fn nine_successes() -> Vec<ExecuteResult> {
    (0..9)
        .map(|i| ExecuteResult {
            status: Status::Success,
            start_time: "t".to_string(),
            elapsed: i,
        })
        .collect()
}

fn git_source(index: usize, revs: &[&str]) -> MooncakeSource {
    MooncakeSource::Git {
        url: "https://example.com/x.git".to_string(),
        rev: revs.iter().map(|r| r.to_string()).collect(),
        index,
    }
}

#[test]
fn one_cell_per_declared_revision() {
    let source = git_source(0, &["a", "b", "c"]);
    let outcome = SourceOutcome::Provisioned(vec![
        RevisionOutcome::CheckedOut(nine_successes()),
        RevisionOutcome::CheckedOut(nine_successes()),
        RevisionOutcome::CheckedOut(nine_successes()),
    ]);
    let bs = build(&source, outcome).unwrap();
    assert_eq!(bs.source, 0);
    assert_eq!(bs.cbts.len(), 3);
    assert!(bs.cbts.iter().all(|c| c.is_some()));
}

#[test]
fn failed_checkout_leaves_only_its_own_cell_absent() {
    let source = git_source(2, &["good", "bad", "alsogood"]);
    let outcome = SourceOutcome::Provisioned(vec![
        RevisionOutcome::CheckedOut(nine_successes()),
        RevisionOutcome::CheckoutFailed,
        RevisionOutcome::CheckedOut(nine_successes()),
    ]);
    let bs = build(&source, outcome).unwrap();
    assert_eq!(bs.source, 2);
    assert_eq!(bs.cbts.len(), 3);
    assert!(bs.cbts[0].is_some());
    assert!(bs.cbts[1].is_none());
    assert!(bs.cbts[2].is_some());
}

#[test]
fn clone_failure_aborts_the_source() {
    let source = git_source(0, &["a"]);
    let err = build(&source, SourceOutcome::CloneFailed).unwrap_err();
    assert_eq!(err, BuildError::CloneFailed);
}

#[test]
fn empty_revision_list_builds_an_empty_record() {
    let source = git_source(0, &[]);
    let bs = build(&source, SourceOutcome::Provisioned(vec![])).unwrap();
    assert_eq!(bs.source, 0);
    assert!(bs.cbts.is_empty());
}

#[test]
fn bad_revision_does_not_stop_the_run() {
    // A source whose single revision fails to check out yields an
    // absent cell, and the pass still works the next source.
    let sources = vec![git_source(0, &["badrev"]), git_source(1, &["good"])];
    let outcomes = vec![
        SourceOutcome::Provisioned(vec![RevisionOutcome::CheckoutFailed]),
        SourceOutcome::Provisioned(vec![RevisionOutcome::CheckedOut(nine_successes())]),
    ];
    let data = run_channel(&sources, outcomes).unwrap();
    assert_eq!(data.len(), 2);
    assert_eq!(data[0].source, 0);
    assert_eq!(data[0].cbts, vec![None]);
    assert_eq!(data[1].source, 1);
    assert!(data[1].cbts[0].is_some());
}

#[test]
fn clone_failure_aborts_the_channel_pass() {
    let sources = vec![git_source(0, &["a"]), git_source(1, &["b"])];
    let outcomes = vec![
        SourceOutcome::CloneFailed,
        SourceOutcome::Provisioned(vec![RevisionOutcome::CheckedOut(nine_successes())]),
    ];
    let err = run_channel(&sources, outcomes).unwrap_err();
    assert_eq!(err, BuildError::CloneFailed);
}

#[test]
fn dashboard_carries_its_parts() {
    let sources = vec![git_source(0, &["a"])];
    let stable = vec![BuildState { source: 0, cbts: vec![None] }];
    let bleeding = vec![BuildState { source: 0, cbts: vec![None] }];
    let d = make_dashboard(
        "id7".to_string(),
        "3".to_string(),
        "now".to_string(),
        sources.clone(),
        ToolChainVersion {
            label: ToolChainLabel::Stable,
            moon_version: "m1".to_string(),
            moonc_version: "c1".to_string(),
        },
        stable.clone(),
        ToolChainVersion {
            label: ToolChainLabel::Bleeding,
            moon_version: "m2".to_string(),
            moonc_version: "c2".to_string(),
        },
        bleeding.clone(),
    );
    assert_eq!(d.run_id, "id7");
    assert_eq!(d.run_number, "3");
    assert_eq!(d.start_time, "now");
    assert_eq!(d.sources, sources);
    assert_eq!(d.stable_toolchain_version.label, ToolChainLabel::Stable);
    assert_eq!(d.stable_release_data, stable);
    assert_eq!(d.bleeding_toolchain_version.label, ToolChainLabel::Bleeding);
    assert_eq!(d.bleeding_release_data, bleeding);
}

#[test]
fn get_index_reads_either_variant() {
    assert_eq!(git_source(5, &[]).get_index(), 5);
    let reg = MooncakeSource::MooncakesIO {
        name: "alice/pkg".to_string(),
        version: vec!["1.0.0".to_string()],
        index: 9,
    };
    assert_eq!(reg.get_index(), 9);
}
