//! The channel aggregator: folds the observed per-revision outcomes of
//! every source into immutable per-source records, isolating checkout
//! failures per revision, and assembles the final snapshot.

use vstd::prelude::*;

verus! {

use crate::dashboard::BuildState;
use crate::dashboard::ExecuteResult;
use crate::dashboard::MoonBuildDashboard;
use crate::dashboard::MooncakeSource;
use crate::dashboard::ToolChainVersion;
use crate::dashboard::CBT;
use crate::matrix::cbt_of;
use crate::matrix::run_matrix;

/// What the caller observed for one declared revision/version of a
/// source: the checkout failed before any cell could run, or it
/// succeeded and the nine matrix cells were collected in evaluation
/// order.
#[derive(Debug, Clone)]
pub enum RevisionOutcome {
    CheckoutFailed,
    CheckedOut(Vec<ExecuteResult>),
}

/// What the caller observed for one whole source: the initial git clone
/// failed (fatal for the source), or every declared revision/version
/// was worked through, each with its own outcome.
#[derive(Debug, Clone)]
pub enum SourceOutcome {
    CloneFailed,
    Provisioned(Vec<RevisionOutcome>),
}

/// The fatal failure of one source: its initial clone failed, so no
/// revision could be provisioned.
#[derive(Debug, Clone, Copy, PartialEq, Eq, Structural)]
pub enum BuildError {
    CloneFailed,
}

/// A revision outcome carries exactly one result per matrix cell.
pub open spec fn rev_outcome_wf(o: RevisionOutcome) -> bool {
    match o {
        RevisionOutcome::CheckedOut(results) => results@.len() == 9,
        RevisionOutcome::CheckoutFailed => true,
    }
}

pub open spec fn is_provisioned(o: SourceOutcome) -> bool {
    match o {
        SourceOutcome::Provisioned(revs) => true,
        SourceOutcome::CloneFailed => false,
    }
}

/// The per-revision outcomes of a provisioned source.
pub open spec fn revs_of(o: SourceOutcome) -> Seq<RevisionOutcome> {
    match o {
        SourceOutcome::Provisioned(revs) => revs@,
        SourceOutcome::CloneFailed => Seq::empty(),
    }
}

/// A source outcome fits its source: a provisioned outcome has one
/// entry per declared revision/version, each well-formed, and a
/// registry source is always provisioned (there is no clone to fail).
pub open spec fn source_outcome_wf(source: MooncakeSource, o: SourceOutcome) -> bool {
    &&& (is_provisioned(o) ==> {
        &&& revs_of(o).len() == source.targets().len()
        &&& forall|k: int| 0 <= k < revs_of(o).len() ==> rev_outcome_wf(#[trigger] revs_of(o)[k])
    })
    &&& (!is_provisioned(o) ==> source matches MooncakeSource::Git { .. })
}

/// The cell a revision outcome folds to: absent for a failed checkout,
/// the assembled matrix otherwise.
pub open spec fn cell_of(o: RevisionOutcome) -> Option<CBT> {
    match o {
        RevisionOutcome::CheckoutFailed => None,
        RevisionOutcome::CheckedOut(results) => Some(cbt_of(results@)),
    }
}

/// What `build` returns for a provisioned source: the source's own
/// index, and one cell per declared revision/version in declared order,
/// each determined by that revision's outcome alone.
pub open spec fn build_post(source: MooncakeSource, o: SourceOutcome, bs: BuildState) -> bool {
    &&& is_provisioned(o)
    &&& bs.source == source.index_spec()
    &&& bs.cbts@.len() == revs_of(o).len()
    &&& bs.cbts@.len() == source.targets().len()
    &&& forall|k: int| 0 <= k < revs_of(o).len() ==> bs.cbts@[k] == cell_of(#[trigger] revs_of(o)[k])
}

/// Fold one source's observed outcomes into its record. Fails exactly
/// when the initial clone failed; a failed checkout of one revision
/// only leaves that revision's cell absent.
#[verifier::loop_isolation(false)]
pub fn build(source: &MooncakeSource, outcome: SourceOutcome) -> (r: Result<
    BuildState,
    BuildError,
>)
    requires
        source_outcome_wf(*source, outcome),
    ensures
        match r {
            Ok(bs) => build_post(*source, outcome, bs),
            Err(e) => !is_provisioned(outcome) && e == BuildError::CloneFailed,
        },
        r is Ok <==> is_provisioned(outcome),
{
    let revs: Vec<RevisionOutcome> = match outcome {
        SourceOutcome::CloneFailed => {
            return Err(BuildError::CloneFailed);
        },
        SourceOutcome::Provisioned(revs) => revs,
    };
    let ghost orig = revs@;
    let mut revs = revs;
    let mut cbts: Vec<Option<CBT>> = Vec::new();
    let n = revs.len();
    let mut k: usize = 0;
    while k < n
        invariant
            0 <= k <= n,
            n == orig.len(),
            revs@ =~= orig.subrange(k as int, n as int),
            cbts@.len() == k,
            forall|j: int| 0 <= j < k ==> cbts@[j] == cell_of(#[trigger] orig[j]),
        decreases n - k,
    {
        let ro = revs.remove(0);
        proof {
            assert(ro == orig[k as int]);
            assert(revs@ =~= orig.subrange(k as int + 1, n as int));
            assert(rev_outcome_wf(orig[k as int]));
        }
        match ro {
            RevisionOutcome::CheckoutFailed => {
                cbts.push(None);
            },
            RevisionOutcome::CheckedOut(results) => {
                let cbt = run_matrix(results);
                cbts.push(Some(cbt));
            },
        }
        k = k + 1;
    }
    let index = source.get_index();
    Ok(BuildState { source: index, cbts })
}

/// Checkout-failure isolation: change one revision's outcome and only
/// that revision's cell can change; a failed checkout leaves exactly
/// its own cell absent.
pub proof fn lemma_checkout_isolation(
    source: MooncakeSource,
    o1: SourceOutcome,
    o2: SourceOutcome,
    bs1: BuildState,
    bs2: BuildState,
    k: int,
)
    requires
        build_post(source, o1, bs1),
        build_post(source, o2, bs2),
        revs_of(o1).len() == revs_of(o2).len(),
        0 <= k < revs_of(o1).len(),
        forall|j: int| 0 <= j < revs_of(o1).len() && j != k ==> revs_of(o1)[j] == revs_of(o2)[j],
    ensures
        bs1.cbts@.len() == bs2.cbts@.len(),
        forall|j: int| 0 <= j < bs1.cbts@.len() && j != k ==> bs1.cbts@[j] == bs2.cbts@[j],
        revs_of(o1)[k] is CheckoutFailed ==> bs1.cbts@[k] is None,
{
    assert forall|j: int| 0 <= j < bs1.cbts@.len() && j != k implies bs1.cbts@[j]
        == bs2.cbts@[j] by {
        assert(bs1.cbts@[j] == cell_of(revs_of(o1)[j]));
        assert(bs2.cbts@[j] == cell_of(revs_of(o2)[j]));
    }
}

/// What one channel pass produces: one record per source, each the fold
/// of that source's outcomes.
pub open spec fn channel_post(
    sources: Seq<MooncakeSource>,
    outcomes: Seq<SourceOutcome>,
    data: Seq<BuildState>,
) -> bool {
    &&& data.len() == sources.len()
    &&& forall|k: int|
        0 <= k < sources.len() ==> build_post(sources[k], outcomes[k], #[trigger] data[k])
}

/// Drive one channel pass over every source in declared order, folding
/// each source's observed outcomes into its record. A clone failure is
/// fatal: the pass stops at the first one, as the run cannot recover a
/// source without a clone. Checkout failures of single revisions are
/// data, not errors, and never stop the pass.
#[verifier::loop_isolation(false)]
pub fn run_channel(sources: &Vec<MooncakeSource>, outcomes: Vec<SourceOutcome>) -> (r: Result<
    Vec<BuildState>,
    BuildError,
>)
    requires
        outcomes@.len() == sources@.len(),
        forall|k: int|
            0 <= k < sources@.len() ==> source_outcome_wf(
                sources@[k],
                #[trigger] outcomes@[k],
            ),
    ensures
        match r {
            Ok(data) => channel_post(sources@, outcomes@, data@),
            Err(e) => {
                &&& e == BuildError::CloneFailed
                &&& exists|k: int|
                    {
                        &&& 0 <= k < outcomes@.len()
                        &&& !is_provisioned(#[trigger] outcomes@[k])
                        &&& forall|j: int| 0 <= j < k ==> is_provisioned(#[trigger] outcomes@[j])
                    }
            },
        },
        r is Ok <==> (forall|k: int|
            0 <= k < outcomes@.len() ==> is_provisioned(#[trigger] outcomes@[k])),
{
    let ghost orig = outcomes@;
    let mut outcomes = outcomes;
    let mut data: Vec<BuildState> = Vec::new();
    let n = sources.len();
    let mut k: usize = 0;
    while k < n
        invariant
            0 <= k <= n,
            n == orig.len(),
            outcomes@ =~= orig.subrange(k as int, n as int),
            data@.len() == k,
            forall|j: int|
                0 <= j < k ==> build_post(sources@[j], orig[j], #[trigger] data@[j]),
            forall|j: int| 0 <= j < k ==> is_provisioned(#[trigger] orig[j]),
        decreases n - k,
    {
        let outcome = outcomes.remove(0);
        proof {
            assert(outcome == orig[k as int]);
            assert(outcomes@ =~= orig.subrange(k as int + 1, n as int));
            assert(source_outcome_wf(sources@[k as int], orig[k as int]));
        }
        match build(&sources[k], outcome) {
            Ok(bs) => {
                data.push(bs);
            },
            Err(e) => {
                return Err(e);
            },
        }
        k = k + 1;
    }
    Ok(data)
}

/// The structural invariant of a finished snapshot: sources are indexed
/// by position, and both channels' records align with them one to one.
pub open spec fn dashboard_wf(d: MoonBuildDashboard) -> bool {
    &&& forall|i: int|
        0 <= i < d.sources@.len() ==> (#[trigger] d.sources@[i].index_spec()) == i
    &&& d.stable_release_data@.len() == d.sources@.len()
    &&& d.bleeding_release_data@.len() == d.sources@.len()
    &&& forall|i: int|
        0 <= i < d.stable_release_data@.len() ==> (#[trigger] d.stable_release_data@[i].source)
            == i
    &&& forall|i: int|
        0 <= i < d.bleeding_release_data@.len() ==> (
        #[trigger] d.bleeding_release_data@[i].source) == i
}

/// Assemble the immutable snapshot of one complete run from its parts.
/// The parts must already align: every source indexed by its position,
/// and one record per source in each channel, indexed the same way.
pub fn make_dashboard(
    run_id: String,
    run_number: String,
    start_time: String,
    sources: Vec<MooncakeSource>,
    stable_toolchain_version: ToolChainVersion,
    stable_release_data: Vec<BuildState>,
    bleeding_toolchain_version: ToolChainVersion,
    bleeding_release_data: Vec<BuildState>,
) -> (r: MoonBuildDashboard)
    requires
        forall|i: int|
            0 <= i < sources@.len() ==> (#[trigger] sources@[i].index_spec()) == i,
        stable_release_data@.len() == sources@.len(),
        bleeding_release_data@.len() == sources@.len(),
        forall|i: int|
            0 <= i < stable_release_data@.len() ==> (#[trigger] stable_release_data@[i].source)
                == i,
        forall|i: int|
            0 <= i < bleeding_release_data@.len() ==> (
            #[trigger] bleeding_release_data@[i].source) == i,
    ensures
        dashboard_wf(r),
        r.run_id == run_id,
        r.run_number == run_number,
        r.start_time == start_time,
        r.sources == sources,
        r.stable_toolchain_version == stable_toolchain_version,
        r.stable_release_data == stable_release_data,
        r.bleeding_toolchain_version == bleeding_toolchain_version,
        r.bleeding_release_data == bleeding_release_data,
{
    MoonBuildDashboard {
        run_id,
        run_number,
        start_time,
        sources,
        stable_toolchain_version,
        stable_release_data,
        bleeding_toolchain_version,
        bleeding_release_data,
    }
}

} // verus!
