//! The utilization reconciler.
//!
//! Three stages, run one after the other by the caller, each list one thing:
//! the nodes with what they can provide, the pods with what they ask for,
//! and the usage that the metrics source has sampled. Whatever the stages
//! brought is merged by identity and grouped by the caller's qualifiers. A
//! stage that failed brings nothing and leaves one report; it stops neither
//! the stages after it nor the merge.

use crate::aggregate::{aggregate, aggregated, bucket_views, AggregatedUtilization, Qualifier};
use crate::arrange::arranges;
use crate::grouping::{Group, PlacementView, TallyView};
use crate::kind::ResourceKind;
use crate::ledger::{merged_rows, Ledger};
use crate::report::{report_views, ErrorReport, ReportView};
use crate::sample::{sample_views, Identity, IdentityView, ResourceSample, RowView};
use crate::text::{copy_text, text_of};
use vstd::prelude::*;
use vstd::string::*;

verus! {

/// What one stage lists, item by item, before it becomes a sample.
pub trait Reading {
    /// The sample that the reading stands for.
    spec fn as_sample(&self) -> RowView;

    /// Makes the sample that the reading stands for.
    fn sample(&self) -> (sample: ResourceSample)
        ensures
            sample@ == self.as_sample(),
    ;
}

/// What a node can provide.
#[derive(Clone, Debug, PartialEq, Eq)]
pub struct NodeCapacity {
    pub node: String,
    pub allocatable: u64,
}

/// What a pod, or one of its containers, asks for.
#[derive(Clone, Debug, PartialEq, Eq)]
pub struct PodRequest {
    pub namespace: String,
    pub pod: String,
    pub container: Option<String>,
    /// The node that the pod is placed on, once it is scheduled.
    pub node: Option<String>,
    pub requested: u64,
}

/// What a pod, or one of its containers, was seen to consume.
#[derive(Clone, Debug, PartialEq, Eq)]
pub struct PodUsage {
    pub namespace: String,
    pub pod: String,
    pub container: Option<String>,
    pub used: u64,
}

impl Reading for NodeCapacity {
    open spec fn as_sample(&self) -> RowView {
        Group {
            key: IdentityView {
                kind: ResourceKind::Node,
                namespace: None,
                name: self.node@,
                container: None,
            },
            tally: TallyView {
                placement: PlacementView::Unknown,
                capacity: Some(self.allocatable as nat),
                requested: None,
                used: None,
            },
        }
    }

    fn sample(&self) -> (sample: ResourceSample) {
        ResourceSample {
            identity: Identity {
                kind: ResourceKind::Node,
                namespace: None,
                name: self.node.clone(),
                container: None,
            },
            node: None,
            capacity: Some(self.allocatable),
            requested: None,
            used: None,
        }
    }
}

impl Reading for PodRequest {
    open spec fn as_sample(&self) -> RowView {
        Group {
            key: IdentityView {
                kind: ResourceKind::Pod,
                namespace: Some(self.namespace@),
                name: self.pod@,
                container: text_of(self.container),
            },
            tally: TallyView {
                placement: match self.node {
                    Some(n) => PlacementView::On(n@),
                    None => PlacementView::Unknown,
                },
                capacity: None,
                requested: Some(self.requested as nat),
                used: None,
            },
        }
    }

    fn sample(&self) -> (sample: ResourceSample) {
        ResourceSample {
            identity: Identity {
                kind: ResourceKind::Pod,
                namespace: Some(self.namespace.clone()),
                name: self.pod.clone(),
                container: copy_text(&self.container),
            },
            node: copy_text(&self.node),
            capacity: None,
            requested: Some(self.requested),
            used: None,
        }
    }
}

impl Reading for PodUsage {
    open spec fn as_sample(&self) -> RowView {
        Group {
            key: IdentityView {
                kind: ResourceKind::Pod,
                namespace: Some(self.namespace@),
                name: self.pod@,
                container: text_of(self.container),
            },
            tally: TallyView {
                placement: PlacementView::Unknown,
                capacity: None,
                requested: None,
                used: Some(self.used as nat),
            },
        }
    }

    fn sample(&self) -> (sample: ResourceSample) {
        ResourceSample {
            identity: Identity {
                kind: ResourceKind::Pod,
                namespace: Some(self.namespace.clone()),
                name: self.pod.clone(),
                container: copy_text(&self.container),
            },
            node: None,
            capacity: None,
            requested: None,
            used: Some(self.used),
        }
    }
}

/// The three stages, in the order in which they run.
#[derive(Clone, Copy, Debug, PartialEq, Eq, Structural)]
pub enum Stage {
    Capacity,
    Requests,
    Usage,
}

impl Stage {
    /// The kind of resource that a stage lists.
    pub open spec fn kind_of(self) -> ResourceKind {
        match self {
            Stage::Capacity => ResourceKind::Node,
            Stage::Requests => ResourceKind::Pod,
            Stage::Usage => ResourceKind::PodMetrics,
        }
    }

    /// The kind of resource that the stage lists. Its scope says where the
    /// list call goes: nodes and usage samples are listed for the whole
    /// cluster, pods for the active scope.
    pub fn kind(&self) -> (kind: ResourceKind)
        ensures
            kind == self.kind_of(),
    {
        match self {
            Stage::Capacity => ResourceKind::Node,
            Stage::Requests => ResourceKind::Pod,
            Stage::Usage => ResourceKind::PodMetrics,
        }
    }
}

/// How a stage ended.
#[derive(Clone, Debug, PartialEq, Eq)]
pub enum StageOutcome<R> {
    /// The list call succeeded and every item was read.
    Collected(Vec<R>),
    /// The list call failed, with the cause.
    Unreachable(String),
    /// The list call succeeded, but an item could not be read, with the cause.
    Unreadable(String),
}

/// The samples that a stage brought: none where it failed.
pub open spec fn collected<R: Reading>(outcome: StageOutcome<R>) -> Seq<RowView> {
    match outcome {
        StageOutcome::Collected(readings) => Seq::new(
            readings.len() as nat,
            |i: int| readings[i].as_sample(),
        ),
        _ => Seq::empty(),
    }
}

/// The words that open the message of a failed stage.
pub open spec fn stage_opening(stage: Stage) -> Seq<char> {
    match stage {
        Stage::Capacity => "Failed to extract node allocation metrics. "@,
        Stage::Requests => "Failed to extract pod allocation metrics. "@,
        Stage::Usage => "Failed to extract pod utilization metrics. "@,
    }
}

/// The message of a failed stage: what failed, then the cause. Where the
/// usage samples could not be listed at all, the cause is replaced by a hint
/// at the likely reason.
pub open spec fn stage_message(stage: Stage, reachable: bool, cause: Seq<char>) -> Seq<char> {
    if stage == Stage::Usage && !reachable {
        stage_opening(stage) + "Make sure you have a metrics-server deployed on your cluster."@
    } else {
        stage_opening(stage) + cause
    }
}

/// The reports that a stage leaves: none where it succeeded, one where it
/// failed.
pub open spec fn stage_reports<R>(stage: Stage, outcome: StageOutcome<R>) -> Seq<ReportView> {
    match outcome {
        StageOutcome::Collected(_) => Seq::empty(),
        StageOutcome::Unreachable(cause) => seq![
            ReportView { kind: Some(stage.kind_of()), message: stage_message(stage, false, cause@) },
        ],
        StageOutcome::Unreadable(cause) => seq![
            ReportView { kind: Some(stage.kind_of()), message: stage_message(stage, true, cause@) },
        ],
    }
}

/// The buckets that reconciling samples gives: the samples merged by
/// identity, the merged rows grouped by the qualifiers.
pub open spec fn reconciled(samples: Seq<RowView>, qualifiers: Seq<Qualifier>) -> Seq<
    Group<Seq<Option<Seq<char>>>>,
> {
    aggregated(merged_rows(samples), qualifiers)
}

fn opening(stage: Stage) -> (text: String)
    ensures
        text@ == stage_opening(stage),
{
    match stage {
        Stage::Capacity => String::from_str("Failed to extract node allocation metrics. "),
        Stage::Requests => String::from_str("Failed to extract pod allocation metrics. "),
        Stage::Usage => String::from_str("Failed to extract pod utilization metrics. "),
    }
}

/// Reports a failed stage.
pub fn report_stage_failure(stage: Stage, reachable: bool, cause: &str) -> (report: ErrorReport)
    ensures
        report@ == (ReportView {
            kind: Some(stage.kind_of()),
            message: stage_message(stage, reachable, cause@),
        }),
{
    let message = if stage == Stage::Usage && !reachable {
        opening(stage).concat("Make sure you have a metrics-server deployed on your cluster.")
    } else {
        opening(stage).concat(cause)
    };
    ErrorReport { kind: Some(stage.kind()), message }
}

/// Takes in what one stage brought: its samples, or its report.
pub fn gather<R: Reading>(
    stage: Stage,
    outcome: &StageOutcome<R>,
    samples: &mut Vec<ResourceSample>,
    reports: &mut Vec<ErrorReport>,
)
    ensures
        sample_views(final(samples)@) == sample_views(old(samples)@) + collected(*outcome),
        report_views(final(reports)@) == report_views(old(reports)@) + stage_reports(
            stage,
            *outcome,
        ),
{
    let ghost samples_before = sample_views(samples@);
    let ghost reports_before = report_views(reports@);
    match outcome {
        StageOutcome::Collected(readings) => {
            let mut i: usize = 0;
            while i < readings.len()
                invariant
                    i <= readings.len(),
                    *outcome == StageOutcome::Collected(*readings),
                    sample_views(samples@) =~= samples_before + collected(*outcome).take(i as int),
                decreases readings.len() - i,
            {
                let ghost so_far = sample_views(samples@);
                let sample = readings[i].sample();
                samples.push(sample);
                proof {
                    assert(sample_views(samples@) =~= so_far.push(sample@));
                    assert(collected(*outcome).take(i as int + 1) =~= collected(*outcome).take(
                        i as int,
                    ).push(readings[i as int].as_sample()));
                }
                i += 1;
            }
            proof {
                assert(collected(*outcome).take(readings.len() as int) =~= collected(*outcome));
                assert(report_views(reports@) =~= reports_before + stage_reports(stage, *outcome));
            }
        },
        StageOutcome::Unreachable(cause) => {
            let report = report_stage_failure(stage, false, cause.as_str());
            reports.push(report);
            proof {
                assert(sample_views(samples@) =~= samples_before + collected(*outcome));
                assert(report_views(reports@) =~= reports_before + stage_reports(stage, *outcome));
            }
        },
        StageOutcome::Unreadable(cause) => {
            let report = report_stage_failure(stage, true, cause.as_str());
            reports.push(report);
            proof {
                assert(sample_views(samples@) =~= samples_before + collected(*outcome));
                assert(report_views(reports@) =~= reports_before + stage_reports(stage, *outcome));
            }
        },
    }
}

/// What a reconciliation publishes: the grouped rows, and one report per
/// stage that failed.
#[derive(Clone, Debug, PartialEq, Eq)]
pub struct Reconciliation {
    pub rows: Vec<AggregatedUtilization>,
    pub reports: Vec<ErrorReport>,
}

/// Reconciles the outcomes of the three stages.
///
/// The samples of the stages that succeeded are merged and grouped by the
/// qualifiers, and the rows come in ascending order of their keys; the
/// stages that failed are reported in the order in which the stages run.
/// There is always a result, with no rows where nothing was brought.
pub fn reconcile(
    capacity: &StageOutcome<NodeCapacity>,
    requests: &StageOutcome<PodRequest>,
    usage: &StageOutcome<PodUsage>,
    qualifiers: &Vec<Qualifier>,
) -> (done: Reconciliation)
    ensures
        arranges(
            bucket_views(done.rows@),
            reconciled(
                collected(*capacity) + collected(*requests) + collected(*usage),
                qualifiers@,
            ),
        ),
        report_views(done.reports@) == stage_reports(Stage::Capacity, *capacity) + stage_reports(
            Stage::Requests,
            *requests,
        ) + stage_reports(Stage::Usage, *usage),
{
    let mut samples: Vec<ResourceSample> = Vec::new();
    let mut reports: Vec<ErrorReport> = Vec::new();
    gather(Stage::Capacity, capacity, &mut samples, &mut reports);
    gather(Stage::Requests, requests, &mut samples, &mut reports);
    gather(Stage::Usage, usage, &mut samples, &mut reports);
    proof {
        assert(sample_views(samples@) =~= collected(*capacity) + collected(*requests) + collected(
            *usage,
        ));
        assert(report_views(reports@) =~= stage_reports(Stage::Capacity, *capacity)
            + stage_reports(Stage::Requests, *requests) + stage_reports(Stage::Usage, *usage));
    }
    let ledger = Ledger::merge(&samples);
    let rows = aggregate(&ledger, qualifiers);
    Reconciliation { rows, reports }
}

} // verus!
