//! Allocations: the amounts that the extractors state, and how the readings
//! of the three stages are picked from them.
//!
//! An extractor states every amount it finds, of every resource and of every
//! measure. A stage tracks one resource and one measure: it reads the
//! allocations of that resource and measure, in their order, and none else.
//! An amount below zero cannot be read, and makes the stage fail.

use crate::reconcile::{NodeCapacity, PodRequest, PodUsage, Stage, StageOutcome};
use crate::text::{copy_text, text_of};
use vstd::prelude::*;
use vstd::string::*;

verus! {

/// What an amount measures.
#[derive(Clone, Copy, Debug, PartialEq, Eq, Structural)]
pub enum Measure {
    Limit,
    Requested,
    Allocatable,
    Utilization,
}

/// One amount of one resource at one place.
#[derive(Clone, Debug, PartialEq, Eq)]
pub struct Allocation {
    /// The name of the resource, such as `cpu` or `memory`.
    pub resource: String,
    pub measure: Measure,
    pub amount: i64,
    pub node: Option<String>,
    pub namespace: Option<String>,
    pub pod: Option<String>,
}

impl Stage {
    /// The measure that a stage reads.
    pub open spec fn measure_of(self) -> Measure {
        match self {
            Stage::Capacity => Measure::Allocatable,
            Stage::Requests => Measure::Requested,
            Stage::Usage => Measure::Utilization,
        }
    }

    /// The measure that the stage reads.
    pub fn measure(&self) -> (measure: Measure)
        ensures
            measure == self.measure_of(),
    {
        match self {
            Stage::Capacity => Measure::Allocatable,
            Stage::Requests => Measure::Requested,
            Stage::Usage => Measure::Utilization,
        }
    }
}

/// Whether a stage that tracks `resource` reads an allocation.
pub open spec fn tracks(stage: Stage, resource: Seq<char>, allocation: Allocation) -> bool {
    allocation.resource@ == resource && allocation.measure == stage.measure_of()
}

/// The positions of the allocations that a stage reads, in ascending order.
pub open spec fn selection(stage: Stage, resource: Seq<char>, allocations: Seq<Allocation>) -> Seq<
    usize,
>
    decreases allocations.len(),
{
    if allocations.len() == 0 {
        Seq::empty()
    } else {
        let before = selection(stage, resource, allocations.drop_last());
        if tracks(stage, resource, allocations.last()) {
            before.push((allocations.len() - 1) as usize)
        } else {
            before
        }
    }
}

/// Whether a stage can read all that it tracks: no amount is below zero.
pub open spec fn readable(stage: Stage, resource: Seq<char>, allocations: Seq<Allocation>) -> bool {
    forall|i: int|
        0 <= i < allocations.len() && tracks(stage, resource, #[trigger] allocations[i])
            ==> allocations[i].amount >= 0
}

/// The name that stands for a missing one.
pub open spec fn name_or_empty(name: Option<String>) -> Seq<char> {
    match name {
        Some(n) => n@,
        None => Seq::empty(),
    }
}

/// Whether a reading of the capacity stage states what an allocation states.
pub open spec fn is_capacity_of(reading: NodeCapacity, allocation: Allocation) -> bool {
    &&& reading.node@ == name_or_empty(allocation.node)
    &&& reading.allocatable == allocation.amount
}

/// Whether a reading of the request stage states what an allocation states.
pub open spec fn is_request_of(reading: PodRequest, allocation: Allocation) -> bool {
    &&& reading.namespace@ == name_or_empty(allocation.namespace)
    &&& reading.pod@ == name_or_empty(allocation.pod)
    &&& reading.container is None
    &&& text_of(reading.node) == text_of(allocation.node)
    &&& reading.requested == allocation.amount
}

/// Whether a reading of the usage stage states what an allocation states.
pub open spec fn is_usage_of(reading: PodUsage, allocation: Allocation) -> bool {
    &&& reading.namespace@ == name_or_empty(allocation.namespace)
    &&& reading.pod@ == name_or_empty(allocation.pod)
    &&& reading.container is None
    &&& reading.used == allocation.amount
}

/// The cause that is reported for an amount below zero.
pub open spec fn unreadable_cause(resource: Seq<char>) -> Seq<char> {
    "negative amount of "@ + resource
}

fn named(name: &Option<String>) -> (text: String)
    ensures
        text@ == name_or_empty(*name),
{
    match name {
        Some(n) => n.clone(),
        None => String::new(),
    }
}

fn unreadable(resource: &String) -> (cause: String)
    ensures
        cause@ == unreadable_cause(resource@),
{
    String::from_str("negative amount of ").concat(resource.as_str())
}

/// Picks what a stage reads: the positions of the allocations that it
/// tracks, or `None` where one of them has an amount below zero.
pub fn select(stage: Stage, resource: &String, allocations: &Vec<Allocation>) -> (picked: Option<
    Vec<usize>,
>)
    ensures
        readable(stage, resource@, allocations@) ==> (picked matches Some(v) && v@ == selection(
            stage,
            resource@,
            allocations@,
        )),
        !readable(stage, resource@, allocations@) ==> picked is None,
        picked matches Some(v) ==> forall|k: int|
            0 <= k < v.len() ==> (#[trigger] v[k]) < allocations.len() && tracks(
                stage,
                resource@,
                allocations[v[k] as int],
            ) && allocations[v[k] as int].amount >= 0,
{
    let measure = stage.measure();
    let mut picked: Vec<usize> = Vec::new();
    let mut i: usize = 0;
    while i < allocations.len()
        invariant
            i <= allocations.len(),
            measure == stage.measure_of(),
            picked@ == selection(stage, resource@, allocations@.take(i as int)),
            forall|k: int|
                0 <= k < i && tracks(stage, resource@, #[trigger] allocations[k])
                    ==> allocations[k].amount >= 0,
            forall|k: int|
                0 <= k < picked.len() ==> (#[trigger] picked[k]) < i && tracks(
                    stage,
                    resource@,
                    allocations[picked[k] as int],
                ) && allocations[picked[k] as int].amount >= 0,
        decreases allocations.len() - i,
    {
        proof {
            assert(allocations@.take(i as int + 1).drop_last() =~= allocations@.take(i as int));
        }
        let allocation = &allocations[i];
        if allocation.resource == *resource && allocation.measure == measure {
            if allocation.amount < 0 {
                return None;
            }
            picked.push(i);
        }
        i += 1;
    }
    proof {
        assert(allocations@.take(allocations.len() as int) =~= allocations@);
    }
    Some(picked)
}

/// The outcome of the capacity stage from what the node extractor stated.
pub fn capacity_stage(resource: &String, allocations: &Vec<Allocation>) -> (outcome: StageOutcome<
    NodeCapacity,
>)
    ensures
        readable(Stage::Capacity, resource@, allocations@) ==> (outcome matches StageOutcome::Collected(
            readings,
        ) && readings.len() == selection(Stage::Capacity, resource@, allocations@).len()
            && forall|k: int|
            0 <= k < readings.len() ==> is_capacity_of(
                #[trigger] readings[k],
                allocations[selection(Stage::Capacity, resource@, allocations@)[k] as int],
            )),
        !readable(Stage::Capacity, resource@, allocations@) ==> (
        outcome matches StageOutcome::Unreadable(cause) && cause@ == unreadable_cause(resource@)),
{
    match select(Stage::Capacity, resource, allocations) {
        None => StageOutcome::Unreadable(unreadable(resource)),
        Some(picked) => {
            let mut readings: Vec<NodeCapacity> = Vec::new();
            let mut k: usize = 0;
            while k < picked.len()
                invariant
                    k <= picked.len(),
                    readings.len() == k,
                    forall|j: int|
                        0 <= j < picked.len() ==> (#[trigger] picked[j]) < allocations.len()
                            && allocations[picked[j] as int].amount >= 0,
                    forall|j: int|
                        0 <= j < k ==> is_capacity_of(
                            #[trigger] readings[j],
                            allocations[picked[j] as int],
                        ),
                decreases picked.len() - k,
            {
                let allocation = &allocations[picked[k]];
                readings.push(
                    NodeCapacity {
                        node: named(&allocation.node),
                        allocatable: allocation.amount as u64,
                    },
                );
                k += 1;
            }
            StageOutcome::Collected(readings)
        },
    }
}

/// The outcome of the request stage from what the pod extractor stated.
pub fn request_stage(resource: &String, allocations: &Vec<Allocation>) -> (outcome: StageOutcome<
    PodRequest,
>)
    ensures
        readable(Stage::Requests, resource@, allocations@) ==> (outcome matches StageOutcome::Collected(
            readings,
        ) && readings.len() == selection(Stage::Requests, resource@, allocations@).len()
            && forall|k: int|
            0 <= k < readings.len() ==> is_request_of(
                #[trigger] readings[k],
                allocations[selection(Stage::Requests, resource@, allocations@)[k] as int],
            )),
        !readable(Stage::Requests, resource@, allocations@) ==> (
        outcome matches StageOutcome::Unreadable(cause) && cause@ == unreadable_cause(resource@)),
{
    match select(Stage::Requests, resource, allocations) {
        None => StageOutcome::Unreadable(unreadable(resource)),
        Some(picked) => {
            let mut readings: Vec<PodRequest> = Vec::new();
            let mut k: usize = 0;
            while k < picked.len()
                invariant
                    k <= picked.len(),
                    readings.len() == k,
                    forall|j: int|
                        0 <= j < picked.len() ==> (#[trigger] picked[j]) < allocations.len()
                            && allocations[picked[j] as int].amount >= 0,
                    forall|j: int|
                        0 <= j < k ==> is_request_of(
                            #[trigger] readings[j],
                            allocations[picked[j] as int],
                        ),
                decreases picked.len() - k,
            {
                let allocation = &allocations[picked[k]];
                readings.push(
                    PodRequest {
                        namespace: named(&allocation.namespace),
                        pod: named(&allocation.pod),
                        container: None,
                        node: copy_text(&allocation.node),
                        requested: allocation.amount as u64,
                    },
                );
                k += 1;
            }
            StageOutcome::Collected(readings)
        },
    }
}

/// The outcome of the usage stage from what the metrics extractor stated.
pub fn usage_stage(resource: &String, allocations: &Vec<Allocation>) -> (outcome: StageOutcome<
    PodUsage,
>)
    ensures
        readable(Stage::Usage, resource@, allocations@) ==> (outcome matches StageOutcome::Collected(
            readings,
        ) && readings.len() == selection(Stage::Usage, resource@, allocations@).len() && forall|
            k: int,
        |
            0 <= k < readings.len() ==> is_usage_of(
                #[trigger] readings[k],
                allocations[selection(Stage::Usage, resource@, allocations@)[k] as int],
            )),
        !readable(Stage::Usage, resource@, allocations@) ==> (outcome matches StageOutcome::Unreadable(
            cause,
        ) && cause@ == unreadable_cause(resource@)),
{
    match select(Stage::Usage, resource, allocations) {
        None => StageOutcome::Unreadable(unreadable(resource)),
        Some(picked) => {
            let mut readings: Vec<PodUsage> = Vec::new();
            let mut k: usize = 0;
            while k < picked.len()
                invariant
                    k <= picked.len(),
                    readings.len() == k,
                    forall|j: int|
                        0 <= j < picked.len() ==> (#[trigger] picked[j]) < allocations.len()
                            && allocations[picked[j] as int].amount >= 0,
                    forall|j: int|
                        0 <= j < k ==> is_usage_of(
                            #[trigger] readings[j],
                            allocations[picked[j] as int],
                        ),
                decreases picked.len() - k,
            {
                let allocation = &allocations[picked[k]];
                readings.push(
                    PodUsage {
                        namespace: named(&allocation.namespace),
                        pod: named(&allocation.pod),
                        container: None,
                        used: allocation.amount as u64,
                    },
                );
                k += 1;
            }
            StageOutcome::Collected(readings)
        },
    }
}

} // verus!
