//! The published snapshot: one collection per resource kind.
//!
//! Publishing the outcome of a fetch replaces the collection of its kind and
//! touches no other. A failed fetch empties the collection of its kind and
//! hands its report back to be shown.

use crate::fetch::{items_of, report_of, FetchResult};
use crate::kind::ResourceKind;
use crate::report::ErrorReport;
use vstd::prelude::*;

verus! {

/// The number of resource kinds.
pub const KINDS: usize = 24;

impl ResourceKind {
    /// The position of a kind's collection in the snapshot.
    pub open spec fn slot_of(self) -> int {
        match self {
            ResourceKind::Pod => 0,
            ResourceKind::Service => 1,
            ResourceKind::ConfigMap => 2,
            ResourceKind::StatefulSet => 3,
            ResourceKind::ReplicaSet => 4,
            ResourceKind::Job => 5,
            ResourceKind::CronJob => 6,
            ResourceKind::Secret => 7,
            ResourceKind::ReplicationController => 8,
            ResourceKind::Deployment => 9,
            ResourceKind::DaemonSet => 10,
            ResourceKind::Role => 11,
            ResourceKind::RoleBinding => 12,
            ResourceKind::Ingress => 13,
            ResourceKind::PersistentVolumeClaim => 14,
            ResourceKind::ServiceAccount => 15,
            ResourceKind::Namespace => 16,
            ResourceKind::Node => 17,
            ResourceKind::StorageClass => 18,
            ResourceKind::ClusterRole => 19,
            ResourceKind::ClusterRoleBinding => 20,
            ResourceKind::PersistentVolume => 21,
            ResourceKind::NodeMetrics => 22,
            ResourceKind::PodMetrics => 23,
        }
    }

    /// The position of the kind's collection in the snapshot.
    pub fn slot(&self) -> (slot: usize)
        ensures
            slot == self.slot_of(),
            slot < KINDS,
    {
        match self {
            ResourceKind::Pod => 0,
            ResourceKind::Service => 1,
            ResourceKind::ConfigMap => 2,
            ResourceKind::StatefulSet => 3,
            ResourceKind::ReplicaSet => 4,
            ResourceKind::Job => 5,
            ResourceKind::CronJob => 6,
            ResourceKind::Secret => 7,
            ResourceKind::ReplicationController => 8,
            ResourceKind::Deployment => 9,
            ResourceKind::DaemonSet => 10,
            ResourceKind::Role => 11,
            ResourceKind::RoleBinding => 12,
            ResourceKind::Ingress => 13,
            ResourceKind::PersistentVolumeClaim => 14,
            ResourceKind::ServiceAccount => 15,
            ResourceKind::Namespace => 16,
            ResourceKind::Node => 17,
            ResourceKind::StorageClass => 18,
            ResourceKind::ClusterRole => 19,
            ResourceKind::ClusterRoleBinding => 20,
            ResourceKind::PersistentVolume => 21,
            ResourceKind::NodeMetrics => 22,
            ResourceKind::PodMetrics => 23,
        }
    }
}

/// The collections after the outcome of a fetch of one kind is published.
pub open spec fn published<T>(
    before: Map<ResourceKind, Seq<T>>,
    kind: ResourceKind,
    result: FetchResult<T>,
) -> Map<ResourceKind, Seq<T>> {
    before.insert(kind, items_of(result))
}

/// The collections that the presentation layer reads.
pub struct Snapshot<T> {
    collections: Vec<Vec<T>>,
}

impl<T> View for Snapshot<T> {
    type V = Map<ResourceKind, Seq<T>>;

    closed spec fn view(&self) -> Map<ResourceKind, Seq<T>> {
        Map::new(|kind: ResourceKind| true, |kind: ResourceKind| self.collections[kind.slot_of()]@)
    }
}

impl<T> Snapshot<T> {
    #[verifier::type_invariant]
    spec fn sound(&self) -> bool {
        self.collections.len() == KINDS
    }

    /// A snapshot in which nothing is published yet.
    pub fn new() -> (snapshot: Snapshot<T>)
        ensures
            forall|kind: ResourceKind| #[trigger] snapshot@[kind] == Seq::<T>::empty(),
    {
        let mut collections: Vec<Vec<T>> = Vec::new();
        let mut i: usize = 0;
        while i < KINDS
            invariant
                i <= KINDS,
                collections.len() == i,
                forall|k: int| 0 <= k < i ==> (#[trigger] collections[k])@ == Seq::<T>::empty(),
            decreases KINDS - i,
        {
            collections.push(Vec::new());
            i += 1;
        }
        Snapshot { collections }
    }

    /// Publishes the outcome of a fetch of one kind and returns its report,
    /// if it left one.
    pub fn publish(&mut self, kind: ResourceKind, result: FetchResult<T>) -> (report: Option<
        ErrorReport,
    >)
        ensures
            final(self)@ == published(old(self)@, kind, result),
            report == report_of(result),
    {
        let slot = kind.slot();
        let (items, report) = result.into_parts();
        // The collections change hands as a whole, so that the snapshot has
        // one for every kind at every moment.
        let mut held = Snapshot::new();
        core::mem::swap(self, &mut held);
        proof {
            use_type_invariant(&held);
        }
        let Snapshot { mut collections } = held;
        collections.set(slot, items);
        *self = Snapshot { collections };
        proof {
            assert forall|other: ResourceKind|
                self@[other] == #[trigger] published(old(self)@, kind, result)[other] by {
                if other != kind {
                    assert(other.slot_of() != kind.slot_of());
                }
            }
            assert(self@ =~= published(old(self)@, kind, result));
        }
        report
    }

    /// The published collection of a kind.
    pub fn items(&self, kind: ResourceKind) -> (items: &Vec<T>)
        ensures
            items@ == self@[kind],
    {
        proof {
            use_type_invariant(self);
        }
        &self.collections[kind.slot()]
    }
}

/// A failed fetch of one kind leaves the collection of every other kind as it
/// was, and a successful fetch of another kind in the same cycle publishes
/// all its items, whichever of the two is published first.
pub proof fn lemma_fail_soft_independence<T>(
    before: Map<ResourceKind, Seq<T>>,
    failed: ResourceKind,
    report: ErrorReport,
    other: ResourceKind,
    items: Vec<T>,
)
    requires
        failed != other,
    ensures
        published(before, failed, FetchResult::<T>::Failed(report))[other] == before[other],
        published(before, failed, FetchResult::<T>::Failed(report))[failed] == Seq::<T>::empty(),
        published(
            published(before, failed, FetchResult::Failed(report)),
            other,
            FetchResult::Items(items),
        )[other] == items@,
        published(
            published(before, other, FetchResult::Items(items)),
            failed,
            FetchResult::Failed(report),
        )[other] == items@,
        items.len() > 0 ==> published(
            published(before, failed, FetchResult::Failed(report)),
            other,
            FetchResult::Items(items),
        )[other].len() > 0,
{
}

} // verus!
