//! Resource samples: one row of the reconciliation pipeline.

use crate::grouping::{Group, PlacementView, TallyView};
use crate::kind::ResourceKind;
use crate::text::{copy_text, same_text, text_of};
use vstd::prelude::*;

verus! {

/// What a sample measures: the join key of the reconciliation.
#[derive(Clone, Debug, PartialEq, Eq)]
pub struct Identity {
    pub kind: ResourceKind,
    pub namespace: Option<String>,
    pub name: String,
    pub container: Option<String>,
}

/// An identity seen abstractly.
pub struct IdentityView {
    pub kind: ResourceKind,
    pub namespace: Option<Seq<char>>,
    pub name: Seq<char>,
    pub container: Option<Seq<char>>,
}

impl View for Identity {
    type V = IdentityView;

    open spec fn view(&self) -> IdentityView {
        IdentityView {
            kind: self.kind,
            namespace: text_of(self.namespace),
            name: self.name@,
            container: text_of(self.container),
        }
    }
}

impl Identity {
    /// Whether two identities name the same object.
    pub fn same_as(&self, other: &Identity) -> (same: bool)
        ensures
            same == (self@ == other@),
    {
        self.kind == other.kind && same_text(&self.namespace, &other.namespace) && self.name
            == other.name && same_text(&self.container, &other.container)
    }

    /// A copy that names the same object.
    pub fn duplicate(&self) -> (copy: Identity)
        ensures
            copy@ == self@,
    {
        Identity {
            kind: self.kind,
            namespace: copy_text(&self.namespace),
            name: self.name.clone(),
            container: copy_text(&self.container),
        }
    }
}

/// A sample or a merged row, seen abstractly: its identity and what it
/// carries.
pub type RowView = Group<IdentityView>;

/// A sampled amount as a number, where it is populated.
pub open spec fn known(value: Option<u64>) -> Option<nat> {
    match value {
        Some(x) => Some(x as nat),
        None => None,
    }
}

/// What a sample says of where its object runs.
pub open spec fn placed(node: Option<String>) -> PlacementView {
    match node {
        Some(n) => PlacementView::On(n@),
        None => PlacementView::Unknown,
    }
}

/// One observation of one object by one source. Each amount is populated by
/// the source that measures it and left `None` by the others.
#[derive(Clone, Debug, PartialEq, Eq)]
pub struct ResourceSample {
    pub identity: Identity,
    /// The node that the object runs on, where the source knows it.
    pub node: Option<String>,
    pub capacity: Option<u64>,
    pub requested: Option<u64>,
    pub used: Option<u64>,
}

impl View for ResourceSample {
    type V = RowView;

    open spec fn view(&self) -> RowView {
        Group {
            key: self.identity@,
            tally: TallyView {
                placement: placed(self.node),
                capacity: known(self.capacity),
                requested: known(self.requested),
                used: known(self.used),
            },
        }
    }
}

/// The samples of a vector, seen abstractly.
pub open spec fn sample_views(samples: Seq<ResourceSample>) -> Seq<RowView> {
    Seq::new(samples.len(), |i: int| samples[i]@)
}

} // verus!
