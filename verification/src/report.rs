//! Error reports: what a failed fetch leaves for the user to read.

use crate::kind::{ResourceKind, Scope};
use vstd::prelude::*;
use vstd::string::*;

verus! {

/// A labeled error: the kind of resource whose fetch failed, where there is
/// one, and a message that names it together with the underlying cause.
#[derive(Clone, Debug, PartialEq, Eq)]
pub struct ErrorReport {
    pub kind: Option<ResourceKind>,
    pub message: String,
}

/// A report seen abstractly.
pub struct ReportView {
    pub kind: Option<ResourceKind>,
    pub message: Seq<char>,
}

impl View for ErrorReport {
    type V = ReportView;

    open spec fn view(&self) -> ReportView {
        ReportView { kind: self.kind, message: self.message@ }
    }
}

/// The reports of a vector, seen abstractly.
pub open spec fn report_views(reports: Seq<ErrorReport>) -> Seq<ReportView> {
    Seq::new(reports.len(), |i: int| reports[i]@)
}

/// The words that open the message for a failed list call of a kind.
pub open spec fn opening_of(kind: ResourceKind) -> Seq<char> {
    match kind {
        ResourceKind::Node => "Failed to get nodes"@,
        ResourceKind::Namespace => "Failed to get namespaces"@,
        _ => match kind.scope_of() {
            Scope::NamespaceScoped => "Failed to get namespaced resource "@ + kind.label_of(),
            Scope::ClusterScoped => "Failed to get resource "@ + kind.label_of(),
        },
    }
}

/// The message for a failed list call: the opening, a full stop, the cause.
pub open spec fn fetch_failure_message(kind: ResourceKind, cause: Seq<char>) -> Seq<char> {
    opening_of(kind) + ". "@ + cause
}

/// The report of a failed list call of a kind.
pub open spec fn fetch_failure(kind: ResourceKind, cause: Seq<char>) -> ReportView {
    ReportView { kind: Some(kind), message: fetch_failure_message(kind, cause) }
}

/// The report of a connection configuration that could not be loaded.
pub open spec fn config_failure(cause: Seq<char>) -> ReportView {
    ReportView { kind: None, message: "Failed to load Kubernetes config. "@ + cause }
}

fn opening(kind: ResourceKind) -> (text: String)
    ensures
        text@ == opening_of(kind),
{
    match kind {
        ResourceKind::Node => String::from_str("Failed to get nodes"),
        ResourceKind::Namespace => String::from_str("Failed to get namespaces"),
        _ => match kind.scope() {
            Scope::NamespaceScoped => String::from_str("Failed to get namespaced resource ").concat(
                kind.label(),
            ),
            Scope::ClusterScoped => String::from_str("Failed to get resource ").concat(
                kind.label(),
            ),
        },
    }
}

/// Reports a failed list call of a kind.
pub fn report_fetch_failure(kind: ResourceKind, cause: &str) -> (report: ErrorReport)
    ensures
        report@ == fetch_failure(kind, cause@),
{
    ErrorReport { kind: Some(kind), message: opening(kind).concat(". ").concat(cause) }
}

/// Reports that the cluster connection configuration could not be loaded.
pub fn report_config_failure(cause: &str) -> (report: ErrorReport)
    ensures
        report@ == config_failure(cause@),
{
    ErrorReport {
        kind: None,
        message: String::from_str("Failed to load Kubernetes config. ").concat(cause),
    }
}

} // verus!
