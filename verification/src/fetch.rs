//! The scope-aware fetcher.
//!
//! A fetch is one list call and one conversion per item. The call itself is
//! made by the caller; this module decides where the call goes and what
//! becomes of its answer. A failed call never aborts anything: it yields no
//! items and one report.

use crate::kind::{ResourceKind, Scope};
use crate::report::{fetch_failure, report_fetch_failure, ErrorReport};
use vstd::prelude::*;

verus! {

/// The namespace that the user has selected, or all of them.
#[derive(Clone, Debug, PartialEq, Eq)]
pub enum ScopingContext {
    AllNamespaces,
    Namespace(String),
}

/// Where a list call goes.
#[derive(Clone, Debug, PartialEq, Eq)]
pub enum ListTarget {
    ClusterWide,
    Namespace(String),
}

/// A scoping context or a list target seen abstractly.
pub enum ScopeView {
    Everywhere,
    Within(Seq<char>),
}

impl View for ScopingContext {
    type V = ScopeView;

    open spec fn view(&self) -> ScopeView {
        match self {
            ScopingContext::AllNamespaces => ScopeView::Everywhere,
            ScopingContext::Namespace(n) => ScopeView::Within(n@),
        }
    }
}

impl View for ListTarget {
    type V = ScopeView;

    open spec fn view(&self) -> ScopeView {
        match self {
            ListTarget::ClusterWide => ScopeView::Everywhere,
            ListTarget::Namespace(n) => ScopeView::Within(n@),
        }
    }
}

/// The target of the list call for a kind: the selected namespace for a
/// namespace-scoped kind, the whole cluster otherwise.
pub open spec fn target_of(kind: ResourceKind, context: ScopeView) -> ScopeView {
    match kind.scope_of() {
        Scope::NamespaceScoped => context,
        Scope::ClusterScoped => ScopeView::Everywhere,
    }
}

/// Decides where the list call for a kind goes.
pub fn list_target(kind: ResourceKind, context: &ScopingContext) -> (target: ListTarget)
    ensures
        target@ == target_of(kind, context@),
        kind.scope_of() == Scope::ClusterScoped ==> target == ListTarget::ClusterWide,
        kind.scope_of() == Scope::NamespaceScoped && *context == ScopingContext::AllNamespaces
            ==> target == ListTarget::ClusterWide,
        kind.scope_of() == Scope::NamespaceScoped ==> forall|n: String|
            *context == ScopingContext::Namespace(n) ==> target@ == ScopeView::Within(n@),
{
    match kind.scope() {
        Scope::ClusterScoped => ListTarget::ClusterWide,
        Scope::NamespaceScoped => match context {
            ScopingContext::AllNamespaces => ListTarget::ClusterWide,
            ScopingContext::Namespace(n) => ListTarget::Namespace(n.clone()),
        },
    }
}

/// The outcome of a fetch: the converted items in the order of the answer,
/// or a soft failure.
#[derive(Clone, Debug, PartialEq, Eq)]
pub enum FetchResult<T> {
    Items(Vec<T>),
    Failed(ErrorReport),
}

/// The items that the outcome of a fetch publishes: none where it failed.
pub open spec fn items_of<T>(result: FetchResult<T>) -> Seq<T> {
    match result {
        FetchResult::Items(items) => items@,
        FetchResult::Failed(_) => Seq::empty(),
    }
}

/// The report that the outcome of a fetch leaves: none where it succeeded.
pub open spec fn report_of<T>(result: FetchResult<T>) -> Option<ErrorReport> {
    match result {
        FetchResult::Items(_) => None,
        FetchResult::Failed(report) => Some(report),
    }
}

impl<T> FetchResult<T> {
    /// What the caller always receives: a sequence of items, empty where the
    /// fetch failed, and beside it the report of the failure, if there was
    /// one.
    pub fn into_parts(self) -> (parts: (Vec<T>, Option<ErrorReport>))
        ensures
            parts.0@ == items_of(self),
            parts.1 == report_of(self),
    {
        match self {
            FetchResult::Items(items) => (items, None),
            FetchResult::Failed(report) => (Vec::new(), Some(report)),
        }
    }
}

/// The same items, last first.
fn reversed<K>(items: Vec<K>) -> (turned: Vec<K>)
    ensures
        turned@ == items@.reverse(),
{
    let ghost given = items@;
    let mut items = items;
    let mut turned: Vec<K> = Vec::new();
    while items.len() > 0
        invariant
            items.len() + turned.len() == given.len(),
            forall|k: int| 0 <= k < items.len() ==> items[k] == given[k],
            forall|k: int| 0 <= k < turned.len() ==> turned[k] == given[given.len() - 1 - k],
        decreases items.len(),
    {
        match items.pop() {
            Some(item) => {
                turned.push(item);
            },
            None => {},
        }
    }
    proof {
        assert(turned@ =~= given.reverse());
    }
    turned
}

/// Converts every item, first to last, keeping the order.
pub fn convert_all<K, T, F: Fn(K) -> T>(items: Vec<K>, convert: &F) -> (converted: Vec<T>)
    requires
        forall|i: int| 0 <= i < items.len() ==> call_requires(convert, (#[trigger] items[i],)),
    ensures
        converted.len() == items.len(),
        forall|i: int|
            0 <= i < items.len() ==> call_ensures(convert, (items[i],), #[trigger] converted[i]),
{
    let ghost given = items@;
    let mut rest = reversed(items);
    let mut converted: Vec<T> = Vec::new();
    while rest.len() > 0
        invariant
            rest.len() + converted.len() == given.len(),
            forall|k: int| 0 <= k < rest.len() ==> rest[k] == given[given.len() - 1 - k],
            forall|i: int| 0 <= i < given.len() ==> call_requires(convert, (#[trigger] given[i],)),
            forall|i: int|
                0 <= i < converted.len() ==> call_ensures(
                    convert,
                    (given[i],),
                    #[trigger] converted[i],
                ),
        decreases rest.len(),
    {
        match rest.pop() {
            Some(item) => {
                assert(item == given[converted.len() as int]);
                let made = convert(item);
                converted.push(made);
            },
            None => {},
        }
    }
    converted
}

/// Completes a fetch from the answer of its list call.
///
/// A successful answer is converted item by item. A failed one becomes a
/// report that names the kind and the cause.
pub fn complete<K, T, F: Fn(K) -> T>(
    kind: ResourceKind,
    listed: Result<Vec<K>, String>,
    convert: &F,
) -> (result: FetchResult<T>)
    requires
        listed matches Ok(items) ==> forall|i: int|
            0 <= i < items.len() ==> call_requires(convert, (#[trigger] items[i],)),
    ensures
        listed matches Ok(items) ==> (result matches FetchResult::Items(converted)
            && converted.len() == items.len() && forall|i: int|
            0 <= i < items.len() ==> call_ensures(convert, (items[i],), #[trigger] converted[i])),
        listed matches Err(cause) ==> (result matches FetchResult::Failed(report) && report@
            == fetch_failure(kind, cause@)),
{
    match listed {
        Ok(items) => FetchResult::Items(convert_all(items, convert)),
        Err(cause) => FetchResult::Failed(report_fetch_failure(kind, cause.as_str())),
    }
}

/// Completes a fetch of usage samples of nodes.
///
/// A cluster without a metrics source is common and nothing that the user
/// can act on, so a failed answer gives no items and is not reported.
pub fn complete_quietly<K, T, F: Fn(K) -> T>(listed: Result<Vec<K>, String>, convert: &F) -> (items:
    Vec<T>)
    requires
        listed matches Ok(given) ==> forall|i: int|
            0 <= i < given.len() ==> call_requires(convert, (#[trigger] given[i],)),
    ensures
        listed matches Ok(given) ==> items.len() == given.len() && forall|i: int|
            0 <= i < given.len() ==> call_ensures(convert, (given[i],), #[trigger] items[i]),
        listed is Err ==> items.len() == 0,
{
    match listed {
        Ok(given) => convert_all(given, convert),
        Err(_) => Vec::new(),
    }
}

} // verus!
