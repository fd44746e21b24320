//! Scope-aware fetching and utilization reconciliation for a cluster
//! observation layer.
//!
//! The crate holds the decisions of one synchronization cycle as verified
//! functions on plain values: which list call a resource kind needs, what is
//! published when a call fails, how capacity, request and usage samples are
//! merged by identity and grouped by qualifiers, and how nodes are joined
//! with the pods placed on them. The calls to the cluster are the caller's:
//! the crate takes their answers and says what follows from them.

pub mod aggregate;
pub mod allocation;
pub mod arrange;
pub mod fetch;
pub mod grouping;
pub mod kind;
pub mod laws;
pub mod ledger;
pub mod nodes;
pub mod order;
pub mod reconcile;
pub mod report;
pub mod sample;
pub mod snapshot;
pub mod text;
