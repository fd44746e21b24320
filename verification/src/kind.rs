//! Resource kinds and their scope.

use vstd::prelude::*;

verus! {

/// Whether objects of a kind live in a namespace or in the cluster as a whole.
#[derive(Clone, Copy, Debug, PartialEq, Eq, Structural)]
pub enum Scope {
    ClusterScoped,
    NamespaceScoped,
}

/// A category of cluster object that the layer observes.
#[derive(Clone, Copy, Debug, PartialEq, Eq, Structural)]
pub enum ResourceKind {
    Pod,
    Service,
    ConfigMap,
    StatefulSet,
    ReplicaSet,
    Job,
    CronJob,
    Secret,
    ReplicationController,
    Deployment,
    DaemonSet,
    Role,
    RoleBinding,
    Ingress,
    PersistentVolumeClaim,
    ServiceAccount,
    Namespace,
    Node,
    StorageClass,
    ClusterRole,
    ClusterRoleBinding,
    PersistentVolume,
    NodeMetrics,
    PodMetrics,
}

impl ResourceKind {
    /// The scope of a kind: fixed per kind, never a function of run-time state.
    pub open spec fn scope_of(self) -> Scope {
        match self {
            ResourceKind::Pod
            | ResourceKind::Service
            | ResourceKind::ConfigMap
            | ResourceKind::StatefulSet
            | ResourceKind::ReplicaSet
            | ResourceKind::Job
            | ResourceKind::CronJob
            | ResourceKind::Secret
            | ResourceKind::ReplicationController
            | ResourceKind::Deployment
            | ResourceKind::DaemonSet
            | ResourceKind::Role
            | ResourceKind::RoleBinding
            | ResourceKind::Ingress
            | ResourceKind::PersistentVolumeClaim
            | ResourceKind::ServiceAccount => Scope::NamespaceScoped,
            _ => Scope::ClusterScoped,
        }
    }

    /// The name under which a kind appears in error reports.
    pub open spec fn label_of(self) -> Seq<char> {
        match self {
            ResourceKind::Pod => "Pod"@,
            ResourceKind::Service => "Service"@,
            ResourceKind::ConfigMap => "ConfigMap"@,
            ResourceKind::StatefulSet => "StatefulSet"@,
            ResourceKind::ReplicaSet => "ReplicaSet"@,
            ResourceKind::Job => "Job"@,
            ResourceKind::CronJob => "CronJob"@,
            ResourceKind::Secret => "Secret"@,
            ResourceKind::ReplicationController => "ReplicationController"@,
            ResourceKind::Deployment => "Deployment"@,
            ResourceKind::DaemonSet => "DaemonSet"@,
            ResourceKind::Role => "Role"@,
            ResourceKind::RoleBinding => "RoleBinding"@,
            ResourceKind::Ingress => "Ingress"@,
            ResourceKind::PersistentVolumeClaim => "PersistentVolumeClaim"@,
            ResourceKind::ServiceAccount => "ServiceAccount"@,
            ResourceKind::Namespace => "Namespace"@,
            ResourceKind::Node => "Node"@,
            ResourceKind::StorageClass => "StorageClass"@,
            ResourceKind::ClusterRole => "ClusterRole"@,
            ResourceKind::ClusterRoleBinding => "ClusterRoleBinding"@,
            ResourceKind::PersistentVolume => "PersistentVolume"@,
            ResourceKind::NodeMetrics => "NodeMetrics"@,
            ResourceKind::PodMetrics => "PodMetrics"@,
        }
    }

    /// The scope of the kind.
    pub fn scope(&self) -> (s: Scope)
        ensures
            s == self.scope_of(),
    {
        match self {
            ResourceKind::Pod
            | ResourceKind::Service
            | ResourceKind::ConfigMap
            | ResourceKind::StatefulSet
            | ResourceKind::ReplicaSet
            | ResourceKind::Job
            | ResourceKind::CronJob
            | ResourceKind::Secret
            | ResourceKind::ReplicationController
            | ResourceKind::Deployment
            | ResourceKind::DaemonSet
            | ResourceKind::Role
            | ResourceKind::RoleBinding
            | ResourceKind::Ingress
            | ResourceKind::PersistentVolumeClaim
            | ResourceKind::ServiceAccount => Scope::NamespaceScoped,
            _ => Scope::ClusterScoped,
        }
    }

    /// The name under which the kind appears in error reports.
    pub fn label(&self) -> (s: &'static str)
        ensures
            s@ == self.label_of(),
    {
        match self {
            ResourceKind::Pod => "Pod",
            ResourceKind::Service => "Service",
            ResourceKind::ConfigMap => "ConfigMap",
            ResourceKind::StatefulSet => "StatefulSet",
            ResourceKind::ReplicaSet => "ReplicaSet",
            ResourceKind::Job => "Job",
            ResourceKind::CronJob => "CronJob",
            ResourceKind::Secret => "Secret",
            ResourceKind::ReplicationController => "ReplicationController",
            ResourceKind::Deployment => "Deployment",
            ResourceKind::DaemonSet => "DaemonSet",
            ResourceKind::Role => "Role",
            ResourceKind::RoleBinding => "RoleBinding",
            ResourceKind::Ingress => "Ingress",
            ResourceKind::PersistentVolumeClaim => "PersistentVolumeClaim",
            ResourceKind::ServiceAccount => "ServiceAccount",
            ResourceKind::Namespace => "Namespace",
            ResourceKind::Node => "Node",
            ResourceKind::StorageClass => "StorageClass",
            ResourceKind::ClusterRole => "ClusterRole",
            ResourceKind::ClusterRoleBinding => "ClusterRoleBinding",
            ResourceKind::PersistentVolume => "PersistentVolume",
            ResourceKind::NodeMetrics => "NodeMetrics",
            ResourceKind::PodMetrics => "PodMetrics",
        }
    }
}

} // verus!
