use cluster_sync::fetch::{
    complete, complete_quietly, convert_all, list_target, FetchResult, ListTarget, ScopingContext,
};
use cluster_sync::kind::{ResourceKind, Scope};
use cluster_sync::report::{report_config_failure, report_fetch_failure, ErrorReport};
use cluster_sync::snapshot::Snapshot;

fn selected(ns: &str) -> ScopingContext {
    ScopingContext::Namespace(ns.to_string())
}

#[test]
fn namespaced_kind_follows_the_selected_namespace() {
    assert_eq!(
        list_target(ResourceKind::Pod, &selected("kube-system")),
        ListTarget::Namespace("kube-system".to_string())
    );
    assert_eq!(
        list_target(ResourceKind::Deployment, &selected("default")),
        ListTarget::Namespace("default".to_string())
    );
}

#[test]
fn namespaced_kind_without_selection_lists_everywhere() {
    assert_eq!(
        list_target(ResourceKind::Pod, &ScopingContext::AllNamespaces),
        ListTarget::ClusterWide
    );
    assert_eq!(
        list_target(ResourceKind::Secret, &ScopingContext::AllNamespaces),
        ListTarget::ClusterWide
    );
}

#[test]
fn cluster_scoped_kind_ignores_the_selection() {
    for kind in [
        ResourceKind::Node,
        ResourceKind::Namespace,
        ResourceKind::StorageClass,
        ResourceKind::ClusterRole,
        ResourceKind::ClusterRoleBinding,
        ResourceKind::PersistentVolume,
        ResourceKind::NodeMetrics,
        ResourceKind::PodMetrics,
    ] {
        assert_eq!(kind.scope(), Scope::ClusterScoped);
        assert_eq!(list_target(kind, &selected("default")), ListTarget::ClusterWide);
        assert_eq!(list_target(kind, &ScopingContext::AllNamespaces), ListTarget::ClusterWide);
    }
}

#[test]
fn every_namespaced_kind_is_namespace_scoped() {
    for kind in [
        ResourceKind::Pod,
        ResourceKind::Service,
        ResourceKind::ConfigMap,
        ResourceKind::StatefulSet,
        ResourceKind::ReplicaSet,
        ResourceKind::Job,
        ResourceKind::CronJob,
        ResourceKind::Secret,
        ResourceKind::ReplicationController,
        ResourceKind::Deployment,
        ResourceKind::DaemonSet,
        ResourceKind::Role,
        ResourceKind::RoleBinding,
        ResourceKind::Ingress,
        ResourceKind::PersistentVolumeClaim,
        ResourceKind::ServiceAccount,
    ] {
        assert_eq!(kind.scope(), Scope::NamespaceScoped);
        assert_eq!(
            list_target(kind, &selected("team-a")),
            ListTarget::Namespace("team-a".to_string())
        );
    }
}

#[test]
fn kinds_have_distinct_labels_and_slots() {
    let kinds = [
        ResourceKind::Pod,
        ResourceKind::Service,
        ResourceKind::ConfigMap,
        ResourceKind::StatefulSet,
        ResourceKind::ReplicaSet,
        ResourceKind::Job,
        ResourceKind::CronJob,
        ResourceKind::Secret,
        ResourceKind::ReplicationController,
        ResourceKind::Deployment,
        ResourceKind::DaemonSet,
        ResourceKind::Role,
        ResourceKind::RoleBinding,
        ResourceKind::Ingress,
        ResourceKind::PersistentVolumeClaim,
        ResourceKind::ServiceAccount,
        ResourceKind::Namespace,
        ResourceKind::Node,
        ResourceKind::StorageClass,
        ResourceKind::ClusterRole,
        ResourceKind::ClusterRoleBinding,
        ResourceKind::PersistentVolume,
        ResourceKind::NodeMetrics,
        ResourceKind::PodMetrics,
    ];
    for (i, a) in kinds.iter().enumerate() {
        assert_eq!(a.slot(), i);
        for b in kinds.iter().skip(i + 1) {
            assert_ne!(a.label(), b.label());
            assert_ne!(a.slot(), b.slot());
        }
    }
    assert_eq!(ResourceKind::PersistentVolumeClaim.label(), "PersistentVolumeClaim");
    assert_eq!(ResourceKind::Pod.label(), "Pod");
}

#[test]
fn conversion_keeps_the_order_of_the_answer() {
    let items = vec![3u32, 1, 2, 10];
    let out = convert_all(items, &|x: u32| format!("item-{}", x));
    assert_eq!(out, vec!["item-3", "item-1", "item-2", "item-10"]);
}

#[test]
fn conversion_calls_in_the_order_of_the_answer() {
    let seen = std::cell::RefCell::new(Vec::new());
    let out = convert_all(vec![5u8, 6, 7], &|x: u8| {
        seen.borrow_mut().push(x);
        x * 2
    });
    assert_eq!(out, vec![10, 12, 14]);
    assert_eq!(*seen.borrow(), vec![5, 6, 7]);
}

#[test]
fn conversion_of_nothing_is_nothing() {
    let out: Vec<u8> = convert_all(Vec::<u8>::new(), &|x: u8| x);
    assert!(out.is_empty());
}

#[test]
fn successful_fetch_converts_every_item() {
    let listed: Result<Vec<i32>, String> = Ok(vec![1, 2, 3]);
    let result = complete(ResourceKind::Service, listed, &|x: i32| x * 10);
    assert_eq!(result, FetchResult::Items(vec![10, 20, 30]));
}

#[test]
fn failed_namespaced_fetch_is_reported_with_its_kind_and_cause() {
    let listed: Result<Vec<i32>, String> = Err("connection refused".to_string());
    let result = complete(ResourceKind::Service, listed, &|x: i32| x);
    assert_eq!(
        result,
        FetchResult::Failed(ErrorReport {
            kind: Some(ResourceKind::Service),
            message: "Failed to get namespaced resource Service. connection refused".to_string(),
        })
    );
}

#[test]
fn failed_cluster_fetch_is_reported_with_its_kind_and_cause() {
    let report = report_fetch_failure(ResourceKind::StorageClass, "timeout");
    assert_eq!(report.kind, Some(ResourceKind::StorageClass));
    assert_eq!(report.message, "Failed to get resource StorageClass. timeout");
}

#[test]
fn failed_node_and_namespace_fetches_have_their_own_wording() {
    assert_eq!(
        report_fetch_failure(ResourceKind::Node, "x").message,
        "Failed to get nodes. x"
    );
    assert_eq!(
        report_fetch_failure(ResourceKind::Namespace, "y").message,
        "Failed to get namespaces. y"
    );
}

#[test]
fn failed_config_load_is_reported_without_a_kind() {
    let report = report_config_failure("no such file");
    assert_eq!(report.kind, None);
    assert_eq!(report.message, "Failed to load Kubernetes config. no such file");
}

#[test]
fn failing_node_metrics_fetch_is_silent_and_empty() {
    let listed: Result<Vec<u64>, String> = Err("metrics API not available".to_string());
    let items: Vec<u64> = complete_quietly(listed, &|x: u64| x);
    assert!(items.is_empty());
}

#[test]
fn successful_node_metrics_fetch_converts_every_item() {
    let listed: Result<Vec<u64>, String> = Ok(vec![7, 8]);
    let items: Vec<String> = complete_quietly(listed, &|x: u64| x.to_string());
    assert_eq!(items, vec!["7", "8"]);
}

#[test]
fn new_snapshot_is_empty_for_every_kind() {
    let snapshot: Snapshot<u8> = Snapshot::new();
    assert!(snapshot.items(ResourceKind::Pod).is_empty());
    assert!(snapshot.items(ResourceKind::PodMetrics).is_empty());
}

#[test]
fn failed_fetch_leaves_other_kinds_untouched() {
    let mut snapshot: Snapshot<String> = Snapshot::new();
    let pods = complete(
        ResourceKind::Pod,
        Ok(vec!["p1", "p2"]),
        &|x: &str| x.to_string(),
    );
    assert_eq!(snapshot.publish(ResourceKind::Pod, pods), None);
    let services: FetchResult<String> = complete(
        ResourceKind::Service,
        Err::<Vec<&str>, String>("boom".to_string()),
        &|x: &str| x.to_string(),
    );
    let report = snapshot.publish(ResourceKind::Service, services);
    assert_eq!(
        report,
        Some(ErrorReport {
            kind: Some(ResourceKind::Service),
            message: "Failed to get namespaced resource Service. boom".to_string(),
        })
    );
    assert_eq!(snapshot.items(ResourceKind::Pod), &vec!["p1".to_string(), "p2".to_string()]);
    assert!(snapshot.items(ResourceKind::Service).is_empty());
}

#[test]
fn successful_fetch_after_a_failed_one_publishes_all_items() {
    let mut snapshot: Snapshot<u32> = Snapshot::new();
    let failed: FetchResult<u32> =
        complete(ResourceKind::Job, Err::<Vec<u32>, String>("x".to_string()), &|x: u32| x);
    assert!(snapshot.publish(ResourceKind::Job, failed).is_some());
    let ok = complete(ResourceKind::CronJob, Ok(vec![1u32, 2, 3]), &|x: u32| x + 1);
    assert!(snapshot.publish(ResourceKind::CronJob, ok).is_none());
    assert_eq!(snapshot.items(ResourceKind::CronJob), &vec![2, 3, 4]);
    assert!(snapshot.items(ResourceKind::Job).is_empty());
}

#[test]
fn failed_fetch_empties_the_collection_of_its_own_kind() {
    let mut snapshot: Snapshot<u32> = Snapshot::new();
    snapshot.publish(ResourceKind::Secret, FetchResult::Items(vec![1, 2]));
    assert_eq!(snapshot.items(ResourceKind::Secret), &vec![1, 2]);
    let failed = FetchResult::Failed(report_fetch_failure(ResourceKind::Secret, "gone"));
    assert!(snapshot.publish(ResourceKind::Secret, failed).is_some());
    assert!(snapshot.items(ResourceKind::Secret).is_empty());
}

#[test]
fn last_publish_wins_per_kind() {
    let mut snapshot: Snapshot<u32> = Snapshot::new();
    snapshot.publish(ResourceKind::Node, FetchResult::Items(vec![1]));
    snapshot.publish(ResourceKind::Node, FetchResult::Items(vec![2, 3]));
    assert_eq!(snapshot.items(ResourceKind::Node), &vec![2, 3]);
}

#[test]
fn caller_always_receives_a_sequence_and_maybe_a_report() {
    let ok: FetchResult<u8> = FetchResult::Items(vec![1, 2]);
    assert_eq!(ok.into_parts(), (vec![1, 2], None));
    let report = report_fetch_failure(ResourceKind::Ingress, "denied");
    let failed: FetchResult<u8> = FetchResult::Failed(report.clone());
    assert_eq!(failed.into_parts(), (vec![], Some(report)));
}
