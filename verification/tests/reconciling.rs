use cluster_sync::aggregate::{aggregate, project, AggregatedUtilization, Qualifier};
use cluster_sync::kind::ResourceKind;
use cluster_sync::ledger::{Ledger, LedgerRow, Placement};
use cluster_sync::reconcile::{
    gather, reconcile, report_stage_failure, NodeCapacity, PodRequest, PodUsage, Reading, Stage,
    StageOutcome,
};
use cluster_sync::report::ErrorReport;
use cluster_sync::sample::{Identity, ResourceSample};

fn node(name: &str, allocatable: u64) -> NodeCapacity {
    NodeCapacity { node: name.to_string(), allocatable }
}

fn request(ns: &str, pod: &str, on: Option<&str>, requested: u64) -> PodRequest {
    PodRequest {
        namespace: ns.to_string(),
        pod: pod.to_string(),
        container: None,
        node: on.map(|n| n.to_string()),
        requested,
    }
}

fn usage(ns: &str, pod: &str, used: u64) -> PodUsage {
    PodUsage { namespace: ns.to_string(), pod: pod.to_string(), container: None, used }
}

fn key(values: &[Option<&str>]) -> Vec<Option<String>> {
    values.iter().map(|v| v.map(|s| s.to_string())).collect()
}

fn bucket(
    values: &[Option<&str>],
    capacity: Option<u128>,
    requested: Option<u128>,
    used: Option<u128>,
) -> AggregatedUtilization {
    AggregatedUtilization { key: key(values), capacity, requested, used }
}

fn samples_of(
    nodes: &[NodeCapacity],
    requests: &[PodRequest],
    usages: &[PodUsage],
) -> (Vec<ResourceSample>, Vec<ResourceSample>, Vec<ResourceSample>) {
    (
        nodes.iter().map(|r| r.sample()).collect(),
        requests.iter().map(|r| r.sample()).collect(),
        usages.iter().map(|r| r.sample()).collect(),
    )
}

#[test]
fn example_scenario_grouped_by_node() {
    let done = reconcile(
        &StageOutcome::Collected(vec![node("n1", 4000)]),
        &StageOutcome::Collected(vec![request("default", "p1", Some("n1"), 500)]),
        &StageOutcome::Collected(vec![usage("default", "p1", 120)]),
        &vec![Qualifier::Node],
    );
    assert_eq!(done.reports, vec![]);
    assert_eq!(done.rows, vec![bucket(&[Some("n1")], Some(4000), Some(500), Some(120))]);
}

#[test]
fn example_scenario_merges_request_and_usage_of_one_pod() {
    let (a, b, c) = samples_of(
        &[node("n1", 4000)],
        &[request("default", "p1", Some("n1"), 500)],
        &[usage("default", "p1", 120)],
    );
    let all: Vec<ResourceSample> = a.into_iter().chain(b).chain(c).collect();
    let ledger = Ledger::merge(&all);
    assert_eq!(ledger.len(), 2);
    assert_eq!(
        ledger.rows(),
        &vec![
            LedgerRow {
                identity: Identity {
                    kind: ResourceKind::Node,
                    namespace: None,
                    name: "n1".to_string(),
                    container: None,
                },
                placement: Placement::Unknown,
                capacity: Some(4000),
                requested: None,
                used: None,
            },
            LedgerRow {
                identity: Identity {
                    kind: ResourceKind::Pod,
                    namespace: Some("default".to_string()),
                    name: "p1".to_string(),
                    container: None,
                },
                placement: Placement::On("n1".to_string()),
                capacity: None,
                requested: Some(500),
                used: Some(120),
            },
        ]
    );
}

#[test]
fn usage_that_arrives_before_the_request_still_finds_its_node() {
    let (a, b, c) = samples_of(
        &[node("n1", 4000)],
        &[request("default", "p1", Some("n1"), 500)],
        &[usage("default", "p1", 120)],
    );
    let all: Vec<ResourceSample> = c.into_iter().chain(b).chain(a).collect();
    let rows = aggregate(&Ledger::merge(&all), &vec![Qualifier::Node]);
    assert_eq!(rows, vec![bucket(&[Some("n1")], Some(4000), Some(500), Some(120))]);
}

#[test]
fn six_stage_orders_give_identical_totals() {
    let (a, b, c) = samples_of(
        &[node("n1", 4000), node("n2", 8000)],
        &[
            request("default", "p1", Some("n1"), 500),
            request("default", "p2", Some("n2"), 250),
            request("kube-system", "dns", Some("n1"), 100),
            request("kube-system", "pending", None, 75),
        ],
        &[usage("default", "p1", 120), usage("kube-system", "dns", 30), usage("gone", "px", 9)],
    );
    let orders: Vec<Vec<&Vec<ResourceSample>>> = vec![
        vec![&a, &b, &c],
        vec![&a, &c, &b],
        vec![&b, &a, &c],
        vec![&b, &c, &a],
        vec![&c, &a, &b],
        vec![&c, &b, &a],
    ];
    for qualifiers in [
        vec![Qualifier::Node],
        vec![Qualifier::Namespace],
        vec![Qualifier::Namespace, Qualifier::Pod],
        vec![Qualifier::Node, Qualifier::Namespace, Qualifier::Pod, Qualifier::Container],
        vec![],
    ] {
        let mut results = Vec::new();
        for order in &orders {
            let all: Vec<ResourceSample> =
                order.iter().flat_map(|part| part.iter().cloned()).collect();
            results.push(aggregate(&Ledger::merge(&all), &qualifiers));
        }
        assert!(!results[0].is_empty());
        for other in &results[1..] {
            assert_eq!(other, &results[0]);
        }
    }
}

#[test]
fn six_stage_orders_grouped_by_node_have_the_expected_totals() {
    let (a, b, c) = samples_of(
        &[node("n1", 4000), node("n2", 8000)],
        &[
            request("default", "p1", Some("n1"), 500),
            request("default", "p2", Some("n2"), 250),
            request("kube-system", "dns", Some("n1"), 100),
        ],
        &[usage("default", "p1", 120), usage("kube-system", "dns", 30)],
    );
    let all: Vec<ResourceSample> = b.into_iter().chain(c).chain(a).collect();
    let rows = aggregate(&Ledger::merge(&all), &vec![Qualifier::Node]);
    assert_eq!(
        rows,
        vec![
            bucket(&[Some("n1")], Some(4000), Some(600), Some(150)),
            bucket(&[Some("n2")], Some(8000), Some(250), None),
        ]
    );
}

#[test]
fn capacity_alone_leaves_request_and_usage_unknown() {
    let done = reconcile(
        &StageOutcome::Collected(vec![node("n1", 4000), node("n2", 2000)]),
        &StageOutcome::Unreachable("forbidden".to_string()),
        &StageOutcome::Unreachable("not found".to_string()),
        &vec![Qualifier::Node],
    );
    assert_eq!(
        done.rows,
        vec![
            bucket(&[Some("n1")], Some(4000), None, None),
            bucket(&[Some("n2")], Some(2000), None, None),
        ]
    );
    assert!(done.reports.len() >= 1);
    assert_eq!(
        done.reports,
        vec![
            ErrorReport {
                kind: Some(ResourceKind::Pod),
                message: "Failed to extract pod allocation metrics. forbidden".to_string(),
            },
            ErrorReport {
                kind: Some(ResourceKind::PodMetrics),
                message: "Failed to extract pod utilization metrics. Make sure you have a \
                          metrics-server deployed on your cluster."
                    .to_string(),
            },
        ]
    );
}

#[test]
fn failing_usage_stage_leaves_exactly_one_report() {
    let done = reconcile(
        &StageOutcome::Collected(vec![node("n1", 1)]),
        &StageOutcome::Collected(vec![request("default", "p1", Some("n1"), 1)]),
        &StageOutcome::Unreachable("no metrics".to_string()),
        &vec![Qualifier::Node],
    );
    assert_eq!(done.reports.len(), 1);
    assert_eq!(done.reports[0].kind, Some(ResourceKind::PodMetrics));
    let unreadable = reconcile(
        &StageOutcome::Collected(vec![]),
        &StageOutcome::Collected(vec![]),
        &StageOutcome::Unreadable("bad quantity".to_string()),
        &vec![],
    );
    assert_eq!(
        unreadable.reports,
        vec![ErrorReport {
            kind: Some(ResourceKind::PodMetrics),
            message: "Failed to extract pod utilization metrics. bad quantity".to_string(),
        }]
    );
}

#[test]
fn total_failure_gives_no_rows_and_three_reports() {
    let done = reconcile(
        &StageOutcome::Unreachable("a".to_string()),
        &StageOutcome::Unreadable("b".to_string()),
        &StageOutcome::Unreachable("c".to_string()),
        &vec![Qualifier::Namespace, Qualifier::Pod],
    );
    assert!(done.rows.is_empty());
    assert_eq!(
        done.reports.iter().map(|r| r.message.as_str()).collect::<Vec<_>>(),
        vec![
            "Failed to extract node allocation metrics. a",
            "Failed to extract pod allocation metrics. b",
            "Failed to extract pod utilization metrics. Make sure you have a metrics-server \
             deployed on your cluster.",
        ]
    );
    assert_eq!(
        done.reports.iter().map(|r| r.kind).collect::<Vec<_>>(),
        vec![
            Some(ResourceKind::Node),
            Some(ResourceKind::Pod),
            Some(ResourceKind::PodMetrics)
        ]
    );
}

#[test]
fn stage_failure_messages_are_exact() {
    assert_eq!(
        report_stage_failure(Stage::Capacity, false, "x").message,
        "Failed to extract node allocation metrics. x"
    );
    assert_eq!(
        report_stage_failure(Stage::Capacity, true, "x").message,
        "Failed to extract node allocation metrics. x"
    );
    assert_eq!(
        report_stage_failure(Stage::Requests, false, "y").message,
        "Failed to extract pod allocation metrics. y"
    );
    assert_eq!(
        report_stage_failure(Stage::Usage, true, "z").message,
        "Failed to extract pod utilization metrics. z"
    );
    assert_eq!(
        report_stage_failure(Stage::Usage, false, "z").message,
        "Failed to extract pod utilization metrics. Make sure you have a metrics-server deployed \
         on your cluster."
    );
}

#[test]
fn stages_list_their_own_kinds() {
    assert_eq!(Stage::Capacity.kind(), ResourceKind::Node);
    assert_eq!(Stage::Requests.kind(), ResourceKind::Pod);
    assert_eq!(Stage::Usage.kind(), ResourceKind::PodMetrics);
}

#[test]
fn gather_appends_samples_in_order() {
    let mut samples = vec![node("n0", 1).sample()];
    let mut reports = Vec::new();
    gather(
        Stage::Requests,
        &StageOutcome::Collected(vec![
            request("a", "p1", None, 5),
            request("b", "p2", Some("n1"), 6),
        ]),
        &mut samples,
        &mut reports,
    );
    assert!(reports.is_empty());
    assert_eq!(
        samples,
        vec![
            node("n0", 1).sample(),
            request("a", "p1", None, 5).sample(),
            request("b", "p2", Some("n1"), 6).sample(),
        ]
    );
    gather(
        Stage::Usage,
        &StageOutcome::<PodUsage>::Unreadable("bad".to_string()),
        &mut samples,
        &mut reports,
    );
    assert_eq!(samples.len(), 3);
    assert_eq!(reports.len(), 1);
}

#[test]
fn readings_become_samples_with_one_amount_each() {
    let s = node("n1", 7).sample();
    assert_eq!(s.identity.kind, ResourceKind::Node);
    assert_eq!(s.identity.namespace, None);
    assert_eq!(s.identity.name, "n1");
    assert_eq!((s.capacity, s.requested, s.used), (Some(7), None, None));
    let r = PodRequest {
        namespace: "ns".to_string(),
        pod: "p".to_string(),
        container: Some("c".to_string()),
        node: Some("n1".to_string()),
        requested: 3,
    }
    .sample();
    assert_eq!(r.identity.kind, ResourceKind::Pod);
    assert_eq!(r.identity.namespace, Some("ns".to_string()));
    assert_eq!(r.identity.container, Some("c".to_string()));
    assert_eq!(r.node, Some("n1".to_string()));
    assert_eq!((r.capacity, r.requested, r.used), (None, Some(3), None));
    let u = usage("ns", "p", 0).sample();
    assert_eq!(u.node, None);
    assert_eq!((u.capacity, u.requested, u.used), (None, None, Some(0)));
}

#[test]
fn empty_qualifier_list_gives_one_global_bucket() {
    let done = reconcile(
        &StageOutcome::Collected(vec![node("n1", 4000), node("n2", 1000)]),
        &StageOutcome::Collected(vec![
            request("default", "p1", Some("n1"), 500),
            request("other", "p2", None, 1),
        ]),
        &StageOutcome::Collected(vec![usage("default", "p1", 120)]),
        &vec![],
    );
    assert_eq!(done.rows, vec![bucket(&[], Some(5000), Some(501), Some(120))]);
}

#[test]
fn no_samples_give_no_bucket_even_without_qualifiers() {
    let rows = aggregate(&Ledger::merge(&vec![]), &vec![]);
    assert!(rows.is_empty());
}

#[test]
fn unknown_is_not_zero() {
    let done = reconcile(
        &StageOutcome::Collected(vec![]),
        &StageOutcome::Collected(vec![request("default", "idle", Some("n1"), 0)]),
        &StageOutcome::Collected(vec![usage("default", "busy", 0)]),
        &vec![Qualifier::Pod],
    );
    assert_eq!(
        done.rows,
        vec![
            bucket(&[Some("busy")], None, None, Some(0)),
            bucket(&[Some("idle")], None, Some(0), None),
        ]
    );
}

#[test]
fn rows_without_a_dimension_share_the_bucket_of_the_unknown_value() {
    let done = reconcile(
        &StageOutcome::Collected(vec![node("n1", 10), node("n2", 20)]),
        &StageOutcome::Collected(vec![request("default", "p1", Some("n1"), 3)]),
        &StageOutcome::Collected(vec![]),
        &vec![Qualifier::Namespace],
    );
    assert_eq!(
        done.rows,
        vec![
            bucket(&[None], Some(30), None, None),
            bucket(&[Some("default")], None, Some(3), None),
        ]
    );
}

#[test]
fn buckets_come_in_ascending_order_of_their_keys() {
    let done = reconcile(
        &StageOutcome::Collected(vec![node("zeta", 1), node("alpha", 2), node("zeta", 4)]),
        &StageOutcome::Collected(vec![]),
        &StageOutcome::Collected(vec![]),
        &vec![Qualifier::Node],
    );
    assert_eq!(
        done.rows,
        vec![
            bucket(&[Some("alpha")], Some(2), None, None),
            bucket(&[Some("zeta")], Some(5), None, None),
        ]
    );
}

#[test]
fn names_are_ordered_by_their_bytes() {
    let done = reconcile(
        &StageOutcome::Collected(vec![
            node("n2", 1),
            node("n10", 2),
            node("n1", 3),
            node("N1", 4),
            node("", 5),
            node("n", 6),
            node("\u{e9}", 7),
            node("z", 8),
        ]),
        &StageOutcome::Collected(vec![]),
        &StageOutcome::Collected(vec![]),
        &vec![Qualifier::Node],
    );
    let keys: Vec<Option<String>> = done.rows.iter().map(|row| row.key[0].clone()).collect();
    assert_eq!(
        keys,
        key(&[
            Some(""),
            Some("N1"),
            Some("n"),
            Some("n1"),
            Some("n10"),
            Some("n2"),
            Some("z"),
            Some("\u{e9}")
        ])
    );
    let mut expected = keys.clone();
    expected.sort();
    assert_eq!(keys, expected);
}

#[test]
fn keys_are_ordered_by_their_first_difference_and_unknown_comes_first() {
    let done = reconcile(
        &StageOutcome::Collected(vec![node("n1", 1)]),
        &StageOutcome::Collected(vec![
            request("b", "x", None, 2),
            request("a", "y", None, 3),
            request("a", "x", None, 4),
            request("b", "a", None, 5),
        ]),
        &StageOutcome::Collected(vec![]),
        &vec![Qualifier::Namespace, Qualifier::Pod],
    );
    assert_eq!(
        done.rows,
        vec![
            bucket(&[None, None], Some(1), None, None),
            bucket(&[Some("a"), Some("x")], None, Some(4), None),
            bucket(&[Some("a"), Some("y")], None, Some(3), None),
            bucket(&[Some("b"), Some("a")], None, Some(5), None),
            bucket(&[Some("b"), Some("x")], None, Some(2), None),
        ]
    );
    let mut expected = done.rows.clone();
    expected.sort_by(|a, b| a.key.cmp(&b.key));
    assert_eq!(done.rows, expected);
}

#[test]
fn samples_of_one_identity_coalesce_and_add_up() {
    let samples = vec![
        request("default", "p1", None, 100).sample(),
        request("default", "p1", Some("n1"), 50).sample(),
        usage("default", "p1", 7).sample(),
        usage("default", "p1", 8).sample(),
    ];
    let ledger = Ledger::merge(&samples);
    assert_eq!(ledger.len(), 1);
    let row = &ledger.rows()[0];
    assert_eq!(row.placement, Placement::On("n1".to_string()));
    assert_eq!((row.capacity, row.requested, row.used), (None, Some(150), Some(15)));
}

#[test]
fn identity_distinguishes_kind_namespace_name_and_container() {
    let base = Identity {
        kind: ResourceKind::Pod,
        namespace: Some("a".to_string()),
        name: "x".to_string(),
        container: None,
    };
    assert!(base.same_as(&base.duplicate()));
    let mut other = base.duplicate();
    other.kind = ResourceKind::Node;
    assert!(!base.same_as(&other));
    let mut other = base.duplicate();
    other.namespace = Some("b".to_string());
    assert!(!base.same_as(&other));
    let mut other = base.duplicate();
    other.namespace = None;
    assert!(!base.same_as(&other));
    let mut other = base.duplicate();
    other.name = "y".to_string();
    assert!(!base.same_as(&other));
    let mut other = base.duplicate();
    other.container = Some("c".to_string());
    assert!(!base.same_as(&other));
    let samples = vec![
        request("a", "x", None, 1).sample(),
        request("b", "x", None, 2).sample(),
        PodRequest {
            namespace: "a".to_string(),
            pod: "x".to_string(),
            container: Some("c".to_string()),
            node: None,
            requested: 4,
        }
        .sample(),
        node("x", 8).sample(),
    ];
    assert_eq!(Ledger::merge(&samples).len(), 4);
}

#[test]
fn disputed_placement_has_no_node_in_either_order() {
    let one = request("default", "p1", Some("n1"), 1).sample();
    let two = request("default", "p1", Some("n2"), 2).sample();
    let three = request("default", "p1", Some("n1"), 4).sample();
    for samples in [
        vec![one.clone(), two.clone(), three.clone()],
        vec![two.clone(), one.clone(), three.clone()],
        vec![three.clone(), one.clone(), two.clone()],
    ] {
        let ledger = Ledger::merge(&samples);
        assert_eq!(ledger.rows()[0].placement, Placement::Disputed);
        assert_eq!(ledger.rows()[0].requested, Some(7));
        let rows = aggregate(&ledger, &vec![Qualifier::Node]);
        assert_eq!(rows, vec![bucket(&[None], None, Some(7), None)]);
    }
}

#[test]
fn projection_takes_one_value_per_qualifier() {
    let samples = vec![
        PodRequest {
            namespace: "ns".to_string(),
            pod: "p".to_string(),
            container: Some("c".to_string()),
            node: Some("n".to_string()),
            requested: 1,
        }
        .sample(),
        node("n", 2).sample(),
    ];
    let ledger = Ledger::merge(&samples);
    let all = vec![Qualifier::Container, Qualifier::Pod, Qualifier::Node, Qualifier::Namespace];
    assert_eq!(
        project(&ledger.rows()[0], &all),
        key(&[Some("c"), Some("p"), Some("n"), Some("ns")])
    );
    assert_eq!(project(&ledger.rows()[1], &all), key(&[None, None, Some("n"), None]));
    assert_eq!(project(&ledger.rows()[1], &vec![]), key(&[]));
    assert_eq!(
        project(&ledger.rows()[0], &vec![Qualifier::Pod, Qualifier::Pod]),
        key(&[Some("p"), Some("p")])
    );
}

#[test]
fn buckets_partition_the_merged_rows() {
    let (a, b, c) = samples_of(
        &[node("n1", 4000), node("n2", 8000), node("n3", 16000)],
        &[
            request("default", "p1", Some("n1"), 500),
            request("default", "p2", Some("n2"), 250),
            request("kube-system", "dns", Some("n1"), 100),
            request("kube-system", "pending", None, 75),
        ],
        &[usage("default", "p1", 120), usage("kube-system", "dns", 30)],
    );
    let all: Vec<ResourceSample> = a.into_iter().chain(b).chain(c).collect();
    let ledger = Ledger::merge(&all);
    for qualifiers in [
        vec![Qualifier::Node],
        vec![Qualifier::Namespace],
        vec![Qualifier::Pod, Qualifier::Container],
        vec![Qualifier::Namespace, Qualifier::Node],
    ] {
        let buckets = aggregate(&ledger, &qualifiers);
        let mut members = vec![0usize; buckets.len()];
        for row in ledger.rows() {
            let k = project(row, &qualifiers);
            let hits: Vec<usize> =
                (0..buckets.len()).filter(|j| buckets[*j].key == k).collect();
            assert_eq!(hits.len(), 1);
            members[hits[0]] += 1;
        }
        assert!(members.iter().all(|n| *n >= 1));
        assert_eq!(members.iter().sum::<usize>(), ledger.len());
        let sum = |f: fn(&AggregatedUtilization) -> Option<u128>| -> u128 {
            buckets.iter().map(|b| f(b).unwrap_or(0)).sum()
        };
        assert_eq!(sum(|b| b.capacity), 28000);
        assert_eq!(sum(|b| b.requested), 925);
        assert_eq!(sum(|b| b.used), 150);
    }
}

#[test]
fn sums_beyond_sixty_four_bits_are_exact() {
    let done = reconcile(
        &StageOutcome::Collected(vec![node("n1", u64::MAX), node("n2", u64::MAX), node("n1", 3)]),
        &StageOutcome::Collected(vec![]),
        &StageOutcome::Collected(vec![]),
        &vec![],
    );
    assert_eq!(
        done.rows,
        vec![bucket(&[], Some(2 * (u64::MAX as u128) + 3), None, None)]
    );
}

#[test]
fn shares_are_whole_percent_rounded_down() {
    let row = bucket(&[Some("n1")], Some(4000), Some(500), Some(120));
    assert_eq!(row.requested_percent(), Some(12));
    assert_eq!(row.used_percent(), Some(3));
    let full = bucket(&[], Some(3), Some(3), Some(2));
    assert_eq!(full.requested_percent(), Some(100));
    assert_eq!(full.used_percent(), Some(66));
    let over = bucket(&[], Some(2), Some(5), Some(0));
    assert_eq!(over.requested_percent(), Some(250));
    assert_eq!(over.used_percent(), Some(0));
}

#[test]
fn there_is_no_share_of_an_unknown_or_empty_capacity() {
    assert_eq!(bucket(&[], None, Some(5), Some(1)).requested_percent(), None);
    assert_eq!(bucket(&[], None, Some(5), Some(1)).used_percent(), None);
    assert_eq!(bucket(&[], Some(0), Some(5), Some(1)).requested_percent(), None);
    assert_eq!(bucket(&[], Some(0), Some(0), Some(0)).used_percent(), None);
    assert_eq!(bucket(&[], Some(10), None, Some(1)).requested_percent(), None);
    assert_eq!(bucket(&[], Some(10), Some(1), None).used_percent(), None);
}

#[test]
fn there_is_no_share_where_the_hundredfold_does_not_fit() {
    let limit = u128::MAX / 100;
    assert_eq!(bucket(&[], Some(7), Some(limit), None).requested_percent(), Some(limit * 100 / 7));
    assert_eq!(bucket(&[], Some(7), Some(limit + 1), None).requested_percent(), None);
    assert_eq!(bucket(&[], Some(u128::MAX), None, Some(u128::MAX)).used_percent(), None);
}
