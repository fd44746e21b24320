use cluster_sync::allocation::{
    capacity_stage, request_stage, select, usage_stage, Allocation, Measure,
};
use cluster_sync::reconcile::{NodeCapacity, PodRequest, PodUsage, Stage, StageOutcome};

fn stated(
    resource: &str,
    measure: Measure,
    amount: i64,
    node: Option<&str>,
    namespace: Option<&str>,
    pod: Option<&str>,
) -> Allocation {
    Allocation {
        resource: resource.to_string(),
        measure,
        amount,
        node: node.map(|s| s.to_string()),
        namespace: namespace.map(|s| s.to_string()),
        pod: pod.map(|s| s.to_string()),
    }
}

fn mixed() -> Vec<Allocation> {
    vec![
        stated("cpu", Measure::Allocatable, 4000, Some("n1"), None, None),
        stated("memory", Measure::Allocatable, 8_000_000, Some("n1"), None, None),
        stated("cpu", Measure::Requested, 500, Some("n1"), Some("default"), Some("p1")),
        stated("cpu", Measure::Limit, 1000, Some("n1"), Some("default"), Some("p1")),
        stated("cpu", Measure::Utilization, 120, None, Some("default"), Some("p1")),
        stated("cpu", Measure::Allocatable, 2000, Some("n2"), None, None),
        stated("cpu", Measure::Requested, 0, None, Some("default"), Some("pending")),
    ]
}

#[test]
fn stages_read_their_own_measure() {
    assert_eq!(Stage::Capacity.measure(), Measure::Allocatable);
    assert_eq!(Stage::Requests.measure(), Measure::Requested);
    assert_eq!(Stage::Usage.measure(), Measure::Utilization);
}

#[test]
fn selection_keeps_the_order_of_the_allocations() {
    let cpu = "cpu".to_string();
    assert_eq!(select(Stage::Capacity, &cpu, &mixed()), Some(vec![0, 5]));
    assert_eq!(select(Stage::Requests, &cpu, &mixed()), Some(vec![2, 6]));
    assert_eq!(select(Stage::Usage, &cpu, &mixed()), Some(vec![4]));
    assert_eq!(select(Stage::Capacity, &"memory".to_string(), &mixed()), Some(vec![1]));
    assert_eq!(select(Stage::Usage, &"memory".to_string(), &mixed()), Some(vec![]));
    assert_eq!(select(Stage::Usage, &cpu, &vec![]), Some(vec![]));
}

#[test]
fn capacity_stage_reads_the_allocatable_amounts_of_the_resource() {
    assert_eq!(
        capacity_stage(&"cpu".to_string(), &mixed()),
        StageOutcome::Collected(vec![
            NodeCapacity { node: "n1".to_string(), allocatable: 4000 },
            NodeCapacity { node: "n2".to_string(), allocatable: 2000 },
        ])
    );
}

#[test]
fn request_stage_reads_the_requested_amounts_of_the_resource() {
    assert_eq!(
        request_stage(&"cpu".to_string(), &mixed()),
        StageOutcome::Collected(vec![
            PodRequest {
                namespace: "default".to_string(),
                pod: "p1".to_string(),
                container: None,
                node: Some("n1".to_string()),
                requested: 500,
            },
            PodRequest {
                namespace: "default".to_string(),
                pod: "pending".to_string(),
                container: None,
                node: None,
                requested: 0,
            },
        ])
    );
}

#[test]
fn usage_stage_reads_the_utilization_amounts_of_the_resource() {
    assert_eq!(
        usage_stage(&"cpu".to_string(), &mixed()),
        StageOutcome::Collected(vec![PodUsage {
            namespace: "default".to_string(),
            pod: "p1".to_string(),
            container: None,
            used: 120,
        }])
    );
}

#[test]
fn missing_names_are_read_as_empty() {
    let allocations = vec![
        stated("cpu", Measure::Allocatable, 1, None, None, None),
        stated("cpu", Measure::Requested, 2, None, None, None),
        stated("cpu", Measure::Utilization, 3, None, None, None),
    ];
    let cpu = "cpu".to_string();
    assert_eq!(
        capacity_stage(&cpu, &allocations),
        StageOutcome::Collected(vec![NodeCapacity { node: String::new(), allocatable: 1 }])
    );
    assert_eq!(
        request_stage(&cpu, &allocations),
        StageOutcome::Collected(vec![PodRequest {
            namespace: String::new(),
            pod: String::new(),
            container: None,
            node: None,
            requested: 2,
        }])
    );
    assert_eq!(
        usage_stage(&cpu, &allocations),
        StageOutcome::Collected(vec![PodUsage {
            namespace: String::new(),
            pod: String::new(),
            container: None,
            used: 3,
        }])
    );
}

#[test]
fn amount_below_zero_makes_its_stage_unreadable() {
    let mut allocations = mixed();
    allocations.push(stated("cpu", Measure::Requested, -1, None, Some("x"), Some("y")));
    let cpu = "cpu".to_string();
    assert_eq!(select(Stage::Requests, &cpu, &allocations), None);
    assert_eq!(
        request_stage(&cpu, &allocations),
        StageOutcome::Unreadable("negative amount of cpu".to_string())
    );
    assert!(matches!(capacity_stage(&cpu, &allocations), StageOutcome::Collected(_)));
    assert!(matches!(usage_stage(&cpu, &allocations), StageOutcome::Collected(_)));
}

#[test]
fn amount_below_zero_of_another_resource_or_measure_is_not_read() {
    let allocations = vec![
        stated("memory", Measure::Allocatable, -5, Some("n1"), None, None),
        stated("cpu", Measure::Limit, -5, Some("n1"), None, None),
        stated("cpu", Measure::Allocatable, i64::MAX, Some("n1"), None, None),
    ];
    assert_eq!(
        capacity_stage(&"cpu".to_string(), &allocations),
        StageOutcome::Collected(vec![NodeCapacity {
            node: "n1".to_string(),
            allocatable: i64::MAX as u64,
        }])
    );
    assert_eq!(
        capacity_stage(&"memory".to_string(), &allocations),
        StageOutcome::Unreadable("negative amount of memory".to_string())
    );
}
