use cluster_sync::nodes::{enrich, pods_placed_on, position_of, NodeLoad};
use cluster_sync::text::{copy_text, same_text};

fn names(values: &[&str]) -> Vec<String> {
    values.iter().map(|s| s.to_string()).collect()
}

fn placements(values: &[Option<&str>]) -> Vec<Option<String>> {
    values.iter().map(|v| v.map(|s| s.to_string())).collect()
}

#[test]
fn every_node_gets_its_pods_and_its_sample() {
    let loads = enrich(
        &names(&["n1", "n2", "n3"]),
        &placements(&[Some("n2"), Some("n1"), None, Some("n2"), Some("gone")]),
        &names(&["n3", "n1"]),
    );
    assert_eq!(
        loads,
        vec![
            NodeLoad { pods: vec![1], metrics: Some(1) },
            NodeLoad { pods: vec![0, 3], metrics: None },
            NodeLoad { pods: vec![], metrics: Some(0) },
        ]
    );
}

#[test]
fn failed_pod_listing_leaves_every_node_without_pods() {
    let loads = enrich(&names(&["n1", "n2"]), &vec![], &names(&["n1", "n2"]));
    assert_eq!(
        loads,
        vec![
            NodeLoad { pods: vec![], metrics: Some(0) },
            NodeLoad { pods: vec![], metrics: Some(1) },
        ]
    );
}

#[test]
fn failed_metrics_listing_leaves_every_node_without_a_sample() {
    let loads = enrich(&names(&["n1", "n2"]), &placements(&[Some("n1")]), &vec![]);
    assert_eq!(
        loads,
        vec![NodeLoad { pods: vec![0], metrics: None }, NodeLoad { pods: vec![], metrics: None }]
    );
}

#[test]
fn no_nodes_give_no_loads() {
    assert!(enrich(&vec![], &placements(&[Some("n1")]), &names(&["n1"])).is_empty());
}

#[test]
fn first_sample_of_a_name_wins() {
    assert_eq!(position_of(&names(&["a", "b", "a", "b"]), &"b".to_string()), Some(1));
    assert_eq!(position_of(&names(&["a", "b"]), &"c".to_string()), None);
    assert_eq!(position_of(&vec![], &"c".to_string()), None);
}

#[test]
fn selected_pod_is_found_by_its_name() {
    let pods = names(&["web-0", "web-1", "db-0"]);
    assert_eq!(position_of(&pods, &"web-1".to_string()), Some(1));
    assert_eq!(position_of(&pods, &"web".to_string()), None);
}

#[test]
fn pods_are_listed_in_the_order_of_the_pod_list() {
    let placed = placements(&[Some("n1"), None, Some("n1"), Some("n10"), Some("n1")]);
    assert_eq!(pods_placed_on(&placed, &"n1".to_string()), vec![0, 2, 4]);
    assert_eq!(pods_placed_on(&placed, &"n10".to_string()), vec![3]);
    assert_eq!(pods_placed_on(&placed, &"n".to_string()), Vec::<usize>::new());
}

#[test]
fn optional_names_compare_by_content() {
    let a = Some("x".to_string());
    let b = Some("x".to_string());
    let c = Some("y".to_string());
    assert!(same_text(&a, &b));
    assert!(!same_text(&a, &c));
    assert!(!same_text(&a, &None));
    assert!(!same_text(&None, &a));
    assert!(same_text(&None, &None));
    assert_eq!(copy_text(&a), a);
    assert_eq!(copy_text(&None), None);
}
