use render_core::count::cleared_flags;
use render_core::names::{copy_strings, find_name};
use render_core::reach::can_reach;
use render_core::schedule::compute_schedule;
use render_core::topology::Edge;

fn node_edge(from: usize, to: usize) -> Edge {
    Edge::Node { from, to }
}

#[test]
fn reachability_follows_edges_forwards_only() {
    let edges = vec![node_edge(0, 1), node_edge(1, 2), node_edge(3, 2)];
    assert!(can_reach(4, &edges, 0, 2));
    assert!(can_reach(4, &edges, 1, 2));
    assert!(can_reach(4, &edges, 3, 2));
    assert!(!can_reach(4, &edges, 2, 0));
    assert!(!can_reach(4, &edges, 0, 3));
    assert!(!can_reach(4, &edges, 3, 1));
}

#[test]
fn every_node_reaches_itself() {
    let edges: Vec<Edge> = vec![];
    assert!(can_reach(2, &edges, 0, 0));
    assert!(can_reach(2, &edges, 1, 1));
    assert!(!can_reach(2, &edges, 0, 1));
}

#[test]
fn reachability_goes_through_edges_listed_in_reverse() {
    // The path 0 -> 1 -> 2 -> 3 -> 4 with its edges listed last first.
    let edges = vec![node_edge(3, 4), node_edge(2, 3), node_edge(1, 2), node_edge(0, 1)];
    assert!(can_reach(5, &edges, 0, 4));
    assert!(!can_reach(5, &edges, 4, 0));
}

#[test]
fn slot_edges_order_nodes_like_node_edges() {
    let edge = Edge::Slot { from: 2, from_slot: 1, to: 0, to_slot: 3 };
    assert_eq!(edge.from(), 2);
    assert_eq!(edge.to(), 0);
    assert_eq!(compute_schedule(3, &vec![edge]), vec![1, 2, 0]);
}

#[test]
fn schedule_of_no_nodes_is_empty() {
    assert_eq!(compute_schedule(0, &vec![]), Vec::<usize>::new());
}

#[test]
fn schedule_without_edges_is_insertion_order() {
    assert_eq!(compute_schedule(4, &vec![]), vec![0, 1, 2, 3]);
}

#[test]
fn schedule_of_a_reversed_chain() {
    let edges = vec![node_edge(3, 2), node_edge(2, 1), node_edge(1, 0)];
    assert_eq!(compute_schedule(4, &edges), vec![3, 2, 1, 0]);
}

#[test]
fn cleared_flags_are_all_unset() {
    assert_eq!(cleared_flags(3), vec![false, false, false]);
    assert!(cleared_flags(0).is_empty());
}

#[test]
fn find_name_gives_the_first_place() {
    let names = vec!["a".to_string(), "b".to_string(), "a".to_string()];
    assert_eq!(find_name(&names, &"a".to_string()), Some(0));
    assert_eq!(find_name(&names, &"b".to_string()), Some(1));
    assert_eq!(find_name(&names, &"c".to_string()), None);
    assert_eq!(copy_strings(&names), names);
}
