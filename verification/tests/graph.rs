use render_core::graph::{GraphError, RenderGraph, RenderNode};
use render_core::topology::Edge;

fn slots(inputs: &[&str], outputs: &[&str]) -> RenderNode {
    RenderNode {
        inputs: inputs.iter().map(|s| s.to_string()).collect(),
        outputs: outputs.iter().map(|s| s.to_string()).collect(),
    }
}

#[test]
fn shadow_runs_before_main_pass() {
    let mut graph = RenderGraph::new();
    assert_eq!(graph.add_node("MainPass", slots(&["shadow_map"], &[])), Ok(0));
    assert_eq!(graph.add_node("Shadow", slots(&[], &["shadow_map"])), Ok(1));
    assert_eq!(graph.schedule(), &vec![0, 1]);
    assert_eq!(graph.add_slot_edge("Shadow", "shadow_map", "MainPass", "shadow_map"), Ok(()));
    assert_eq!(graph.schedule(), &vec![1, 0]);
    assert_eq!(
        graph.edges(),
        &vec![Edge::Slot { from: 1, from_slot: 0, to: 0, to_slot: 0 }]
    );
    assert_eq!(graph.remove_slot_edge("Shadow", "shadow_map", "MainPass", "shadow_map"), Ok(()));
    assert_eq!(graph.schedule(), &vec![0, 1]);
    assert!(graph.edges().is_empty());
}

#[test]
fn edge_that_closes_a_cycle_is_refused() {
    let mut graph = RenderGraph::new();
    graph.add_node("a", slots(&[], &[])).unwrap();
    graph.add_node("b", slots(&[], &[])).unwrap();
    graph.add_node("c", slots(&[], &[])).unwrap();
    assert_eq!(graph.add_node_edge("a", "b"), Ok(()));
    assert_eq!(graph.add_node_edge("b", "c"), Ok(()));
    let edges_before = graph.edges().clone();
    let schedule_before = graph.schedule().clone();
    assert_eq!(graph.add_node_edge("c", "a"), Err(GraphError::Cycle));
    assert_eq!(graph.add_node_edge("a", "a"), Err(GraphError::Cycle));
    assert_eq!(graph.edges(), &edges_before);
    assert_eq!(graph.schedule(), &schedule_before);
    assert_eq!(graph.node_count(), 3);
}

#[test]
fn duplicate_name_is_refused() {
    let mut graph = RenderGraph::new();
    assert_eq!(graph.add_node("a", slots(&[], &[])), Ok(0));
    assert_eq!(graph.add_node("a", slots(&["x"], &[])), Err(GraphError::DuplicateName));
    assert_eq!(graph.node_count(), 1);
    assert!(graph.node(0).inputs.is_empty());
}

#[test]
fn edge_to_unknown_node_is_refused() {
    let mut graph = RenderGraph::new();
    graph.add_node("a", slots(&[], &["out"])).unwrap();
    assert_eq!(graph.add_node_edge("a", "b"), Err(GraphError::UnknownNode));
    assert_eq!(graph.add_node_edge("b", "a"), Err(GraphError::UnknownNode));
    assert_eq!(graph.add_slot_edge("a", "out", "b", "in"), Err(GraphError::UnknownNode));
    assert_eq!(graph.remove_node_edge("a", "b"), Err(GraphError::UnknownNode));
    assert!(graph.edges().is_empty());
}

#[test]
fn edge_to_unknown_slot_is_refused() {
    let mut graph = RenderGraph::new();
    graph.add_node("a", slots(&[], &["out"])).unwrap();
    graph.add_node("b", slots(&["in"], &[])).unwrap();
    assert_eq!(graph.add_slot_edge("a", "nope", "b", "in"), Err(GraphError::UnknownSlot));
    assert_eq!(graph.add_slot_edge("a", "out", "b", "nope"), Err(GraphError::UnknownSlot));
    assert_eq!(graph.add_slot_edge("a", "in", "b", "out"), Err(GraphError::UnknownSlot));
    assert_eq!(graph.remove_slot_edge("a", "out", "b", "nope"), Err(GraphError::UnknownSlot));
    assert!(graph.edges().is_empty());
}

#[test]
fn input_slot_takes_one_edge() {
    let mut graph = RenderGraph::new();
    graph.add_node("a", slots(&[], &["out"])).unwrap();
    graph.add_node("b", slots(&[], &["out"])).unwrap();
    graph.add_node("c", slots(&["in"], &[])).unwrap();
    assert_eq!(graph.add_slot_edge("a", "out", "c", "in"), Ok(()));
    assert_eq!(graph.add_slot_edge("b", "out", "c", "in"), Err(GraphError::SlotOccupied));
    assert_eq!(graph.input_source(2, 0), Some((0, 0)));
    assert_eq!(graph.input_source(2, 1), None);
    assert_eq!(graph.input_source(0, 0), None);
}

#[test]
fn same_edge_twice_is_refused() {
    let mut graph = RenderGraph::new();
    graph.add_node("a", slots(&[], &["out"])).unwrap();
    graph.add_node("b", slots(&["in"], &[])).unwrap();
    assert_eq!(graph.add_node_edge("a", "b"), Ok(()));
    assert_eq!(graph.add_node_edge("a", "b"), Err(GraphError::EdgeAlreadyExists));
    assert_eq!(graph.add_slot_edge("a", "out", "b", "in"), Ok(()));
    assert_eq!(graph.add_slot_edge("a", "out", "b", "in"), Err(GraphError::EdgeAlreadyExists));
    assert_eq!(graph.edges().len(), 2);
}

#[test]
fn removing_an_edge_that_is_not_there_is_refused() {
    let mut graph = RenderGraph::new();
    graph.add_node("a", slots(&[], &["out"])).unwrap();
    graph.add_node("b", slots(&["in"], &[])).unwrap();
    assert_eq!(graph.remove_node_edge("a", "b"), Err(GraphError::UnknownEdge));
    assert_eq!(graph.remove_slot_edge("a", "out", "b", "in"), Err(GraphError::UnknownEdge));
    graph.add_node_edge("a", "b").unwrap();
    assert_eq!(graph.remove_node_edge("b", "a"), Err(GraphError::UnknownEdge));
    assert_eq!(graph.remove_node_edge("a", "b"), Ok(()));
    assert!(graph.edges().is_empty());
}

#[test]
fn slot_edge_that_closes_a_cycle_is_refused() {
    let mut graph = RenderGraph::new();
    graph.add_node("a", slots(&["in"], &["out"])).unwrap();
    graph.add_node("b", slots(&["in"], &["out"])).unwrap();
    assert_eq!(graph.add_slot_edge("a", "out", "b", "in"), Ok(()));
    assert_eq!(graph.add_slot_edge("b", "out", "a", "in"), Err(GraphError::Cycle));
    assert_eq!(graph.add_slot_edge("a", "out", "a", "in"), Err(GraphError::Cycle));
    assert_eq!(graph.edges().len(), 1);
    assert_eq!(graph.schedule(), &vec![0, 1]);
}

#[test]
fn ties_are_broken_by_insertion_order() {
    let mut graph = RenderGraph::new();
    for name in ["e", "d", "c", "b", "a"] {
        graph.add_node(name, slots(&[], &[])).unwrap();
    }
    assert_eq!(graph.schedule(), &vec![0, 1, 2, 3, 4]);
    // "a" (4) before "e" (0), "b" (3) before "d" (1).
    graph.add_node_edge("a", "e").unwrap();
    graph.add_node_edge("b", "d").unwrap();
    assert_eq!(graph.schedule(), &vec![2, 3, 1, 4, 0]);
}

#[test]
fn schedule_holds_every_node_once_and_respects_every_edge() {
    let mut graph = RenderGraph::new();
    let names = ["n0", "n1", "n2", "n3", "n4", "n5", "n6"];
    for name in names {
        graph.add_node(name, slots(&[], &[])).unwrap();
    }
    let wanted = [(6, 0), (5, 0), (0, 3), (4, 3), (3, 1), (2, 1), (6, 2), (5, 4)];
    for (from, to) in wanted {
        assert_eq!(graph.add_node_edge(names[from], names[to]), Ok(()));
    }
    let schedule = graph.schedule().clone();
    assert_eq!(schedule, vec![5, 4, 6, 0, 2, 3, 1]);
    let mut sorted = schedule.clone();
    sorted.sort();
    assert_eq!(sorted, vec![0, 1, 2, 3, 4, 5, 6]);
    let place = |node: usize| schedule.iter().position(|v| *v == node).unwrap();
    for edge in graph.edges() {
        assert!(place(edge.from()) < place(edge.to()));
    }
}

#[test]
fn node_is_found_by_name() {
    let mut graph = RenderGraph::new();
    graph.add_node("a", slots(&["x", "y"], &["z"])).unwrap();
    graph.add_node("b", slots(&[], &[])).unwrap();
    assert_eq!(graph.get_node_id("a"), Some(0));
    assert_eq!(graph.get_node_id("b"), Some(1));
    assert_eq!(graph.get_node_id("c"), None);
    assert_eq!(graph.node_name(1), "b");
    assert_eq!(graph.node(0).inputs, vec!["x".to_string(), "y".to_string()]);
    assert_eq!(graph.node(0).outputs, vec!["z".to_string()]);
}

#[test]
fn sub_graph_is_attached_under_its_prefix() {
    let mut sub = RenderGraph::new();
    sub.add_node("blur", slots(&["in"], &["out"])).unwrap();
    sub.add_node("source", slots(&[], &["out"])).unwrap();
    sub.add_slot_edge("source", "out", "blur", "in").unwrap();
    let mut graph = RenderGraph::new();
    graph.add_node("main", slots(&["in"], &[])).unwrap();
    assert_eq!(graph.add_sub_graph("bloom/", &sub), Ok(()));
    assert_eq!(graph.node_count(), 3);
    assert_eq!(graph.get_node_id("bloom/blur"), Some(1));
    assert_eq!(graph.get_node_id("bloom/source"), Some(2));
    assert_eq!(graph.get_node_id("blur"), None);
    assert_eq!(
        graph.edges(),
        &vec![Edge::Slot { from: 2, from_slot: 0, to: 1, to_slot: 0 }]
    );
    assert_eq!(graph.schedule(), &vec![0, 2, 1]);
    assert_eq!(graph.add_slot_edge("bloom/blur", "out", "main", "in"), Ok(()));
    assert_eq!(graph.schedule(), &vec![2, 1, 0]);
    // A second copy goes under another prefix, not under the same one.
    assert_eq!(graph.add_sub_graph("bloom/", &sub), Err(GraphError::DuplicateName));
    assert_eq!(graph.node_count(), 3);
    assert_eq!(graph.add_sub_graph("glow/", &sub), Ok(()));
    assert_eq!(graph.node_count(), 5);
    assert_eq!(graph.edges().len(), 3);
    assert_eq!(graph.edges()[2], Edge::Slot { from: 4, from_slot: 0, to: 3, to_slot: 0 });
}
