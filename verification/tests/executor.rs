use render_core::bindings::{RenderResourceBinding, RenderResourceBindings};
use render_core::executor::{execute, Frame};
use render_core::runner::{LoggedRunner, NodeFailure, NodeRunner};
use render_core::graph::{RenderGraph, RenderNode};

fn slots(inputs: &[&str], outputs: &[&str]) -> RenderNode {
    RenderNode {
        inputs: inputs.iter().map(|s| s.to_string()).collect(),
        outputs: outputs.iter().map(|s| s.to_string()).collect(),
    }
}

const SENTINEL: RenderResourceBinding = RenderResourceBinding::Texture { resource: 4242 };

/// Runs nodes by index: what each node returns is looked up in `plan`, and
/// every call is written down with the inputs it was given.
struct Scripted {
    plan: Vec<Result<Vec<RenderResourceBinding>, (bool, &'static str)>>,
    calls: Vec<(usize, Vec<RenderResourceBinding>)>,
}

impl NodeRunner for Scripted {
    fn run(&mut self, node: usize, inputs: &Vec<RenderResourceBinding>) -> Result<Vec<RenderResourceBinding>, NodeFailure> {
        self.calls.push((node, inputs.clone()));
        match &self.plan[node] {
            Ok(outputs) => Ok(outputs.clone()),
            Err((true, name)) => Err(NodeFailure::MissingBinding(name.to_string())),
            Err((false, reason)) => Err(NodeFailure::Failed(reason.to_string())),
        }
    }
}

#[test]
fn consumer_sees_what_the_producer_wrote() {
    let mut graph = RenderGraph::new();
    graph.add_node("B", slots(&["in"], &[])).unwrap();
    graph.add_node("A", slots(&[], &["out"])).unwrap();
    graph.add_slot_edge("A", "out", "B", "in").unwrap();
    let shared = RenderResourceBindings::new();
    let mut runner = LoggedRunner::new(Scripted { plan: vec![Ok(vec![]), Ok(vec![SENTINEL])], calls: vec![] });
    let report = execute(&graph, &shared, &mut runner);
    assert_eq!(report.executed, vec![1, 0]);
    assert!(report.skipped.is_empty());
    assert!(report.missing.is_empty());
    assert!(report.aborted.is_none());
    assert_eq!(runner.runner().calls, vec![(1, vec![]), (0, vec![SENTINEL])]);
}

#[test]
fn unfed_slot_is_taken_from_the_shared_bindings() {
    let mut graph = RenderGraph::new();
    graph.add_node("pass", slots(&["camera", "depth"], &[])).unwrap();
    let mut shared = RenderResourceBindings::new();
    shared.set("depth", RenderResourceBinding::Texture { resource: 2 });
    shared.set("camera", RenderResourceBinding::Buffer { resource: 1, dynamic: false });
    let mut runner = LoggedRunner::new(Scripted { plan: vec![Ok(vec![])], calls: vec![] });
    let report = execute(&graph, &shared, &mut runner);
    assert_eq!(report.executed, vec![0]);
    assert_eq!(
        runner.runner().calls,
        vec![(
            0,
            vec![
                RenderResourceBinding::Buffer { resource: 1, dynamic: false },
                RenderResourceBinding::Texture { resource: 2 },
            ]
        )]
    );
}

#[test]
fn slot_edge_overrides_the_shared_binding() {
    let mut graph = RenderGraph::new();
    graph.add_node("A", slots(&[], &["color"])).unwrap();
    graph.add_node("B", slots(&["color"], &[])).unwrap();
    graph.add_slot_edge("A", "color", "B", "color").unwrap();
    let mut shared = RenderResourceBindings::new();
    shared.set("color", RenderResourceBinding::Texture { resource: 1 });
    let mut runner = LoggedRunner::new(Scripted { plan: vec![Ok(vec![SENTINEL]), Ok(vec![])], calls: vec![] });
    execute(&graph, &shared, &mut runner);
    assert_eq!(runner.runner().calls, vec![(0, vec![]), (1, vec![SENTINEL])]);
}

#[test]
fn missing_binding_skips_the_node_and_the_frame_goes_on() {
    let mut graph = RenderGraph::new();
    graph.add_node("first", slots(&[], &[])).unwrap();
    graph.add_node("broken", slots(&[], &[])).unwrap();
    graph.add_node("last", slots(&[], &[])).unwrap();
    let shared = RenderResourceBindings::new();
    let mut runner = LoggedRunner::new(Scripted {
        plan: vec![Ok(vec![]), Err((true, "lights")), Ok(vec![])],
        calls: vec![],
    });
    let report = execute(&graph, &shared, &mut runner);
    assert_eq!(report.executed, vec![0, 2]);
    assert_eq!(report.skipped, vec![1]);
    assert_eq!(report.missing, vec!["lights".to_string()]);
    assert!(report.aborted.is_none());
    assert_eq!(runner.runner().calls.len(), 3);
}

#[test]
fn missing_name_is_noted_once() {
    let mut graph = RenderGraph::new();
    graph.add_node("a", slots(&["lights"], &[])).unwrap();
    graph.add_node("b", slots(&["lights"], &[])).unwrap();
    graph.add_node("c", slots(&["fog"], &[])).unwrap();
    let shared = RenderResourceBindings::new();
    let mut runner = LoggedRunner::new(Scripted { plan: vec![Ok(vec![]), Ok(vec![]), Ok(vec![])], calls: vec![] });
    let report = execute(&graph, &shared, &mut runner);
    assert!(report.executed.is_empty());
    assert_eq!(report.skipped, vec![0, 1, 2]);
    assert_eq!(report.missing, vec!["lights".to_string(), "fog".to_string()]);
    assert!(runner.runner().calls.is_empty());
}

#[test]
fn skipped_producer_leaves_its_consumer_without_input() {
    let mut graph = RenderGraph::new();
    graph.add_node("A", slots(&["seed"], &["out"])).unwrap();
    graph.add_node("B", slots(&["in"], &[])).unwrap();
    graph.add_slot_edge("A", "out", "B", "in").unwrap();
    let shared = RenderResourceBindings::new();
    let mut runner = LoggedRunner::new(Scripted { plan: vec![Ok(vec![SENTINEL]), Ok(vec![])], calls: vec![] });
    let report = execute(&graph, &shared, &mut runner);
    assert_eq!(report.skipped, vec![0, 1]);
    assert_eq!(report.missing, vec!["seed".to_string(), "in".to_string()]);
}

#[test]
fn other_failure_gives_up_the_rest_of_the_frame() {
    let mut graph = RenderGraph::new();
    graph.add_node("first", slots(&[], &[])).unwrap();
    graph.add_node("broken", slots(&[], &[])).unwrap();
    graph.add_node("last", slots(&[], &[])).unwrap();
    let shared = RenderResourceBindings::new();
    let mut runner = LoggedRunner::new(Scripted {
        plan: vec![Ok(vec![]), Err((false, "device lost")), Ok(vec![])],
        calls: vec![],
    });
    let report = execute(&graph, &shared, &mut runner);
    assert_eq!(report.executed, vec![0]);
    assert!(report.skipped.is_empty());
    let abort = report.aborted.unwrap();
    assert_eq!(abort.node, 1);
    assert_eq!(abort.name, "broken");
    assert_eq!(abort.reason, "device lost");
    assert_eq!(runner.runner().calls.len(), 2);
    // The next frame starts afresh on the same graph.
    let mut inner = runner.into_inner();
    inner.plan[1] = Ok(vec![]);
    let mut runner = LoggedRunner::new(inner);
    assert_eq!(graph.schedule(), &vec![0, 1, 2]);
    let report = execute(&graph, &shared, &mut runner);
    assert_eq!(report.executed, vec![0, 1, 2]);
    assert!(report.aborted.is_none());
}

#[test]
fn frame_goes_step_by_step() {
    let mut graph = RenderGraph::new();
    graph.add_node("A", slots(&[], &["out"])).unwrap();
    graph.add_node("B", slots(&["in"], &[])).unwrap();
    graph.add_slot_edge("A", "out", "B", "in").unwrap();
    let shared = RenderResourceBindings::new();
    let mut frame = Frame::begin(&graph);
    assert_eq!(frame.next_node(&graph), Some(0));
    assert_eq!(frame.resolve(&graph, &shared), Ok(vec![]));
    frame.finish(&graph, Ok(vec![SENTINEL]));
    assert_eq!(frame.next_node(&graph), Some(1));
    assert_eq!(frame.resolve(&graph, &shared), Ok(vec![SENTINEL]));
    frame.finish(&graph, Err(NodeFailure::MissingBinding("lights".to_string())));
    assert_eq!(frame.next_node(&graph), None);
    let report = frame.into_report();
    assert_eq!(report.executed, vec![0]);
    assert_eq!(report.skipped, vec![1]);
    assert_eq!(report.missing, vec!["lights".to_string()]);
}

#[test]
fn producer_with_too_few_outputs_counts_as_missing() {
    let mut graph = RenderGraph::new();
    graph.add_node("A", slots(&[], &["x", "y"])).unwrap();
    graph.add_node("B", slots(&["y"], &[])).unwrap();
    graph.add_slot_edge("A", "y", "B", "y").unwrap();
    let shared = RenderResourceBindings::new();
    let mut frame = Frame::begin(&graph);
    frame.finish(&graph, Ok(vec![SENTINEL]));
    assert_eq!(frame.resolve(&graph, &shared), Err("y".to_string()));
}
