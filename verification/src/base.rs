//! The base render graph: the nodes and edges that a renderer starts from.

use vstd::prelude::*;
use crate::camera::{CAMERA2D, CAMERA3D};
use crate::graph::{GraphError, GraphView, NodeView, RenderGraph, RenderNode};
use crate::names::{lemma_lookup, lookup};
use crate::topology::{lemma_sink, Edge};

verus! {

/// Name of the node of the main pass.
pub const MAIN_PASS: &'static str = "main_pass";

/// Name of the node that provides the multisampled color attachment.
pub const MAIN_SAMPLED_COLOR_ATTACHMENT: &'static str = "main_sampled_color_attachment";

/// Name of the input slot of the main pass that takes its color attachment.
pub const COLOR_ATTACHMENT: &'static str = "color_attachment";

/// Name of the output slot of a node that provides a texture.
pub const OUT_TEXTURE: &'static str = "texture";

/// How many samples a pixel is rendered with.
#[derive(Clone, Copy, Debug, PartialEq, Eq, Structural)]
pub struct Msaa {
    pub samples: u32,
}

impl Default for Msaa {
    /// One sample: no multisampling.
    fn default() -> (r: Self)
        ensures
            r.samples == 1,
    {
        Msaa { samples: 1 }
    }
}

/// Which parts of the base render graph are wanted.
#[derive(Clone, Copy, Debug, PartialEq, Eq, Structural)]
pub struct BaseRenderGraphConfig {
    pub add_2d_camera: bool,
    pub add_3d_camera: bool,
    pub add_main_pass: bool,
}

impl Default for BaseRenderGraphConfig {
    /// Every part.
    fn default() -> (r: Self)
        ensures
            r.add_2d_camera,
            r.add_3d_camera,
            r.add_main_pass,
    {
        BaseRenderGraphConfig { add_2d_camera: true, add_3d_camera: true, add_main_pass: true }
    }
}

/// A node without slots.
pub open spec fn no_slots() -> NodeView {
    NodeView { name: Seq::empty(), inputs: Seq::empty(), outputs: Seq::empty() }
}

/// The slots of the node that provides the multisampled color attachment.
pub open spec fn attachment_slots() -> NodeView {
    NodeView { name: Seq::empty(), inputs: Seq::empty(), outputs: seq![OUT_TEXTURE@] }
}

/// The slots of the main pass.
pub open spec fn main_pass_slots() -> NodeView {
    NodeView { name: Seq::empty(), inputs: seq![COLOR_ATTACHMENT@], outputs: Seq::empty() }
}

/// The graph `g` with a node edge between the two named nodes.
pub open spec fn joined(g: GraphView, from: Seq<char>, to: Seq<char>) -> GraphView {
    g.with_edge(g.node_edge(from, to)->Ok_0)
}

/// The base render graph.
///
/// Its nodes, in this order: the camera of the three-dimensional scene and
/// that of the two-dimensional scene, each where it is wanted; then, where the
/// main pass is wanted, the multisampled color attachment if a pixel has more
/// than one sample, and the main pass. The main pass runs after each camera,
/// and takes its color attachment from the multisampled one where there is one.
pub open spec fn base_view(config: BaseRenderGraphConfig, msaa: Msaa) -> GraphView {
    let empty = GraphView { nodes: Seq::empty(), edges: Seq::empty() };
    let a = if config.add_3d_camera {
        empty.with_node(CAMERA3D@, no_slots())
    } else {
        empty
    };
    let b = if config.add_2d_camera {
        a.with_node(CAMERA2D@, no_slots())
    } else {
        a
    };
    if !config.add_main_pass {
        b
    } else {
        let c = if msaa.samples > 1 {
            b.with_node(MAIN_SAMPLED_COLOR_ATTACHMENT@, attachment_slots())
        } else {
            b
        };
        let d = c.with_node(MAIN_PASS@, main_pass_slots());
        let e = if config.add_3d_camera {
            joined(d, CAMERA3D@, MAIN_PASS@)
        } else {
            d
        };
        let f = if config.add_2d_camera {
            joined(e, CAMERA2D@, MAIN_PASS@)
        } else {
            e
        };
        if msaa.samples > 1 {
            f.with_edge(
                f.slot_edge(
                    MAIN_SAMPLED_COLOR_ATTACHMENT@,
                    OUT_TEXTURE@,
                    MAIN_PASS@,
                    COLOR_ATTACHMENT@,
                )->Ok_0,
            )
        } else {
            f
        }
    }
}

/// The names of the nodes of the base render graph differ from one another.
pub proof fn lemma_base_names()
    ensures
        CAMERA3D@ != CAMERA2D@,
        CAMERA3D@ != MAIN_PASS@,
        CAMERA2D@ != MAIN_PASS@,
        CAMERA3D@ != MAIN_SAMPLED_COLOR_ATTACHMENT@,
        CAMERA2D@ != MAIN_SAMPLED_COLOR_ATTACHMENT@,
        MAIN_PASS@ != MAIN_SAMPLED_COLOR_ATTACHMENT@,
{
    reveal_strlit("camera_3d");
    reveal_strlit("camera_2d");
    reveal_strlit("main_pass");
    reveal_strlit("main_sampled_color_attachment");
    assert(CAMERA3D@[7] != CAMERA2D@[7]);
    assert(CAMERA3D@[0] != MAIN_PASS@[0]);
    assert(CAMERA2D@[0] != MAIN_PASS@[0]);
    assert(CAMERA3D@.len() != MAIN_SAMPLED_COLOR_ATTACHMENT@.len());
    assert(CAMERA2D@.len() != MAIN_SAMPLED_COLOR_ATTACHMENT@.len());
    assert(MAIN_PASS@.len() != MAIN_SAMPLED_COLOR_ATTACHMENT@.len());
}

/// The base render graph of `config` and `msaa`.
pub fn base_graph(config: &BaseRenderGraphConfig, msaa: &Msaa) -> (g: RenderGraph)
    ensures
        g.wf(),
        g@ == base_view(*config, *msaa),
{
    let mut g = RenderGraph::new();
    proof {
        lemma_base_names();
        assert(g@.nodes =~= Seq::<NodeView>::empty());
        assert(g@.edges =~= Seq::<Edge>::empty());
    }
    let ghost empty = g@;
    if config.add_3d_camera {
        proof {
            lemma_lookup(g@.names(), CAMERA3D@);
        }
        let node = RenderNode { inputs: Vec::new(), outputs: Vec::new() };
        assert(node@.inputs =~= no_slots().inputs);
        assert(node@.outputs =~= no_slots().outputs);
        let r = g.add_node(CAMERA3D, node);
        assert(r is Ok);
    }
    let ghost a = g@;
    if config.add_2d_camera {
        proof {
            lemma_lookup(g@.names(), CAMERA2D@);
        }
        let node = RenderNode { inputs: Vec::new(), outputs: Vec::new() };
        assert(node@.inputs =~= no_slots().inputs);
        assert(node@.outputs =~= no_slots().outputs);
        let r = g.add_node(CAMERA2D, node);
        assert(r is Ok);
    }
    let ghost b = g@;
    if !config.add_main_pass {
        return g;
    }
    if msaa.samples > 1 {
        proof {
            lemma_lookup(g@.names(), MAIN_SAMPLED_COLOR_ATTACHMENT@);
        }
        let mut outputs: Vec<String> = Vec::new();
        outputs.push(OUT_TEXTURE.to_owned());
        let node = RenderNode { inputs: Vec::new(), outputs };
        assert(node@.outputs =~= attachment_slots().outputs);
        assert(node@.inputs =~= attachment_slots().inputs);
        let r = g.add_node(MAIN_SAMPLED_COLOR_ATTACHMENT, node);
        assert(r is Ok);
    }
    let ghost c = g@;
    proof {
        lemma_lookup(g@.names(), MAIN_PASS@);
    }
    let mut inputs: Vec<String> = Vec::new();
    inputs.push(COLOR_ATTACHMENT.to_owned());
    let node = RenderNode { inputs, outputs: Vec::new() };
    assert(node@.inputs =~= main_pass_slots().inputs);
    assert(node@.outputs =~= main_pass_slots().outputs);
    let r = g.add_node(MAIN_PASS, node);
    assert(r is Ok);
    let ghost d = g@;
    let ghost last = d.nodes.len() - 1;
    proof {
        assert(d.names()[last] == MAIN_PASS@);
        lemma_lookup(d.names(), MAIN_PASS@);
        lemma_lookup(d.names(), CAMERA3D@);
        lemma_lookup(d.names(), CAMERA2D@);
        lemma_lookup(d.names(), MAIN_SAMPLED_COLOR_ATTACHMENT@);
    }
    if config.add_3d_camera {
        proof {
            assert(d.names()[0] == CAMERA3D@);
            lemma_sink(g@.edges, last, 0);
        }
        let r = g.add_node_edge(CAMERA3D, MAIN_PASS);
        assert(r is Ok);
    }
    let ghost e = g@;
    if config.add_2d_camera {
        let ghost at: int = if config.add_3d_camera { 1 } else { 0 };
        proof {
            assert(e.names() =~= d.names());
            assert(d.names()[at] == CAMERA2D@);
            assert forall|i: int| 0 <= i < e.edges.len() implies #[trigger] e.edges[i].src() != last by {}
            lemma_sink(e.edges, last, at);
        }
        let r = g.add_node_edge(CAMERA2D, MAIN_PASS);
        assert(r is Ok);
    }
    let ghost f = g@;
    if msaa.samples > 1 {
        let ghost at: int = last - 1;
        proof {
            assert(f.names() =~= d.names());
            assert(d.names()[at] == MAIN_SAMPLED_COLOR_ATTACHMENT@);
            lemma_lookup(f.nodes[at].outputs, OUT_TEXTURE@);
            lemma_lookup(f.nodes[last].inputs, COLOR_ATTACHMENT@);
            assert(f.nodes[at].outputs[0] == OUT_TEXTURE@);
            assert(f.nodes[last].inputs[0] == COLOR_ATTACHMENT@);
            assert forall|i: int| 0 <= i < f.edges.len() implies #[trigger] f.edges[i].src() != last by {}
            lemma_sink(f.edges, last, at);
        }
        let r = g.add_slot_edge(MAIN_SAMPLED_COLOR_ATTACHMENT, OUT_TEXTURE, MAIN_PASS, COLOR_ATTACHMENT);
        assert(r is Ok);
    }
    g
}

impl RenderGraph {
    /// Attaches the base render graph of `config` and `msaa` to the graph.
    ///
    /// Refused, with the graph left as it was, when the graph holds a node
    /// under one of the names of the base render graph.
    pub fn add_base_graph(&mut self, config: &BaseRenderGraphConfig, msaa: &Msaa) -> (r: Result<
        (),
        GraphError,
    >)
        requires
            old(self).wf(),
        ensures
            final(self).wf(),
            r == if old(self)@.collides(Seq::empty(), base_view(*config, *msaa)) {
                Err::<(), GraphError>(GraphError::DuplicateName)
            } else {
                Ok(())
            },
            r is Ok ==> final(self)@ == old(self)@.with_sub_graph(Seq::empty(), base_view(*config, *msaa)),
            r is Err ==> *final(self) == *old(self),
    {
        let base = base_graph(config, msaa);
        proof {
            reveal_strlit("");
            assert(""@ =~= Seq::<char>::empty());
        }
        self.add_sub_graph("", &base)
    }
}

/// Attached to a graph without nodes, under no prefix, a graph gives itself.
pub proof fn lemma_attach_to_empty(empty: GraphView, sub: GraphView)
    requires
        empty.nodes.len() == 0,
        empty.edges.len() == 0,
    ensures
        !empty.collides(Seq::empty(), sub),
        empty.with_sub_graph(Seq::empty(), sub) == sub,
{
    let all = empty.with_sub_graph(Seq::empty(), sub);
    assert forall|i: int| 0 <= i < sub.nodes.len() implies all.nodes[i] == sub.nodes[i] by {
        assert(Seq::<char>::empty() + sub.nodes[i].name =~= sub.nodes[i].name);
    }
    assert(all.nodes =~= sub.nodes);
    assert(all.edges =~= sub.edges);
    assert forall|i: int| 0 <= i < sub.nodes.len() implies lookup(
        empty.names(),
        Seq::<char>::empty() + #[trigger] sub.nodes[i].name,
    ) is None by {
        lemma_lookup(empty.names(), Seq::<char>::empty() + sub.nodes[i].name);
    }
}

} // verus!
