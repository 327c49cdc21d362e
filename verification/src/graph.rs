//! The render graph: named nodes with input and output slots, the edges that
//! order them, and the schedule kept up to date with every change.

use vstd::prelude::*;
use vstd::string::StringExecFns;
use crate::names::{copy_strings, distinct, find_name, lemma_lookup, lookup, texts};
use crate::reach::can_reach;
use crate::schedule::{
    compute_schedule, is_schedule, lemma_schedule_is_topological, lemma_schedule_unique, placed,
};
use crate::topology::{
    acyclic, edges_in_range, lemma_fewer_edges, lemma_more_nodes, lemma_new_edge, lemma_no_edges,
    lemma_side_by_side, reaches, Edge,
};

verus! {

/// Why a change to the graph was refused. A refused change leaves the graph as
/// it was.
#[derive(Clone, Copy, Debug, PartialEq, Eq, Structural)]
pub enum GraphError {
    /// A node of that name is in the graph already.
    DuplicateName,
    /// An edge names a node that the graph does not hold.
    UnknownNode,
    /// An edge names a slot that its node does not have.
    UnknownSlot,
    /// The input slot is fed by another edge already.
    SlotOccupied,
    /// The graph holds this edge already.
    EdgeAlreadyExists,
    /// The edge to remove is not in the graph.
    UnknownEdge,
    /// The edge would close a cycle.
    Cycle,
}

/// The slots of a node: the resources it consumes and those it produces, by name.
pub struct RenderNode {
    pub inputs: Vec<String>,
    pub outputs: Vec<String>,
}

/// A node as contracts see it.
pub struct NodeView {
    pub name: Seq<char>,
    pub inputs: Seq<Seq<char>>,
    pub outputs: Seq<Seq<char>>,
}

/// A graph as contracts see it: the nodes in the order of their insertion, and
/// the edges in the order of theirs.
pub struct GraphView {
    pub nodes: Seq<NodeView>,
    pub edges: Seq<Edge>,
}

impl View for RenderNode {
    type V = NodeView;

    /// The slots, under an empty name: the graph adds the name.
    open spec fn view(&self) -> NodeView {
        NodeView { name: Seq::empty(), inputs: texts(self.inputs@), outputs: texts(self.outputs@) }
    }
}

impl GraphView {
    /// The names of the nodes, in the order of their insertion.
    pub open spec fn names(self) -> Seq<Seq<char>> {
        Seq::new(self.nodes.len(), |i: int| self.nodes[i].name)
    }

    /// The edge joins two nodes of the graph, and a slot edge two of their slots.
    pub open spec fn fits(self, e: Edge) -> bool {
        match e {
            Edge::Node { from, to } => from < self.nodes.len() && to < self.nodes.len(),
            Edge::Slot { from, from_slot, to, to_slot } => {
                &&& from < self.nodes.len()
                &&& to < self.nodes.len()
                &&& from_slot < self.nodes[from as int].outputs.len()
                &&& to_slot < self.nodes[to as int].inputs.len()
            },
        }
    }

    /// Some slot edge feeds input slot `slot` of node `node`.
    pub open spec fn occupied(self, node: int, slot: int) -> bool {
        exists|i: int| 0 <= i < self.edges.len() && feeds(#[trigger] self.edges[i], node, slot)
    }

    /// The slot edge that feeds input slot `slot` of node `node`, where one does.
    pub open spec fn feeder(self, node: int, slot: int) -> Edge {
        self.edges[choose|i: int| 0 <= i < self.edges.len() && feeds(#[trigger] self.edges[i], node, slot)]
    }

    /// What a graph always is: its names differ, its edges fit and differ, no
    /// input slot is fed twice, and it has no cycle.
    pub open spec fn valid(self) -> bool {
        &&& distinct(self.names())
        &&& forall|i: int| 0 <= i < self.edges.len() ==> self.fits(#[trigger] self.edges[i])
        &&& forall|i: int, j: int| 0 <= i < j < self.edges.len() ==> self.edges[i] != self.edges[j]
        &&& forall|i: int, j: int, node: int, slot: int|
            0 <= i < j < self.edges.len() && feeds(self.edges[i], node, slot) ==> !feeds(
                self.edges[j],
                node,
                slot,
            )
        &&& acyclic(self.nodes.len() as int, self.edges)
    }

    /// The schedule of the graph is `s`.
    pub open spec fn scheduled_as(self, s: Seq<usize>) -> bool {
        is_schedule(self.nodes.len() as int, self.edges, s)
    }

    /// The schedule of the graph. A valid graph has exactly one.
    pub open spec fn schedule(self) -> Seq<usize> {
        choose|s: Seq<usize>| self.scheduled_as(s)
    }

    /// The graph with one more node, which comes last.
    pub open spec fn with_node(self, name: Seq<char>, node: NodeView) -> GraphView {
        GraphView {
            nodes: self.nodes.push(NodeView { name, inputs: node.inputs, outputs: node.outputs }),
            edges: self.edges,
        }
    }

    /// The graph with one more edge, which comes last.
    pub open spec fn with_edge(self, e: Edge) -> GraphView {
        GraphView { nodes: self.nodes, edges: self.edges.push(e) }
    }

    /// The graph without the edge `e`.
    pub open spec fn without_edge(self, e: Edge) -> GraphView {
        GraphView { nodes: self.nodes, edges: self.edges.remove(self.edges.index_of(e)) }
    }

    /// A node of `sub` would have, under the prefix, the name of a node of the
    /// graph.
    pub open spec fn collides(self, prefix: Seq<char>, sub: GraphView) -> bool {
        exists|i: int|
            0 <= i < sub.nodes.len() && lookup(self.names(), prefix + #[trigger] sub.nodes[i].name) is Some
    }

    /// The graph with the graph `sub` attached: the nodes of `sub` follow those
    /// of the graph, each with the prefix before its name, and the edges of
    /// `sub` follow its edges, each moved to the new indices of its nodes.
    pub open spec fn with_sub_graph(self, prefix: Seq<char>, sub: GraphView) -> GraphView {
        GraphView {
            nodes: self.nodes + Seq::new(
                sub.nodes.len(),
                |i: int|
                    NodeView {
                        name: prefix + sub.nodes[i].name,
                        inputs: sub.nodes[i].inputs,
                        outputs: sub.nodes[i].outputs,
                    },
            ),
            edges: self.edges + Seq::new(
                sub.edges.len(),
                |i: int| moved(sub.edges[i], self.nodes.len() as int),
            ),
        }
    }

    /// Attaching a valid graph under a prefix that makes no name collide
    /// leaves a valid graph valid.
    pub proof fn lemma_sub_graph(self, prefix: Seq<char>, sub: GraphView)
        requires
            self.valid(),
            sub.valid(),
            !self.collides(prefix, sub),
            self.nodes.len() + sub.nodes.len() <= usize::MAX,
        ensures
            self.with_sub_graph(prefix, sub).valid(),
    {
        let all = self.with_sub_graph(prefix, sub);
        let n = self.nodes.len() as int;
        let m = sub.nodes.len() as int;
        let first = self.edges.len() as int;
        self.lemma_valid_in_range();
        sub.lemma_valid_in_range();
        let later = Seq::new(sub.edges.len(), |i: int| moved(sub.edges[i], n));
        assert forall|i: int| 0 <= i < sub.edges.len() implies (#[trigger] later[i]).src() == sub.edges[i].src()
            + n && later[i].dst() == sub.edges[i].dst() + n by {
            assert(sub.fits(sub.edges[i]));
        }
        lemma_side_by_side(n, self.edges, m, sub.edges, later);
        assert(all.edges =~= self.edges + later);
        assert forall|i: int, j: int| 0 <= i < j < all.names().len() implies all.names()[i]
            != all.names()[j] by {
            if j < n {
                assert(self.names()[i] != self.names()[j]);
            } else if i < n {
                let name = prefix + sub.nodes[j - n].name;
                lemma_lookup(self.names(), name);
                assert(self.names()[i] != name);
            } else {
                let a = sub.nodes[i - n].name;
                let b = sub.nodes[j - n].name;
                assert(sub.names()[i - n] != sub.names()[j - n]);
                assert((prefix + a).subrange(prefix.len() as int, (prefix + a).len() as int) =~= a);
                assert((prefix + b).subrange(prefix.len() as int, (prefix + b).len() as int) =~= b);
            }
        }
        assert forall|i: int| 0 <= i < all.edges.len() implies all.fits(#[trigger] all.edges[i]) by {
            if i < first {
                assert(self.fits(self.edges[i]));
            } else {
                assert(sub.fits(sub.edges[i - first]));
            }
        }
        assert forall|i: int, j: int| 0 <= i < j < all.edges.len() implies all.edges[i]
            != all.edges[j] by {
            if j < first {
                assert(self.edges[i] != self.edges[j]);
            } else if i < first {
                assert(self.fits(self.edges[i]));
                assert(sub.fits(sub.edges[j - first]));
                assert(all.edges[i].src() < n <= all.edges[j].src());
            } else {
                assert(sub.fits(sub.edges[i - first]));
                assert(sub.fits(sub.edges[j - first]));
                assert(sub.edges[i - first] != sub.edges[j - first]);
            }
        }
        assert forall|i: int, j: int, node: int, slot: int|
            0 <= i < j < all.edges.len() && feeds(all.edges[i], node, slot) implies !feeds(
            all.edges[j],
            node,
            slot,
        ) by {
            if j < first {
                assert(feeds(self.edges[i], node, slot));
                assert(!feeds(self.edges[j], node, slot));
            } else if i < first {
                assert(self.fits(self.edges[i]));
                assert(sub.fits(sub.edges[j - first]));
            } else {
                assert(sub.fits(sub.edges[i - first]));
                assert(sub.fits(sub.edges[j - first]));
                assert(feeds(sub.edges[i - first], node - n, slot));
                assert(!feeds(sub.edges[j - first], node - n, slot));
            }
        }
    }

    /// The edge that `add_node_edge` is asked for, or why there is none: both
    /// names must be known.
    pub open spec fn node_edge(self, from: Seq<char>, to: Seq<char>) -> Result<Edge, GraphError> {
        match (lookup(self.names(), from), lookup(self.names(), to)) {
            (Some(a), Some(b)) => Ok(Edge::Node { from: a as usize, to: b as usize }),
            _ => Err(GraphError::UnknownNode),
        }
    }

    /// The edge that `add_slot_edge` is asked for, or why there is none: both
    /// names must be known, then the output slot of the first node and the
    /// input slot of the second. Slots are found by name.
    pub open spec fn slot_edge(
        self,
        from: Seq<char>,
        from_slot: Seq<char>,
        to: Seq<char>,
        to_slot: Seq<char>,
    ) -> Result<Edge, GraphError> {
        match (lookup(self.names(), from), lookup(self.names(), to)) {
            (Some(a), Some(b)) => match (
                lookup(self.nodes[a].outputs, from_slot),
                lookup(self.nodes[b].inputs, to_slot),
            ) {
                (Some(s), Some(t)) => Ok(
                    Edge::Slot { from: a as usize, from_slot: s as usize, to: b as usize, to_slot: t as usize },
                ),
                _ => Err(GraphError::UnknownSlot),
            },
            _ => Err(GraphError::UnknownNode),
        }
    }

    /// Whether the edge `e` may join the graph, and if not, why: it must be
    /// new, a slot edge must find its input slot free, and no path may lead
    /// back from its target to its source.
    pub open spec fn admits(self, e: Edge) -> Result<(), GraphError> {
        if self.edges.contains(e) {
            Err(GraphError::EdgeAlreadyExists)
        } else if e is Slot && self.occupied(e.dst(), e->to_slot as int) {
            Err(GraphError::SlotOccupied)
        } else if reaches(self.edges, e.dst(), e.src()) {
            Err(GraphError::Cycle)
        } else {
            Ok(())
        }
    }

    /// The schedule of a valid graph holds every node exactly once, and the
    /// source of every edge before its target.
    pub proof fn lemma_schedule_order(self, s: Seq<usize>)
        requires
            self.valid(),
            self.scheduled_as(s),
        ensures
            s.len() == self.nodes.len(),
            forall|j: int, k: int| 0 <= j < k < s.len() ==> s[j] != s[k],
            forall|v: int| 0 <= v < self.nodes.len() ==> placed(s, s.len() as int, v),
            forall|i: int, j: int, k: int|
                0 <= i < self.edges.len() && 0 <= j < s.len() && 0 <= k < s.len() && #[trigger] s[j]
                    == #[trigger] self.edges[i].src() && #[trigger] s[k] == self.edges[i].dst() ==> j
                    < k,
    {
        self.lemma_valid_in_range();
        lemma_schedule_is_topological(self.nodes.len() as int, self.edges, s);
    }

    /// In a valid graph, an edge that feeds an input slot is the one that feeds it.
    pub proof fn lemma_feeder(self, at: int, node: int, slot: int)
        requires
            self.valid(),
            0 <= at < self.edges.len(),
            feeds(self.edges[at], node, slot),
        ensures
            self.occupied(node, slot),
            self.feeder(node, slot) == self.edges[at],
            self.fits(self.feeder(node, slot)),
    {
        let k = choose|i: int| 0 <= i < self.edges.len() && feeds(#[trigger] self.edges[i], node, slot);
        if k < at {
            assert(!feeds(self.edges[at], node, slot));
        } else if at < k {
            assert(!feeds(self.edges[k], node, slot));
        }
        assert(self.fits(self.edges[at]));
    }

    /// A valid graph keeps its edges within its nodes.
    pub proof fn lemma_valid_in_range(self)
        requires
            self.valid(),
        ensures
            edges_in_range(self.nodes.len() as int, self.edges),
    {
        assert forall|i: int| 0 <= i < self.edges.len() implies 0 <= #[trigger] self.edges[i].src()
            < self.nodes.len() && 0 <= self.edges[i].dst() < self.nodes.len() by {
            assert(self.fits(self.edges[i]));
        }
    }

    /// An edge that fits and is admitted leaves the graph valid.
    pub proof fn lemma_admitted_edge(self, e: Edge)
        requires
            self.valid(),
            self.fits(e),
            self.admits(e) is Ok,
        ensures
            self.with_edge(e).valid(),
    {
        let more = self.with_edge(e);
        self.lemma_valid_in_range();
        lemma_new_edge(self.nodes.len() as int, self.edges, e);
        assert(more.names() =~= self.names());
        assert forall|i: int| 0 <= i < more.edges.len() implies more.fits(#[trigger] more.edges[i]) by {
            if i < self.edges.len() {
                assert(self.fits(self.edges[i]));
            }
        }
        assert forall|i: int, j: int| 0 <= i < j < more.edges.len() implies more.edges[i]
            != more.edges[j] by {
            if j == self.edges.len() {
                assert(self.edges[i] == more.edges[i]);
            }
        }
        assert forall|i: int, j: int, node: int, slot: int|
            0 <= i < j < more.edges.len() && feeds(more.edges[i], node, slot) implies !feeds(
            more.edges[j],
            node,
            slot,
        ) by {
            if j == self.edges.len() {
                assert(self.edges[i] == more.edges[i]);
                if feeds(e, node, slot) {
                    assert(feeds(self.edges[i], e.dst(), e->to_slot as int));
                }
            }
        }
    }
}

/// The edge between the same slots of the nodes that stand `by` places later.
pub open spec fn moved(e: Edge, by: int) -> Edge {
    match e {
        Edge::Node { from, to } => Edge::Node { from: (from + by) as usize, to: (to + by) as usize },
        Edge::Slot { from, from_slot, to, to_slot } => Edge::Slot {
            from: (from + by) as usize,
            from_slot,
            to: (to + by) as usize,
            to_slot,
        },
    }
}

/// The edge is a slot edge into input slot `slot` of node `node`.
pub open spec fn feeds(e: Edge, node: int, slot: int) -> bool {
    match e {
        Edge::Node { .. } => false,
        Edge::Slot { to, to_slot, .. } => to == node && to_slot == slot,
    }
}

/// The place of the edge `e` among `edges`, if it is there.
fn find_edge(edges: &Vec<Edge>, e: Edge) -> (r: Option<usize>)
    ensures
        match r {
            Some(i) => i < edges.len() && edges[i as int] == e,
            None => !edges@.contains(e),
        },
{
    let mut i: usize = 0;
    while i < edges.len()
        invariant
            i <= edges.len(),
            forall|j: int| 0 <= j < i ==> edges[j] != e,
        decreases edges.len() - i,
    {
        if edges[i] == e {
            return Some(i);
        }
        i += 1;
    }
    None
}

/// Whether some slot edge among `edges` feeds input slot `slot` of node `node`.
fn slot_fed(edges: &Vec<Edge>, node: usize, slot: usize) -> (r: bool)
    ensures
        r == exists|i: int| 0 <= i < edges.len() && feeds(#[trigger] edges[i], node as int, slot as int),
{
    let mut i: usize = 0;
    while i < edges.len()
        invariant
            i <= edges.len(),
            forall|j: int| 0 <= j < i ==> !feeds(#[trigger] edges[j], node as int, slot as int),
        decreases edges.len() - i,
    {
        match edges[i] {
            Edge::Slot { to, to_slot, .. } => {
                if to == node && to_slot == slot {
                    return true;
                }
            },
            Edge::Node { .. } => {},
        }
        i += 1;
    }
    false
}

/// A render graph. Nodes are known by name and by index, the index being the
/// place in the order of insertion.
pub struct RenderGraph {
    names: Vec<String>,
    nodes: Vec<RenderNode>,
    edges: Vec<Edge>,
    order: Vec<usize>,
}

impl View for RenderGraph {
    type V = GraphView;

    closed spec fn view(&self) -> GraphView {
        GraphView {
            nodes: Seq::new(
                self.names.len() as nat,
                |i: int|
                    NodeView {
                        name: self.names[i]@,
                        inputs: texts(self.nodes[i].inputs@),
                        outputs: texts(self.nodes[i].outputs@),
                    },
            ),
            edges: self.edges@,
        }
    }
}

impl RenderGraph {
    /// The graph is valid and its stored schedule is the schedule of its nodes
    /// and edges.
    pub closed spec fn wf(&self) -> bool {
        &&& self.names.len() == self.nodes.len()
        &&& self@.valid()
        &&& self@.scheduled_as(self.order@)
    }

    /// A graph without nodes.
    pub fn new() -> (g: Self)
        ensures
            g.wf(),
            g@.nodes.len() == 0,
            g@.edges.len() == 0,
    {
        let g = RenderGraph { names: Vec::new(), nodes: Vec::new(), edges: Vec::new(), order: Vec::new() };
        proof {
            lemma_no_edges(0);
            assert(g.edges@ =~= Seq::<Edge>::empty());
        }
        g
    }

    /// The names are those of the view.
    proof fn lemma_names(&self)
        ensures
            texts(self.names@) == self@.names(),
    {
        assert(texts(self.names@) =~= self@.names());
    }

    /// Adds a node under a name that no node of the graph has yet. The new node
    /// comes last and gets the next index, which is returned.
    pub fn add_node(&mut self, name: &str, node: RenderNode) -> (r: Result<usize, GraphError>)
        requires
            old(self).wf(),
        ensures
            final(self).wf(),
            match r {
                Ok(id) => {
                    &&& lookup(old(self)@.names(), name@).is_none()
                    &&& id == old(self)@.nodes.len()
                    &&& final(self)@ == old(self)@.with_node(name@, node@)
                },
                Err(e) => {
                    &&& e == GraphError::DuplicateName
                    &&& lookup(old(self)@.names(), name@).is_some()
                    &&& *final(self) == *old(self)
                },
            },
    {
        let owned = name.to_owned();
        proof {
            self.lemma_names();
        }
        if find_name(&self.names, &owned).is_some() {
            return Err(GraphError::DuplicateName);
        }
        let id = self.names.len();
        let ghost before = self@;
        let ghost slots = node@;
        self.names.push(owned);
        self.nodes.push(node);
        proof {
            let after = self@;
            assert(after.nodes =~= before.with_node(name@, slots).nodes);
            lemma_lookup(before.names(), name@);
            assert forall|i: int, j: int| 0 <= i < j < after.names().len() implies after.names()[i]
                != after.names()[j] by {
                if j < before.names().len() {
                    assert(before.names()[i] != before.names()[j]);
                } else {
                    assert(before.names()[i] != name@);
                }
            }
            assert forall|i: int| 0 <= i < after.edges.len() implies after.fits(
                #[trigger] after.edges[i],
            ) by {
                assert(before.fits(before.edges[i]));
            }
            before.lemma_valid_in_range();
            lemma_more_nodes(before.nodes.len() as int, before.edges);
            after.lemma_valid_in_range();
        }
        self.order = compute_schedule(self.names.len(), &self.edges);
        Ok(id)
    }

    /// Adds the edge `e`, unless the graph does not admit it.
    fn insert_edge(&mut self, e: Edge) -> (r: Result<(), GraphError>)
        requires
            old(self).wf(),
            old(self)@.fits(e),
        ensures
            final(self).wf(),
            r == old(self)@.admits(e),
            r is Ok ==> final(self)@ == old(self)@.with_edge(e),
            r is Err ==> *final(self) == *old(self),
    {
        if find_edge(&self.edges, e).is_some() {
            return Err(GraphError::EdgeAlreadyExists);
        }
        match e {
            Edge::Slot { to, to_slot, .. } => {
                if slot_fed(&self.edges, to, to_slot) {
                    return Err(GraphError::SlotOccupied);
                }
            },
            Edge::Node { .. } => {},
        }
        proof {
            self@.lemma_valid_in_range();
        }
        if can_reach(self.names.len(), &self.edges, e.to(), e.from()) {
            return Err(GraphError::Cycle);
        }
        let ghost before = self@;
        self.edges.push(e);
        proof {
            assert(self@.nodes =~= before.nodes);
            assert(self@ == before.with_edge(e));
            before.lemma_admitted_edge(e);
            self@.lemma_valid_in_range();
        }
        self.order = compute_schedule(self.names.len(), &self.edges);
        Ok(())
    }

    /// Removes the edge `e`, if the graph holds it.
    fn delete_edge(&mut self, e: Edge) -> (r: Result<(), GraphError>)
        requires
            old(self).wf(),
        ensures
            final(self).wf(),
            r == if old(self)@.edges.contains(e) {
                Ok::<(), GraphError>(())
            } else {
                Err(GraphError::UnknownEdge)
            },
            r is Ok ==> final(self)@ == old(self)@.without_edge(e),
            r is Err ==> *final(self) == *old(self),
    {
        match find_edge(&self.edges, e) {
            None => Err(GraphError::UnknownEdge),
            Some(at) => {
                let ghost before = self@;
                proof {
                    let other = before.edges.index_of(e);
                    assert(before.edges[at as int] == e);
                    assert(before.edges.contains(e));
                    assert(other == at) by {
                        if other < at {
                            assert(before.edges[other] != before.edges[at as int]);
                        } else if at < other {
                            assert(before.edges[at as int] != before.edges[other]);
                        }
                    }
                }
                self.edges.remove(at);
                proof {
                    let after = self@;
                    assert(after.nodes =~= before.nodes);
                    assert(after.edges =~= before.edges.remove(at as int));
                    assert(after == before.without_edge(e));
                    lemma_fewer_edges(before.nodes.len() as int, before.edges, at as int);
                    assert(after.names() =~= before.names());
                    assert forall|i: int| 0 <= i < after.edges.len() implies after.fits(
                        #[trigger] after.edges[i],
                    ) by {
                        if i < at {
                            assert(before.fits(before.edges[i]));
                        } else {
                            assert(before.fits(before.edges[i + 1]));
                        }
                    }
                    assert forall|i: int, j: int| 0 <= i < j < after.edges.len() implies after.edges[i]
                        != after.edges[j] by {
                        let a = if i < at { i } else { i + 1 };
                        let b = if j < at { j } else { j + 1 };
                        assert(before.edges[a] != before.edges[b]);
                    }
                    assert forall|i: int, j: int, node: int, slot: int|
                        0 <= i < j < after.edges.len() && feeds(
                            after.edges[i],
                            node,
                            slot,
                        ) implies !feeds(after.edges[j], node, slot) by {
                        let a = if i < at { i } else { i + 1 };
                        let b = if j < at { j } else { j + 1 };
                        assert(feeds(before.edges[a], node, slot));
                        assert(!feeds(before.edges[b], node, slot));
                    }
                    after.lemma_valid_in_range();
                }
                self.order = compute_schedule(self.names.len(), &self.edges);
                Ok(())
            },
        }
    }

    /// The node edge between the two named nodes.
    fn resolve_node_edge(&self, from: &str, to: &str) -> (r: Result<Edge, GraphError>)
        requires
            self.wf(),
        ensures
            r == self@.node_edge(from@, to@),
            r is Ok ==> self@.fits(r->Ok_0),
    {
        proof {
            self.lemma_names();
            lemma_lookup(self@.names(), from@);
            lemma_lookup(self@.names(), to@);
        }
        let a = match find_name(&self.names, &from.to_owned()) {
            Some(a) => a,
            None => { return Err(GraphError::UnknownNode); },
        };
        let b = match find_name(&self.names, &to.to_owned()) {
            Some(b) => b,
            None => { return Err(GraphError::UnknownNode); },
        };
        Ok(Edge::Node { from: a, to: b })
    }

    /// The slot edge between the named slots of the two named nodes.
    fn resolve_slot_edge(&self, from: &str, from_slot: &str, to: &str, to_slot: &str) -> (r: Result<
        Edge,
        GraphError,
    >)
        requires
            self.wf(),
        ensures
            r == self@.slot_edge(from@, from_slot@, to@, to_slot@),
            r is Ok ==> self@.fits(r->Ok_0),
    {
        proof {
            self.lemma_names();
            lemma_lookup(self@.names(), from@);
            lemma_lookup(self@.names(), to@);
        }
        let a = match find_name(&self.names, &from.to_owned()) {
            Some(a) => a,
            None => { return Err(GraphError::UnknownNode); },
        };
        let b = match find_name(&self.names, &to.to_owned()) {
            Some(b) => b,
            None => { return Err(GraphError::UnknownNode); },
        };
        proof {
            lemma_lookup(self@.nodes[a as int].outputs, from_slot@);
            lemma_lookup(self@.nodes[b as int].inputs, to_slot@);
        }
        let s = match find_name(&self.nodes[a].outputs, &from_slot.to_owned()) {
            Some(s) => s,
            None => { return Err(GraphError::UnknownSlot); },
        };
        let t = match find_name(&self.nodes[b].inputs, &to_slot.to_owned()) {
            Some(t) => t,
            None => { return Err(GraphError::UnknownSlot); },
        };
        Ok(Edge::Slot { from: a, from_slot: s, to: b, to_slot: t })
    }

    /// Makes the node `to` run after the node `from`.
    ///
    /// Refused, with the graph left as it was, when a name is unknown, when
    /// the graph holds the edge already, and when `to` already reaches `from`,
    /// so that the edge would close a cycle.
    pub fn add_node_edge(&mut self, from: &str, to: &str) -> (r: Result<(), GraphError>)
        requires
            old(self).wf(),
        ensures
            final(self).wf(),
            r == match old(self)@.node_edge(from@, to@) {
                Ok(e) => old(self)@.admits(e),
                Err(err) => Err(err),
            },
            r is Ok ==> final(self)@ == old(self)@.with_edge(old(self)@.node_edge(from@, to@)->Ok_0),
            r is Err ==> *final(self) == *old(self),
    {
        match self.resolve_node_edge(from, to) {
            Ok(e) => self.insert_edge(e),
            Err(err) => Err(err),
        }
    }

    /// Feeds output slot `from_slot` of the node `from` into input slot
    /// `to_slot` of the node `to`, which then runs after `from`.
    ///
    /// Refused, with the graph left as it was, when a name or a slot is
    /// unknown, when the graph holds the edge already, when another edge feeds
    /// the input slot, and when the edge would close a cycle.
    pub fn add_slot_edge(&mut self, from: &str, from_slot: &str, to: &str, to_slot: &str) -> (r: Result<
        (),
        GraphError,
    >)
        requires
            old(self).wf(),
        ensures
            final(self).wf(),
            r == match old(self)@.slot_edge(from@, from_slot@, to@, to_slot@) {
                Ok(e) => old(self)@.admits(e),
                Err(err) => Err(err),
            },
            r is Ok ==> final(self)@ == old(self)@.with_edge(
                old(self)@.slot_edge(from@, from_slot@, to@, to_slot@)->Ok_0,
            ),
            r is Err ==> *final(self) == *old(self),
    {
        match self.resolve_slot_edge(from, from_slot, to, to_slot) {
            Ok(e) => self.insert_edge(e),
            Err(err) => Err(err),
        }
    }

    /// Takes the node edge from `from` to `to` out of the graph.
    ///
    /// Refused, with the graph left as it was, when a name is unknown or the
    /// graph holds no such edge.
    pub fn remove_node_edge(&mut self, from: &str, to: &str) -> (r: Result<(), GraphError>)
        requires
            old(self).wf(),
        ensures
            final(self).wf(),
            r == match old(self)@.node_edge(from@, to@) {
                Ok(e) => if old(self)@.edges.contains(e) {
                    Ok(())
                } else {
                    Err(GraphError::UnknownEdge)
                },
                Err(err) => Err(err),
            },
            r is Ok ==> final(self)@ == old(self)@.without_edge(
                old(self)@.node_edge(from@, to@)->Ok_0,
            ),
            r is Err ==> *final(self) == *old(self),
    {
        match self.resolve_node_edge(from, to) {
            Ok(e) => self.delete_edge(e),
            Err(err) => Err(err),
        }
    }

    /// Takes the slot edge between the named slots out of the graph.
    ///
    /// Refused, with the graph left as it was, when a name or a slot is
    /// unknown or the graph holds no such edge.
    pub fn remove_slot_edge(&mut self, from: &str, from_slot: &str, to: &str, to_slot: &str) -> (r:
        Result<(), GraphError>)
        requires
            old(self).wf(),
        ensures
            final(self).wf(),
            r == match old(self)@.slot_edge(from@, from_slot@, to@, to_slot@) {
                Ok(e) => if old(self)@.edges.contains(e) {
                    Ok(())
                } else {
                    Err(GraphError::UnknownEdge)
                },
                Err(err) => Err(err),
            },
            r is Ok ==> final(self)@ == old(self)@.without_edge(
                old(self)@.slot_edge(from@, from_slot@, to@, to_slot@)->Ok_0,
            ),
            r is Err ==> *final(self) == *old(self),
    {
        match self.resolve_slot_edge(from, from_slot, to, to_slot) {
            Ok(e) => self.delete_edge(e),
            Err(err) => Err(err),
        }
    }

    /// Attaches the graph `sub` under `prefix`: its nodes join the graph, each
    /// with the prefix before its name, and its edges join them.
    ///
    /// Refused, with the graph left as it was, when a node would get the name
    /// of a node that the graph holds already.
    pub fn add_sub_graph(&mut self, prefix: &str, sub: &RenderGraph) -> (r: Result<(), GraphError>)
        requires
            old(self).wf(),
            sub.wf(),
        ensures
            final(self).wf(),
            r == if old(self)@.collides(prefix@, sub@) {
                Err::<(), GraphError>(GraphError::DuplicateName)
            } else {
                Ok(())
            },
            r is Ok ==> final(self)@ == old(self)@.with_sub_graph(prefix@, sub@),
            r is Err ==> *final(self) == *old(self),
    {
        let ghost before = self@;
        let n = self.names.len();
        let m = sub.names.len();
        proof {
            self.lemma_names();
        }
        let ghost start = *self;
        let mut renamed: Vec<String> = Vec::new();
        let mut i: usize = 0;
        while i < m
            invariant
                i <= m,
                m == sub.names.len(),
                renamed.len() == i,
                *self == start,
                start.wf(),
                self@ == before,
                texts(self.names@) == before.names(),
                forall|j: int| 0 <= j < i ==> renamed[j]@ == prefix@ + sub.names[j]@,
                forall|j: int|
                    0 <= j < i ==> lookup(before.names(), prefix@ + #[trigger] sub@.nodes[j].name) is None,
            decreases m - i,
        {
            let mut name = prefix.to_owned();
            name.append(sub.names[i].as_str());
            assert(sub@.nodes[i as int].name == sub.names[i as int]@);
            if find_name(&self.names, &name).is_some() {
                return Err(GraphError::DuplicateName);
            }
            renamed.push(name);
            i += 1;
        }
        assert(!before.collides(prefix@, sub@));
        let mut i: usize = 0;
        while i < m
            invariant
                i <= m,
                m == sub.names.len(),
                m == sub.nodes.len(),
                renamed.len() == m,
                self.names.len() == n + i,
                self.nodes.len() == n + i,
                self.edges@ == before.edges,
                forall|j: int| 0 <= j < m ==> renamed[j]@ == prefix@ + sub.names[j]@,
                n == before.nodes.len(),
                forall|j: int|
                    0 <= j < n + i ==> self@.nodes[j] == before.with_sub_graph(prefix@, sub@).nodes[j],
            decreases m - i,
        {
            let ghost earlier = self@;
            self.names.push(renamed[i].clone());
            self.nodes.push(
                RenderNode {
                    inputs: copy_strings(&sub.nodes[i].inputs),
                    outputs: copy_strings(&sub.nodes[i].outputs),
                },
            );
            proof {
                let after = before.with_sub_graph(prefix@, sub@);
                assert forall|j: int| 0 <= j < n + i + 1 implies self@.nodes[j] == after.nodes[j] by {
                    if j < n + i {
                        assert(self@.nodes[j] == earlier.nodes[j]);
                    } else {
                        assert(sub@.nodes[i as int].name == sub.names[i as int]@);
                        assert(self.names[j]@ == prefix@ + sub.names[i as int]@);
                    }
                }
            }
            i += 1;
        }
        proof {
            assert(self@.nodes =~= before.with_sub_graph(prefix@, sub@).nodes);
        }
        let mut i: usize = 0;
        while i < sub.edges.len()
            invariant
                i <= sub.edges.len(),
                sub.wf(),
                m == sub@.nodes.len(),
                n == before.nodes.len(),
                self.names.len() == n + m,
                self.nodes.len() == n + m,
                self.edges.len() == before.edges.len() + i,
                self@.nodes == before.with_sub_graph(prefix@, sub@).nodes,
                forall|j: int|
                    0 <= j < before.edges.len() + i ==> self.edges[j] == before.with_sub_graph(
                        prefix@,
                        sub@,
                    ).edges[j],
            decreases sub.edges.len() - i,
        {
            let ghost earlier = self@;
            proof {
                assert(sub@.fits(sub@.edges[i as int]));
            }
            let e = match sub.edges[i] {
                Edge::Node { from, to } => Edge::Node { from: from + n, to: to + n },
                Edge::Slot { from, from_slot, to, to_slot } => Edge::Slot {
                    from: from + n,
                    from_slot,
                    to: to + n,
                    to_slot,
                },
            };
            self.edges.push(e);
            proof {
                assert(self@.nodes =~= earlier.nodes);
            }
            i += 1;
        }
        proof {
            let after = before.with_sub_graph(prefix@, sub@);
            assert(self@.edges =~= after.edges);
            before.lemma_sub_graph(prefix@, sub@);
            after.lemma_valid_in_range();
        }
        self.order = compute_schedule(self.names.len(), &self.edges);
        Ok(())
    }

    /// The index of the node of that name, if the graph holds one.
    pub fn get_node_id(&self, name: &str) -> (r: Option<usize>)
        requires
            self.wf(),
        ensures
            r.is_some() == lookup(self@.names(), name@).is_some(),
            r.is_some() ==> lookup(self@.names(), name@) == Some(r.unwrap() as int),
    {
        let owned = name.to_owned();
        proof {
            self.lemma_names();
        }
        find_name(&self.names, &owned)
    }

    /// The name of node `id`.
    pub fn node_name(&self, id: usize) -> (r: &String)
        requires
            self.wf(),
            id < self@.nodes.len(),
        ensures
            r@ == self@.nodes[id as int].name,
    {
        &self.names[id]
    }

    /// The slots of node `id`.
    pub fn node(&self, id: usize) -> (r: &RenderNode)
        requires
            self.wf(),
            id < self@.nodes.len(),
        ensures
            r@.inputs == self@.nodes[id as int].inputs,
            r@.outputs == self@.nodes[id as int].outputs,
    {
        &self.nodes[id]
    }

    /// The output slot that feeds input slot `slot` of node `id`, as the
    /// producing node and the index of its slot, if a slot edge feeds it.
    pub fn input_source(&self, id: usize, slot: usize) -> (r: Option<(usize, usize)>)
        requires
            self.wf(),
        ensures
            match r {
                Some((from, from_slot)) => {
                    &&& self@.occupied(id as int, slot as int)
                    &&& from == self@.feeder(id as int, slot as int).src()
                    &&& from_slot == self@.feeder(id as int, slot as int).out_slot()
                },
                None => !self@.occupied(id as int, slot as int),
            },
    {
        let mut i: usize = 0;
        while i < self.edges.len()
            invariant
                self.wf(),
                i <= self.edges.len(),
                forall|j: int| 0 <= j < i ==> !feeds(#[trigger] self.edges[j], id as int, slot as int),
            decreases self.edges.len() - i,
        {
            match self.edges[i] {
                Edge::Slot { from, from_slot, to, to_slot } => {
                    if to == id && to_slot == slot {
                        proof {
                            self@.lemma_feeder(i as int, id as int, slot as int);
                        }
                        return Some((from, from_slot));
                    }
                },
                Edge::Node { .. } => {},
            }
            i += 1;
        }
        None
    }

    /// Number of nodes.
    pub fn node_count(&self) -> (n: usize)
        requires
            self.wf(),
        ensures
            n == self@.nodes.len(),
    {
        self.names.len()
    }

    /// The edges, in the order of their insertion.
    pub fn edges(&self) -> (r: &Vec<Edge>)
        ensures
            r@ == self@.edges,
    {
        &self.edges
    }

    /// The schedule: every node once, each after all it depends on, and among
    /// the nodes that could run next always the one inserted first.
    pub fn schedule(&self) -> (r: &Vec<usize>)
        requires
            self.wf(),
        ensures
            self@.scheduled_as(r@),
            r@ == self@.schedule(),
            r@.len() == self@.nodes.len(),
            forall|j: int, k: int| 0 <= j < k < r@.len() ==> r@[j] != r@[k],
            forall|v: int| 0 <= v < self@.nodes.len() ==> placed(r@, r@.len() as int, v),
            forall|i: int, j: int, k: int|
                0 <= i < self@.edges.len() && 0 <= j < r@.len() && 0 <= k < r@.len() && #[trigger] r@[j]
                    == #[trigger] self@.edges[i].src() && #[trigger] r@[k] == self@.edges[i].dst() ==> j
                    < k,
    {
        proof {
            lemma_schedule_unique(self@.nodes.len() as int, self@.edges, self.order@, self@.schedule());
            self@.lemma_schedule_order(self.order@);
        }
        &self.order
    }

    /// A well-formed graph is valid and has a schedule.
    pub proof fn lemma_wf(&self)
        requires
            self.wf(),
        ensures
            self@.valid(),
            self@.scheduled_as(self@.schedule()),
    {
        assert(self@.scheduled_as(self.order@));
    }
}

} // verus!
