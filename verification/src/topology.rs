//! Edges, paths and reachability of a render graph, and what it means for the
//! graph to be free of cycles.

use vstd::prelude::*;

verus! {

/// A dependency between two nodes, named by their indices in the graph.
///
/// The node `to` runs after the node `from`. A slot edge also feeds one output
/// slot of `from` into one input slot of `to`.
#[derive(Clone, Copy, Debug, PartialEq, Eq, Structural)]
pub enum Edge {
    Node { from: usize, to: usize },
    Slot { from: usize, from_slot: usize, to: usize, to_slot: usize },
}

impl Edge {
    /// Index of the node that must run first.
    pub open spec fn src(self) -> int {
        match self {
            Edge::Node { from, .. } => from as int,
            Edge::Slot { from, .. } => from as int,
        }
    }

    /// Index of the node that must run second.
    pub open spec fn dst(self) -> int {
        match self {
            Edge::Node { to, .. } => to as int,
            Edge::Slot { to, .. } => to as int,
        }
    }

    /// The output slot that a slot edge takes from.
    pub open spec fn out_slot(self) -> int {
        match self {
            Edge::Node { .. } => 0,
            Edge::Slot { from_slot, .. } => from_slot as int,
        }
    }

    /// The node that must run first.
    pub fn from(&self) -> (r: usize)
        ensures
            r == self.src(),
    {
        match self {
            Edge::Node { from, .. } => *from,
            Edge::Slot { from, .. } => *from,
        }
    }

    /// The node that must run second.
    pub fn to(&self) -> (r: usize)
        ensures
            r == self.dst(),
    {
        match self {
            Edge::Node { to, .. } => *to,
            Edge::Slot { to, .. } => *to,
        }
    }
}

/// Every edge joins two of the `n` nodes.
pub open spec fn edges_in_range(n: int, edges: Seq<Edge>) -> bool {
    forall|i: int| 0 <= i < edges.len() ==> 0 <= #[trigger] edges[i].src() < n && 0 <= edges[i].dst() < n
}

/// Some edge leads from `a` straight to `b`.
pub open spec fn linked(edges: Seq<Edge>, a: int, b: int) -> bool {
    exists|i: int| 0 <= i < edges.len() && #[trigger] edges[i].src() == a && edges[i].dst() == b
}

/// `p` is a walk along edges: a non-empty list of nodes, each linked to the next.
pub open spec fn is_path(edges: Seq<Edge>, p: Seq<int>) -> bool {
    &&& p.len() >= 1
    &&& forall|k: int| 0 <= k < p.len() - 1 ==> linked(edges, #[trigger] p[k], p[k + 1])
}

/// `b` can be reached from `a` by following zero or more edges.
pub open spec fn reaches(edges: Seq<Edge>, a: int, b: int) -> bool {
    exists|p: Seq<int>| is_path(edges, p) && p[0] == a && #[trigger] p.last() == b
}

/// `rank` places the source of every edge strictly before its target.
pub open spec fn respects(edges: Seq<Edge>, rank: Seq<int>) -> bool {
    forall|i: int| 0 <= i < edges.len() ==> rank[#[trigger] edges[i].src()] < rank[edges[i].dst()]
}

/// The `n` nodes can be ranked so that every edge points upwards: the graph
/// has no cycle.
pub open spec fn acyclic(n: int, edges: Seq<Edge>) -> bool {
    exists|rank: Seq<int>| rank.len() == n && #[trigger] respects(edges, rank)
}

/// Every node reaches itself.
pub proof fn lemma_reaches_self(edges: Seq<Edge>, a: int)
    ensures
        reaches(edges, a, a),
{
    let p = seq![a];
    assert(is_path(edges, p));
    assert(p[0] == a && p.last() == a);
}

/// Reachability extends along one more edge.
pub proof fn lemma_reaches_step(edges: Seq<Edge>, a: int, b: int, c: int)
    requires
        reaches(edges, a, b),
        linked(edges, b, c),
    ensures
        reaches(edges, a, c),
{
    let p = choose|p: Seq<int>| is_path(edges, p) && p[0] == a && #[trigger] p.last() == b;
    let q = p.push(c);
    assert forall|k: int| 0 <= k < q.len() - 1 implies linked(edges, #[trigger] q[k], q[k + 1]) by {
        if k < p.len() - 1 {
            assert(linked(edges, p[k], p[k + 1]));
        }
    }
    assert(is_path(edges, q));
    assert(q[0] == a && q.last() == c);
}

/// A node from which no edge leads reaches no node but itself.
pub proof fn lemma_sink(edges: Seq<Edge>, a: int, b: int)
    requires
        forall|i: int| 0 <= i < edges.len() ==> #[trigger] edges[i].src() != a,
        a != b,
    ensures
        !reaches(edges, a, b),
{
    if reaches(edges, a, b) {
        let p = choose|p: Seq<int>| is_path(edges, p) && p[0] == a && #[trigger] p.last() == b;
        assert(linked(edges, p[0int], p[0int + 1]));
    }
}

/// A set of nodes that holds `a` and is closed under the edges holds all that
/// `a` reaches.
pub proof fn lemma_closed_holds_reachable(edges: Seq<Edge>, inside: spec_fn(int) -> bool, a: int, b: int)
    requires
        inside(a),
        forall|i: int| 0 <= i < edges.len() && inside(#[trigger] edges[i].src()) ==> inside(edges[i].dst()),
        reaches(edges, a, b),
    ensures
        inside(b),
{
    let p = choose|p: Seq<int>| is_path(edges, p) && p[0] == a && #[trigger] p.last() == b;
    lemma_closed_holds_path(edges, inside, p, p.len() - 1);
}

proof fn lemma_closed_holds_path(edges: Seq<Edge>, inside: spec_fn(int) -> bool, p: Seq<int>, k: int)
    requires
        is_path(edges, p),
        inside(p[0]),
        forall|i: int| 0 <= i < edges.len() && inside(#[trigger] edges[i].src()) ==> inside(edges[i].dst()),
        0 <= k < p.len(),
    ensures
        inside(p[k]),
    decreases k,
{
    if k > 0 {
        lemma_closed_holds_path(edges, inside, p, k - 1);
        assert(linked(edges, p[k - 1], p[k - 1 + 1]));
    }
}

/// Along a path the rank never falls.
proof fn lemma_rank_along_path(edges: Seq<Edge>, rank: Seq<int>, p: Seq<int>, k: int)
    requires
        respects(edges, rank),
        is_path(edges, p),
        0 <= k < p.len(),
    ensures
        rank[p[0]] <= rank[p[k]],
        k > 0 ==> rank[p[0]] < rank[p[k]],
    decreases k,
{
    if k > 0 {
        lemma_rank_along_path(edges, rank, p, k - 1);
        assert(linked(edges, p[k - 1], p[k - 1 + 1]));
    }
}

/// In a graph without cycles, an edge from `from` to `to` closes a cycle exactly
/// when `to` already reaches `from`: with such an edge no ranking is left, and
/// without one the graph stays free of cycles.
pub proof fn lemma_new_edge(n: int, edges: Seq<Edge>, e: Edge)
    requires
        acyclic(n, edges),
        edges_in_range(n, edges),
        0 <= e.src() < n,
        0 <= e.dst() < n,
    ensures
        acyclic(n, edges.push(e)) <==> !reaches(edges, e.dst(), e.src()),
{
    let more = edges.push(e);
    if reaches(edges, e.dst(), e.src()) {
        if acyclic(n, more) {
            let rank = choose|rank: Seq<int>| rank.len() == n && #[trigger] respects(more, rank);
            assert(respects(edges, rank)) by {
                assert forall|i: int| 0 <= i < edges.len() implies rank[#[trigger] edges[i].src()]
                    < rank[edges[i].dst()] by {
                    assert(more[i] == edges[i]);
                }
            }
            let p = choose|p: Seq<int>|
                is_path(edges, p) && p[0] == e.dst() && #[trigger] p.last() == e.src();
            lemma_rank_along_path(edges, rank, p, p.len() - 1);
            assert(more[edges.len() as int] == e);
            assert(rank[more[edges.len() as int].src()] < rank[more[edges.len() as int].dst()]);
        }
    } else {
        let rank = choose|rank: Seq<int>| rank.len() == n && #[trigger] respects(edges, rank);
        let gap = rank[e.src()] - rank[e.dst()];
        let lift: int = if gap >= 0 { gap + 1 } else { 0 };
        let raised = Seq::new(
            n as nat,
            |v: int| if reaches(edges, e.dst(), v) { rank[v] + lift } else { rank[v] },
        );
        lemma_reaches_self(edges, e.dst());
        assert forall|i: int| 0 <= i < more.len() implies raised[#[trigger] more[i].src()]
            < raised[more[i].dst()] by {
            if i < edges.len() {
                assert(more[i] == edges[i]);
                let a = edges[i].src();
                let b = edges[i].dst();
                if reaches(edges, e.dst(), a) {
                    assert(linked(edges, a, b));
                    lemma_reaches_step(edges, e.dst(), a, b);
                }
            } else {
                assert(more[i] == e);
            }
        }
        assert(respects(more, raised));
    }
}

/// Taking an edge away leaves a graph without cycles free of them.
pub proof fn lemma_fewer_edges(n: int, edges: Seq<Edge>, at: int)
    requires
        acyclic(n, edges),
        0 <= at < edges.len(),
    ensures
        acyclic(n, edges.remove(at)),
{
    let rank = choose|rank: Seq<int>| rank.len() == n && #[trigger] respects(edges, rank);
    let fewer = edges.remove(at);
    assert forall|i: int| 0 <= i < fewer.len() implies rank[#[trigger] fewer[i].src()]
        < rank[fewer[i].dst()] by {
        if i < at {
            assert(fewer[i] == edges[i]);
        } else {
            assert(fewer[i] == edges[i + 1]);
        }
    }
    assert(respects(fewer, rank));
}

/// One more node, joined to nothing, leaves a graph without cycles free of them.
pub proof fn lemma_more_nodes(n: int, edges: Seq<Edge>)
    requires
        0 <= n,
        acyclic(n, edges),
        edges_in_range(n, edges),
    ensures
        acyclic(n + 1, edges),
{
    let rank = choose|rank: Seq<int>| rank.len() == n && #[trigger] respects(edges, rank);
    let longer = rank.push(0);
    assert forall|i: int| 0 <= i < edges.len() implies longer[#[trigger] edges[i].src()]
        < longer[edges[i].dst()] by {
        assert(rank[edges[i].src()] < rank[edges[i].dst()]);
    }
    assert(respects(edges, longer));
}

/// Two graphs without cycles, set side by side, make a graph without cycles:
/// the nodes of the second follow those of the first, and its edges are moved
/// along with them.
pub proof fn lemma_side_by_side(n: int, first: Seq<Edge>, m: int, second: Seq<Edge>, moved: Seq<Edge>)
    requires
        0 <= n,
        0 <= m,
        acyclic(n, first),
        edges_in_range(n, first),
        acyclic(m, second),
        edges_in_range(m, second),
        moved.len() == second.len(),
        forall|i: int|
            0 <= i < second.len() ==> (#[trigger] moved[i]).src() == second[i].src() + n && moved[i].dst()
                == second[i].dst() + n,
    ensures
        acyclic(n + m, first + moved),
        edges_in_range(n + m, first + moved),
{
    let low = choose|rank: Seq<int>| rank.len() == n && #[trigger] respects(first, rank);
    let high = choose|rank: Seq<int>| rank.len() == m && #[trigger] respects(second, rank);
    let rank = low + high;
    let all = first + moved;
    assert forall|i: int| 0 <= i < all.len() implies rank[#[trigger] all[i].src()] < rank[all[i].dst()]
        && 0 <= all[i].src() < n + m && 0 <= all[i].dst() < n + m by {
        if i < first.len() {
            assert(all[i] == first[i]);
            assert(rank[first[i].src()] == low[first[i].src()]);
            assert(rank[first[i].dst()] == low[first[i].dst()]);
        } else {
            let k = i - first.len();
            assert(all[i] == moved[k]);
            assert(0 <= second[k].src() < m && 0 <= second[k].dst() < m);
            assert(rank[moved[k].src()] == high[second[k].src()]);
            assert(rank[moved[k].dst()] == high[second[k].dst()]);
            assert(high[second[k].src()] < high[second[k].dst()]);
        }
    }
    assert(respects(all, rank));
}

/// A graph without edges has no cycle.
pub proof fn lemma_no_edges(n: int)
    requires
        0 <= n,
    ensures
        acyclic(n, Seq::<Edge>::empty()),
{
    let rank = Seq::new(n as nat, |v: int| 0int);
    assert(respects(Seq::<Edge>::empty(), rank));
}

} // verus!
