//! Running a render graph for one frame: the nodes in the order of the
//! schedule, each on the inputs that were resolved for it.

use vstd::prelude::*;
use crate::bindings::{RenderResourceBinding, RenderResourceBindings};
use crate::graph::{feeds, GraphView, RenderGraph};
use crate::names::{distinct, find_name, lemma_lookup, texts};
use crate::runner::{outcome_of, LoggedRunner, NodeFailure, NodeRunner, Outcome, Run};
use crate::schedule::{picks_first_ready, placed};

verus! {

/// The node whose failure ended a frame's graph execution early.
pub struct Abort {
    pub node: usize,
    pub name: String,
    pub reason: String,
}

/// An `Abort` as contracts see it.
pub struct AbortView {
    pub node: usize,
    pub name: Seq<char>,
    pub reason: Seq<char>,
}

/// A frame's graph execution as contracts see it.
pub struct FrameView {
    /// How many entries of the schedule have had their turn.
    pub position: int,
    /// For each node, the resources of its output slots, once it has run.
    pub outputs: Seq<Option<Seq<RenderResourceBinding>>>,
    /// The nodes that ran, in the order in which they ran.
    pub executed: Seq<usize>,
    /// The nodes that were skipped for want of a binding, in their order.
    pub skipped: Seq<usize>,
    /// The names of the bindings that were missed, each once.
    pub missing: Seq<Seq<char>>,
    /// The node whose failure ended the execution, if one did.
    pub aborted: Option<AbortView>,
}

impl FrameView {
    /// The frame before any node has had its turn.
    pub open spec fn fresh(n: int) -> FrameView {
        FrameView {
            position: 0,
            outputs: Seq::new(n as nat, |v: int| None),
            executed: Seq::empty(),
            skipped: Seq::empty(),
            missing: Seq::empty(),
            aborted: None,
        }
    }

    /// The node whose turn it is: the next of the schedule, unless the
    /// execution was given up or has reached the end.
    pub open spec fn next(self, s: Seq<usize>) -> Option<usize> {
        if self.aborted is None && 0 <= self.position < s.len() {
            Some(s[self.position])
        } else {
            None
        }
    }

    /// The resource for input slot `slot` of node `node`: where a slot edge
    /// feeds the slot, what the producing node has stored for its output slot;
    /// else what the whole graph shares under the name of the slot.
    pub open spec fn input(
        self,
        g: GraphView,
        shared: Map<Seq<char>, RenderResourceBinding>,
        node: int,
        slot: int,
    ) -> Option<RenderResourceBinding> {
        if g.occupied(node, slot) {
            let e = g.feeder(node, slot);
            match self.outputs[e.src()] {
                Some(stored) => if e.out_slot() < stored.len() {
                    Some(stored[e.out_slot()])
                } else {
                    None
                },
                None => None,
            }
        } else if shared.contains_key(g.nodes[node].inputs[slot]) {
            Some(shared[g.nodes[node].inputs[slot]])
        } else {
            None
        }
    }

    /// The resources for the input slots of node `node`, in the order of the
    /// slots, where every slot has one.
    pub open spec fn inputs(
        self,
        g: GraphView,
        shared: Map<Seq<char>, RenderResourceBinding>,
        node: int,
    ) -> Seq<RenderResourceBinding> {
        Seq::new(g.nodes[node].inputs.len(), |t: int| self.input(g, shared, node, t)->Some_0)
    }

    /// The first of the first `upto` input slots of node `node` for which
    /// there is no resource, if there is such a slot.
    pub open spec fn gap(
        self,
        g: GraphView,
        shared: Map<Seq<char>, RenderResourceBinding>,
        node: int,
        upto: int,
    ) -> Option<int>
        decreases upto,
    {
        if upto <= 0 {
            None
        } else {
            match self.gap(g, shared, node, upto - 1) {
                Some(t) => Some(t),
                None => if self.input(g, shared, node, upto - 1) is None {
                    Some(upto - 1)
                } else {
                    None
                },
            }
        }
    }

    /// The frame after one turn, in which the work of the node answers
    /// `answer`: the node whose turn it is misses the first input slot that
    /// has no resource, and is not run; with all its inputs, it is run, and the
    /// answer of its work counts. A frame without a next node stays as it is.
    pub open spec fn turn(
        self,
        g: GraphView,
        s: Seq<usize>,
        shared: Map<Seq<char>, RenderResourceBinding>,
        answer: Outcome,
    ) -> FrameView {
        match self.next(s) {
            None => self,
            Some(node) => {
                let slots = g.nodes[node as int].inputs;
                match self.gap(g, shared, node as int, slots.len() as int) {
                    Some(t) => self.after(g, node, Outcome::Missing(slots[t])),
                    None => self.after(g, node, answer),
                }
            },
        }
    }

    /// The frame after node `node` has had its turn with this outcome.
    ///
    /// A node that ran stores its outputs. A node that missed a binding is
    /// skipped, and the name is noted unless it was noted before. After any
    /// other failure the execution is given up, with the node on record.
    pub open spec fn after(self, g: GraphView, node: usize, outcome: Outcome) -> FrameView {
        match outcome {
            Outcome::Ran(outputs) => FrameView {
                position: self.position + 1,
                outputs: self.outputs.update(node as int, Some(outputs)),
                executed: self.executed.push(node),
                ..self
            },
            Outcome::Missing(name) => FrameView {
                position: self.position + 1,
                skipped: self.skipped.push(node),
                missing: if self.missing.contains(name) {
                    self.missing
                } else {
                    self.missing.push(name)
                },
                ..self
            },
            Outcome::Failed(reason) => FrameView {
                aborted: Some(AbortView { node, name: g.nodes[node as int].name, reason }),
                ..self
            },
        }
    }

    /// What holds of a frame at every step: only nodes that had their turn
    /// have stored outputs or stand in the report, every turn is on record,
    /// and no missing name is noted twice.
    pub open spec fn consistent(self, g: GraphView, s: Seq<usize>) -> bool {
        &&& 0 <= self.position <= s.len()
        &&& self.outputs.len() == g.nodes.len()
        &&& self.position == self.executed.len() + self.skipped.len()
        &&& forall|v: int|
            0 <= v < self.outputs.len() && (#[trigger] self.outputs[v]) is Some ==> placed(
                s,
                self.position,
                v,
            )
        &&& forall|j: int|
            0 <= j < self.executed.len() ==> placed(s, self.position, #[trigger] self.executed[j] as int)
        &&& forall|j: int|
            0 <= j < self.skipped.len() ==> placed(s, self.position, #[trigger] self.skipped[j] as int)
        &&& forall|k: int|
            0 <= k < self.position ==> self.executed.contains(#[trigger] s[k]) || self.skipped.contains(
                s[k],
            )
        &&& distinct(self.missing)
        &&& self.aborted is Some ==> {
            &&& self.position < s.len()
            &&& self.aborted->Some_0.node == s[self.position]
            &&& self.aborted->Some_0.name == g.nodes[s[self.position] as int].name
        }
    }
}

/// When a node's turn comes, every node that an edge makes it depend on has had
/// its turn: a consumer never runs before the producer of one of its inputs.
pub proof fn lemma_producers_first(g: GraphView, s: Seq<usize>, k: int, i: int)
    requires
        g.valid(),
        g.scheduled_as(s),
        0 <= k < s.len(),
        0 <= i < g.edges.len(),
        g.edges[i].dst() == s[k],
    ensures
        placed(s, k, g.edges[i].src()),
{
    assert(picks_first_ready(g.nodes.len() as int, g.edges, s, k));
}

/// What a producer has stored for an output slot is what the consumer at the
/// other end of a slot edge gets for its input slot.
pub proof fn lemma_consumer_sees_output(
    f: FrameView,
    g: GraphView,
    shared: Map<Seq<char>, RenderResourceBinding>,
    at: int,
)
    requires
        g.valid(),
        0 <= at < g.edges.len(),
        g.edges[at] is Slot,
        f.outputs[g.edges[at].src()] is Some,
        g.edges[at].out_slot() < f.outputs[g.edges[at].src()]->Some_0.len(),
    ensures
        f.input(g, shared, g.edges[at].dst(), g.edges[at]->to_slot as int) == Some(
            f.outputs[g.edges[at].src()]->Some_0[g.edges[at].out_slot()],
        ),
{
    g.lemma_feeder(at, g.edges[at].dst(), g.edges[at]->to_slot as int);
}

/// `gap` gives the first slot without a resource, and nothing exactly when
/// every slot has one.
pub proof fn lemma_gap(
    f: FrameView,
    g: GraphView,
    shared: Map<Seq<char>, RenderResourceBinding>,
    node: int,
    upto: int,
)
    ensures
        match f.gap(g, shared, node, upto) {
            Some(t) => {
                &&& 0 <= t < upto
                &&& f.input(g, shared, node, t) is None
                &&& forall|u: int| 0 <= u < t ==> (#[trigger] f.input(g, shared, node, u)) is Some
            },
            None => forall|u: int| 0 <= u < upto ==> (#[trigger] f.input(g, shared, node, u)) is Some,
        },
    decreases upto,
{
    if upto > 0 {
        lemma_gap(f, g, shared, node, upto - 1);
    }
}

/// The frame after one turn for each of the answers, from a fresh frame.
pub open spec fn play(
    g: GraphView,
    s: Seq<usize>,
    shared: Map<Seq<char>, RenderResourceBinding>,
    answers: Seq<Outcome>,
) -> FrameView
    decreases answers.len(),
{
    if answers.len() == 0 {
        FrameView::fresh(g.nodes.len() as int)
    } else {
        play(g, s, shared, answers.drop_last()).turn(g, s, shared, answers.last())
    }
}

/// A fresh frame is consistent.
pub proof fn lemma_fresh_consistent(g: GraphView, s: Seq<usize>)
    requires
        g.scheduled_as(s),
    ensures
        FrameView::fresh(g.nodes.len() as int).consistent(g, s),
{
}

/// The runs of the work of the nodes that the turns make, in their order: one
/// for each turn in which the node whose turn it is has all its inputs, on
/// those inputs, and none for any other turn.
pub open spec fn runs(
    g: GraphView,
    s: Seq<usize>,
    shared: Map<Seq<char>, RenderResourceBinding>,
    answers: Seq<Outcome>,
) -> Seq<Run>
    decreases answers.len(),
{
    if answers.len() == 0 {
        Seq::empty()
    } else {
        let f = play(g, s, shared, answers.drop_last());
        let before = runs(g, s, shared, answers.drop_last());
        match f.next(s) {
            Some(node) => if f.gap(g, shared, node as int, g.nodes[node as int].inputs.len() as int) is None {
                before.push(Run { node, inputs: f.inputs(g, shared, node as int), answer: answers.last() })
            } else {
                before
            },
            None => before,
        }
    }
}

/// Whatever the work of the nodes answers, the frame is consistent after
/// every turn.
pub proof fn lemma_play_consistent(
    g: GraphView,
    s: Seq<usize>,
    shared: Map<Seq<char>, RenderResourceBinding>,
    answers: Seq<Outcome>,
)
    requires
        g.valid(),
        g.scheduled_as(s),
    ensures
        play(g, s, shared, answers).consistent(g, s),
    decreases answers.len(),
{
    if answers.len() == 0 {
        lemma_fresh_consistent(g, s);
    } else {
        let f = play(g, s, shared, answers.drop_last());
        lemma_play_consistent(g, s, shared, answers.drop_last());
        match f.next(s) {
            Some(node) => {
                let slots = g.nodes[node as int].inputs;
                match f.gap(g, shared, node as int, slots.len() as int) {
                    Some(t) => {
                        lemma_step_consistent(f, g, s, Outcome::Missing(slots[t]));
                    },
                    None => {
                        lemma_step_consistent(f, g, s, answers.last());
                    },
                }
            },
            None => {},
        }
    }
}

/// A consistent frame stays so when the node whose turn it is has had it,
/// whatever the outcome.
pub proof fn lemma_step_consistent(f: FrameView, g: GraphView, s: Seq<usize>, outcome: Outcome)
    requires
        g.valid(),
        g.scheduled_as(s),
        f.consistent(g, s),
        f.next(s) is Some,
    ensures
        f.after(g, f.next(s)->Some_0, outcome).consistent(g, s),
{
    let node = f.next(s)->Some_0;
    let a = f.after(g, node, outcome);
    let p = f.position;
    assert(picks_first_ready(g.nodes.len() as int, g.edges, s, p));
    assert(s[p] == node);
    assert forall|v: int| placed(s, p, v) implies placed(s, p + 1, v) by {
        let j = choose|j: int| 0 <= j < p && #[trigger] s[j] == v;
        assert(s[j] == v);
    }
    assert(placed(s, p + 1, node as int));
    match outcome {
        Outcome::Ran(outputs) => {
            assert forall|j: int| 0 <= j < a.executed.len() implies placed(
                s,
                a.position,
                #[trigger] a.executed[j] as int,
            ) by {
                if j < f.executed.len() {
                    assert(a.executed[j] == f.executed[j]);
                }
            }
            assert forall|k: int| 0 <= k < a.position implies a.executed.contains(#[trigger] s[k])
                || a.skipped.contains(s[k]) by {
                if k < p {
                    if f.executed.contains(s[k]) {
                        let j = choose|j: int| 0 <= j < f.executed.len() && f.executed[j] == s[k];
                        assert(a.executed[j] == s[k]);
                    }
                } else {
                    assert(a.executed[f.executed.len() as int] == s[k]);
                }
            }
        },
        Outcome::Missing(name) => {
            assert forall|j: int| 0 <= j < a.skipped.len() implies placed(
                s,
                a.position,
                #[trigger] a.skipped[j] as int,
            ) by {
                if j < f.skipped.len() {
                    assert(a.skipped[j] == f.skipped[j]);
                }
            }
            assert forall|k: int| 0 <= k < a.position implies a.executed.contains(#[trigger] s[k])
                || a.skipped.contains(s[k]) by {
                if k < p {
                    if f.skipped.contains(s[k]) {
                        let j = choose|j: int| 0 <= j < f.skipped.len() && f.skipped[j] == s[k];
                        assert(a.skipped[j] == s[k]);
                    }
                } else {
                    assert(a.skipped[f.skipped.len() as int] == s[k]);
                }
            }
            if !f.missing.contains(name) {
                assert forall|i: int, j: int| 0 <= i < j < a.missing.len() implies a.missing[i]
                    != a.missing[j] by {
                    if j < f.missing.len() {
                        assert(f.missing[i] != f.missing[j]);
                    } else {
                        assert(f.missing[i] != name);
                    }
                }
            }
        },
        Outcome::Failed(reason) => {},
    }
}

/// What a frame's graph execution came to.
pub struct FrameReport {
    /// The nodes that ran, in the order in which they ran.
    pub executed: Vec<usize>,
    /// The nodes that were skipped for want of a binding, in their order.
    pub skipped: Vec<usize>,
    /// The names of the bindings that were missed, each once.
    pub missing: Vec<String>,
    /// The node whose failure ended the execution, if one did.
    pub aborted: Option<Abort>,
}

/// The resources that the nodes have stored, as contracts see them.
pub open spec fn stored(outputs: Seq<Option<Vec<RenderResourceBinding>>>) -> Seq<
    Option<Seq<RenderResourceBinding>>,
> {
    Seq::new(
        outputs.len(),
        |v: int|
            match outputs[v] {
                Some(o) => Some(o@),
                None => None,
            },
    )
}

/// The abort on record, as contracts see it.
pub open spec fn abort_view(aborted: Option<Abort>) -> Option<AbortView> {
    match aborted {
        Some(a) => Some(AbortView { node: a.node, name: a.name@, reason: a.reason@ }),
        None => None,
    }
}

/// A frame's graph execution in progress.
pub struct Frame {
    position: usize,
    outputs: Vec<Option<Vec<RenderResourceBinding>>>,
    report: FrameReport,
}

impl View for Frame {
    type V = FrameView;

    closed spec fn view(&self) -> FrameView {
        FrameView {
            position: self.position as int,
            outputs: stored(self.outputs@),
            executed: self.report.executed@,
            skipped: self.report.skipped@,
            missing: texts(self.report.missing@),
            aborted: abort_view(self.report.aborted),
        }
    }
}

impl Frame {
    /// The frame of `graph` before any node has had its turn.
    pub fn begin(graph: &RenderGraph) -> (f: Frame)
        requires
            graph.wf(),
        ensures
            f@ == FrameView::fresh(graph@.nodes.len() as int),
            f@.consistent(graph@, graph@.schedule()),
    {
        let n = graph.node_count();
        let mut outputs: Vec<Option<Vec<RenderResourceBinding>>> = Vec::new();
        while outputs.len() < n
            invariant
                outputs.len() <= n,
                forall|v: int| 0 <= v < outputs.len() ==> outputs[v] is None,
            decreases n - outputs.len(),
        {
            outputs.push(None);
        }
        let f = Frame {
            position: 0,
            outputs,
            report: FrameReport {
                executed: Vec::new(),
                skipped: Vec::new(),
                missing: Vec::new(),
                aborted: None,
            },
        };
        proof {
            assert(f@.outputs =~= FrameView::fresh(n as int).outputs);
            assert(f@.missing =~= Seq::<Seq<char>>::empty());
            assert(f@.executed =~= Seq::<usize>::empty());
            assert(f@.skipped =~= Seq::<usize>::empty());
            graph.lemma_wf();
            let s = graph@.schedule();
            assert(s.len() == n);
        }
        f
    }

    /// The node whose turn it is, if the execution goes on.
    pub fn next_node(&self, graph: &RenderGraph) -> (r: Option<usize>)
        requires
            graph.wf(),
            self@.consistent(graph@, graph@.schedule()),
        ensures
            r == self@.next(graph@.schedule()),
    {
        let schedule = graph.schedule();
        if self.report.aborted.is_none() && self.position < schedule.len() {
            Some(schedule[self.position])
        } else {
            None
        }
    }

    /// The resources for the input slots of the node whose turn it is, in the
    /// order of the slots; or the name of the first slot for which there is
    /// none.
    pub fn resolve(&self, graph: &RenderGraph, shared: &RenderResourceBindings) -> (r: Result<
        Vec<RenderResourceBinding>,
        String,
    >)
        requires
            graph.wf(),
            shared.wf(),
            self@.consistent(graph@, graph@.schedule()),
            self@.next(graph@.schedule()) is Some,
        ensures
            ({
                let node = self@.next(graph@.schedule())->Some_0 as int;
                let slots = graph@.nodes[node].inputs;
                let gap = self@.gap(graph@, shared@, node, slots.len() as int);
                match r {
                    Ok(inputs) => {
                        &&& gap is None
                        &&& inputs@ == self@.inputs(graph@, shared@, node)
                        &&& inputs.len() == slots.len()
                        &&& forall|t: int|
                            0 <= t < slots.len() ==> self@.input(graph@, shared@, node, t) == Some(
                                #[trigger] inputs[t],
                            )
                    },
                    Err(name) => {
                        &&& gap is Some
                        &&& 0 <= gap->Some_0 < slots.len()
                        &&& name@ == slots[gap->Some_0]
                    },
                }
            }),
    {
        proof {
            graph.lemma_wf();
        }
        let ghost s = graph@.schedule();
        let schedule = graph.schedule();
        let node = schedule[self.position];
        proof {
            assert(picks_first_ready(graph@.nodes.len() as int, graph@.edges, s, self.position as int));
        }
        let slots = graph.node(node);
        let mut inputs: Vec<RenderResourceBinding> = Vec::new();
        let mut t: usize = 0;
        while t < slots.inputs.len()
            invariant
                graph.wf(),
                shared.wf(),
                graph@.valid(),
                node < graph@.nodes.len(),
                self@.next(graph@.schedule()) == Some(node),
                self.outputs.len() == graph@.nodes.len(),
                texts(slots.inputs@) == graph@.nodes[node as int].inputs,
                t <= slots.inputs.len(),
                inputs.len() == t,
                forall|u: int|
                    0 <= u < t ==> self@.input(graph@, shared@, node as int, u) == Some(#[trigger] inputs[u]),
            decreases slots.inputs.len() - t,
        {
            let found = match graph.input_source(node, t) {
                Some((from, from_slot)) => {
                    proof {
                        let k = choose|i: int|
                            0 <= i < graph@.edges.len() && feeds(
                                #[trigger] graph@.edges[i],
                                node as int,
                                t as int,
                            );
                        graph@.lemma_feeder(k, node as int, t as int);
                    }
                    match &self.outputs[from] {
                        Some(o) => if from_slot < o.len() {
                            Some(o[from_slot])
                        } else {
                            None
                        },
                        None => None,
                    }
                },
                None => {
                    assert(texts(slots.inputs@)[t as int] == slots.inputs[t as int]@);
                    shared.get(slots.inputs[t].as_str())
                },
            };
            assert(found == self@.input(graph@, shared@, node as int, t as int));
            match found {
                Some(b) => {
                    inputs.push(b);
                },
                None => {
                    let name = slots.inputs[t].clone();
                    proof {
                        let at = t as int;
                        assert(name@ == texts(slots.inputs@)[at]);
                        assert(self@.input(graph@, shared@, node as int, at) is None);
                        lemma_gap(self@, graph@, shared@, node as int, slots.inputs.len() as int);
                        match self@.gap(graph@, shared@, node as int, slots.inputs.len() as int) {
                            Some(first) => {
                                if first < at {
                                    assert(self@.input(graph@, shared@, node as int, first) == Some(
                                        inputs[first],
                                    ));
                                }
                            },
                            None => {},
                        }
                    }
                    return Err(name);
                },
            }
            t += 1;
        }
        proof {
            lemma_gap(self@, graph@, shared@, node as int, slots.inputs.len() as int);
            match self@.gap(graph@, shared@, node as int, slots.inputs.len() as int) {
                Some(first) => {
                    assert(self@.input(graph@, shared@, node as int, first) == Some(inputs[first]));
                },
                None => {},
            }
            assert(inputs@ =~= self@.inputs(graph@, shared@, node as int));
        }
        Ok(inputs)
    }

    /// Takes in what the work of the node whose turn it is came to.
    pub fn finish(&mut self, graph: &RenderGraph, result: Result<Vec<RenderResourceBinding>, NodeFailure>)
        requires
            graph.wf(),
            old(self)@.consistent(graph@, graph@.schedule()),
            old(self)@.next(graph@.schedule()) is Some,
        ensures
            final(self)@ == old(self)@.after(
                graph@,
                old(self)@.next(graph@.schedule())->Some_0,
                outcome_of(result),
            ),
            final(self)@.consistent(graph@, graph@.schedule()),
    {
        proof {
            graph.lemma_wf();
            lemma_step_consistent(self@, graph@, graph@.schedule(), outcome_of(result));
            assert(picks_first_ready(
                graph@.nodes.len() as int,
                graph@.edges,
                graph@.schedule(),
                self.position as int,
            ));
        }
        let ghost before = self@;
        let schedule = graph.schedule();
        assert(self.position < schedule.len());
        let node = schedule[self.position];
        match result {
            Ok(outputs) => {
                let ghost made = outputs@;
                self.outputs.set(node, Some(outputs));
                self.report.executed.push(node);
                self.position = self.position + 1;
                proof {
                    assert(self@.outputs =~= before.outputs.update(node as int, Some(made)));
                }
            },
            Err(NodeFailure::MissingBinding(name)) => {
                self.report.skipped.push(node);
                proof {
                    lemma_lookup(before.missing, name@);
                }
                if find_name(&self.report.missing, &name).is_none() {
                    self.report.missing.push(name);
                    proof {
                        assert(self@.missing =~= before.missing.push(name@));
                    }
                }
                self.position = self.position + 1;
            },
            Err(NodeFailure::Failed(reason)) => {
                let name = graph.node_name(node).clone();
                self.report.aborted = Some(Abort { node, name, reason });
            },
        }
    }

    /// The report of the frame as it stands.
    pub fn into_report(self) -> (r: FrameReport)
        ensures
            r@ == self@.report(),
    {
        self.report
    }
}

/// A `FrameReport` as contracts see it.
pub struct ReportView {
    pub executed: Seq<usize>,
    pub skipped: Seq<usize>,
    pub missing: Seq<Seq<char>>,
    pub aborted: Option<AbortView>,
}

impl View for FrameReport {
    type V = ReportView;

    open spec fn view(&self) -> ReportView {
        ReportView {
            executed: self.executed@,
            skipped: self.skipped@,
            missing: texts(self.missing@),
            aborted: abort_view(self.aborted),
        }
    }
}

impl FrameView {
    /// What the frame reports.
    pub open spec fn report(self) -> ReportView {
        ReportView {
            executed: self.executed,
            skipped: self.skipped,
            missing: self.missing,
            aborted: self.aborted,
        }
    }
}

/// What running the graph for one frame comes to: the report is that of the
/// frame that a fresh frame becomes, turn by turn, with some answers of the
/// work of the nodes, once it has no next node; and the work was run exactly
/// as those turns say, each node once, on the inputs resolved for it.
pub open spec fn ran_frame(
    g: GraphView,
    shared: Map<Seq<char>, RenderResourceBinding>,
    ran: Seq<Run>,
    ran_after: Seq<Run>,
    report: ReportView,
) -> bool {
    exists|answers: Seq<Outcome>|
        {
            let f = #[trigger] play(g, g.schedule(), shared, answers);
            &&& f.consistent(g, g.schedule())
            &&& f.next(g.schedule()) is None
            &&& report == f.report()
            &&& ran_after == ran + runs(g, g.schedule(), shared, answers)
        }
}

/// Runs the graph for one frame: every node in the order of the schedule, on
/// the inputs resolved for it, until the schedule ends or a node fails
/// otherwise than by missing a binding.
///
/// The graph and the shared bindings stay as they are. What comes back is the
/// report of the frame that a fresh frame becomes, turn by turn, with what
/// the work of the nodes answered, once it has no next node.
pub fn execute<R: NodeRunner>(
    graph: &RenderGraph,
    shared: &RenderResourceBindings,
    runner: &mut LoggedRunner<R>,
) -> (r: FrameReport)
    requires
        graph.wf(),
        shared.wf(),
    ensures
        ran_frame(graph@, shared@, old(runner).ran(), final(runner).ran(), r@),
{
    let mut frame = Frame::begin(graph);
    let n = graph.node_count();
    let ghost mut answers: Seq<Outcome> = Seq::empty();
    proof {
        graph.lemma_wf();
        assert(runner.ran() =~= old(runner).ran() + runs(graph@, graph@.schedule(), shared@, answers));
    }
    loop
        invariant
            graph.wf(),
            shared.wf(),
            n == graph@.schedule().len(),
            frame@.consistent(graph@, graph@.schedule()),
            frame@ == play(graph@, graph@.schedule(), shared@, answers),
            runner.ran() == old(runner).ran() + runs(graph@, graph@.schedule(), shared@, answers),
        ensures
            frame@.next(graph@.schedule()) is None,
        decreases
                if frame@.aborted is None {
                    n - frame@.position
                } else {
                    0
                },
    {
        match frame.next_node(graph) {
            None => {
                break;
            },
            Some(node) => {
                let ghost earlier = frame@;
                let ghost ran = runner.ran();
                let result = match frame.resolve(graph, shared) {
                    Ok(inputs) => runner.run(node, &inputs),
                    Err(name) => Err(NodeFailure::MissingBinding(name)),
                };
                proof {
                    let longer = answers.push(outcome_of(result));
                    assert(longer.drop_last() =~= answers);
                    let made = runs(graph@, graph@.schedule(), shared@, answers);
                    assert(runner.ran() =~= old(runner).ran() + runs(
                        graph@,
                        graph@.schedule(),
                        shared@,
                        longer,
                    )) by {
                        assert(ran == old(runner).ran() + made);
                    }
                    assert(play(graph@, graph@.schedule(), shared@, longer) == earlier.turn(
                        graph@,
                        graph@.schedule(),
                        shared@,
                        outcome_of(result),
                    ));
                    answers = longer;
                }
                frame.finish(graph, result);
            },
        }
    }
    let ghost last = frame@;
    let r = frame.into_report();
    proof {
        assert(last == play(graph@, graph@.schedule(), shared@, answers));
    }
    r
}

} // verus!
