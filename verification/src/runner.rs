//! The work of the nodes of a render graph, and the record of what was run.

use vstd::prelude::*;
use crate::bindings::RenderResourceBinding;

verus! {

/// Why the work of a node did not succeed.
pub enum NodeFailure {
    /// A binding that the node needs is not there. The node is skipped for
    /// this frame and the nodes after it still run.
    MissingBinding(String),
    /// Anything else. The rest of the frame's graph execution is given up.
    Failed(String),
}

/// The work of the nodes. The executor calls it once for each node that it
/// runs, with the resources of the node's input slots in their order, and
/// takes the resources of its output slots back.
pub trait NodeRunner {
    fn run(&mut self, node: usize, inputs: &Vec<RenderResourceBinding>) -> Result<
        Vec<RenderResourceBinding>,
        NodeFailure,
    >;
}

/// What the work of a node came to, as contracts see it.
pub enum Outcome {
    Ran(Seq<RenderResourceBinding>),
    Missing(Seq<char>),
    Failed(Seq<char>),
}

/// The outcome that a result of `NodeRunner::run` stands for.
pub open spec fn outcome_of(result: Result<Vec<RenderResourceBinding>, NodeFailure>) -> Outcome {
    match result {
        Ok(outputs) => Outcome::Ran(outputs@),
        Err(NodeFailure::MissingBinding(name)) => Outcome::Missing(name@),
        Err(NodeFailure::Failed(reason)) => Outcome::Failed(reason@),
    }
}

/// One run of the work of a node, as contracts see it: the node, the
/// resources it was given, and what its work came to.
pub struct Run {
    pub node: usize,
    pub inputs: Seq<RenderResourceBinding>,
    pub answer: Outcome,
}

/// The work of the nodes together with the record of its runs. The work is
/// reached through `run` only, so the record holds every run that was made
/// since the work was put in.
pub struct LoggedRunner<R: NodeRunner> {
    runner: R,
    runs: Ghost<Seq<Run>>,
}

impl<R: NodeRunner> LoggedRunner<R> {
    /// The runs that were made, in their order.
    pub closed spec fn ran(&self) -> Seq<Run> {
        self.runs@
    }

    /// The work as it stands.
    pub closed spec fn inner(&self) -> R {
        self.runner
    }

    /// Puts the work in, with an empty record.
    pub fn new(runner: R) -> (r: Self)
        ensures
            r.inner() == runner,
            r.ran().len() == 0,
    {
        LoggedRunner { runner, runs: Ghost(Seq::empty()) }
    }

    /// The work, to look at.
    pub fn runner(&self) -> (r: &R)
        ensures
            *r == self.inner(),
    {
        &self.runner
    }

    /// Takes the work out.
    pub fn into_inner(self) -> (r: R)
        ensures
            r == self.inner(),
    {
        self.runner
    }

    /// Runs the work of node `node` on `inputs`, and puts the run on record.
    pub fn run(&mut self, node: usize, inputs: &Vec<RenderResourceBinding>) -> (r: Result<
        Vec<RenderResourceBinding>,
        NodeFailure,
    >)
        ensures
            final(self).ran() == old(self).ran().push(
                Run { node, inputs: inputs@, answer: outcome_of(r) },
            ),
    {
        let r = self.runner.run(node, inputs);
        self.runs = Ghost(self.runs@.push(Run { node, inputs: inputs@, answer: outcome_of(r) }));
        r
    }
}

} // verus!
