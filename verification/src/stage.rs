//! The phases of a frame and the driver that holds the host to their order.

use vstd::prelude::*;

verus! {

/// Name of the phase in which render resources are set up.
pub const RENDER_RESOURCE: &'static str = "render_resource";

/// Name of the phase in which the render graph is scheduled and run.
pub const RENDER_GRAPH_SYSTEMS: &'static str = "render_graph_systems";

/// Name of the phase in which compute pipelines are dispatched.
pub const COMPUTE: &'static str = "compute";

/// Name of the phase in which draws are submitted.
pub const DRAW: &'static str = "draw";

/// Name of the phase in which the transient state of the frame is cleared.
pub const POST_RENDER: &'static str = "post_render";

/// The five phases of a frame, in the order in which they run. Each is a
/// barrier: it begins when the one before it has finished.
#[derive(Clone, Copy, Debug, PartialEq, Eq, Structural)]
pub enum Phase {
    RenderResource,
    RenderGraphSystems,
    Compute,
    Draw,
    PostRender,
}

impl Phase {
    /// The place of the phase within a frame, from 0.
    pub open spec fn rank(self) -> int {
        match self {
            Phase::RenderResource => 0,
            Phase::RenderGraphSystems => 1,
            Phase::Compute => 2,
            Phase::Draw => 3,
            Phase::PostRender => 4,
        }
    }

    /// The phase that follows: after the last phase of a frame, the first of
    /// the next.
    pub open spec fn successor(self) -> Phase {
        match self {
            Phase::RenderResource => Phase::RenderGraphSystems,
            Phase::RenderGraphSystems => Phase::Compute,
            Phase::Compute => Phase::Draw,
            Phase::Draw => Phase::PostRender,
            Phase::PostRender => Phase::RenderResource,
        }
    }

    /// The phase that follows this one.
    pub fn next(self) -> (r: Phase)
        ensures
            r == self.successor(),
            r.rank() == (self.rank() + 1) % 5,
    {
        match self {
            Phase::RenderResource => Phase::RenderGraphSystems,
            Phase::RenderGraphSystems => Phase::Compute,
            Phase::Compute => Phase::Draw,
            Phase::Draw => Phase::PostRender,
            Phase::PostRender => Phase::RenderResource,
        }
    }

    /// The place of the phase within a frame, from 0.
    pub fn index(self) -> (r: usize)
        ensures
            r == self.rank(),
    {
        match self {
            Phase::RenderResource => 0,
            Phase::RenderGraphSystems => 1,
            Phase::Compute => 2,
            Phase::Draw => 3,
            Phase::PostRender => 4,
        }
    }

    /// The name under which the host knows the phase.
    pub fn name(self) -> (r: &'static str)
        ensures
            r@ == self.label(),
    {
        match self {
            Phase::RenderResource => RENDER_RESOURCE,
            Phase::RenderGraphSystems => RENDER_GRAPH_SYSTEMS,
            Phase::Compute => COMPUTE,
            Phase::Draw => DRAW,
            Phase::PostRender => POST_RENDER,
        }
    }

    /// The name of the phase, as its characters.
    pub open spec fn label(self) -> Seq<char> {
        match self {
            Phase::RenderResource => RENDER_RESOURCE@,
            Phase::RenderGraphSystems => RENDER_GRAPH_SYSTEMS@,
            Phase::Compute => COMPUTE@,
            Phase::Draw => DRAW@,
            Phase::PostRender => POST_RENDER@,
        }
    }

    /// The phase that the host knows under `name`, if it is one of the five.
    pub fn from_name(name: &str) -> (r: Option<Phase>)
        ensures
            match r {
                Some(phase) => name@ == phase.label(),
                None => forall|phase: Phase| name@ != phase.label(),
            },
    {
        let owned = name.to_owned();
        if owned == RENDER_RESOURCE.to_owned() {
            Some(Phase::RenderResource)
        } else if owned == RENDER_GRAPH_SYSTEMS.to_owned() {
            Some(Phase::RenderGraphSystems)
        } else if owned == COMPUTE.to_owned() {
            Some(Phase::Compute)
        } else if owned == DRAW.to_owned() {
            Some(Phase::Draw)
        } else if owned == POST_RENDER.to_owned() {
            Some(Phase::PostRender)
        } else {
            None
        }
    }
}

/// Why the driver refused.
#[derive(Clone, Copy, Debug, PartialEq, Eq, Structural)]
pub enum StageError {
    /// The host entered `got` when it was the turn of `expected`.
    OutOfOrder { expected: Phase, got: Phase },
    /// Work of the phase `needed` was asked for while that phase was not
    /// running.
    NotRunning { needed: Phase },
}

/// Follows the host through the phases of each frame. It refuses a phase that
/// comes out of turn, and knows which phase is running: the one that was
/// entered last. A phase ends when the next is entered.
#[derive(Clone, Copy, Debug, PartialEq, Eq, Structural)]
pub struct FrameDriver {
    started: bool,
    last: Phase,
}

impl FrameDriver {
    /// The phase that is running, once a phase was entered.
    pub closed spec fn running(self) -> Option<Phase> {
        if self.started {
            Some(self.last)
        } else {
            None
        }
    }

    /// The phase whose turn it is: the first phase at the start, then the
    /// successor of the phase that is running.
    pub open spec fn expected(self) -> Phase {
        match self.running() {
            Some(phase) => phase.successor(),
            None => Phase::RenderResource,
        }
    }

    /// A driver before the first frame: no phase is running.
    pub fn new() -> (d: Self)
        ensures
            d.running() is None,
            d.expected() == Phase::RenderResource,
    {
        FrameDriver { started: false, last: Phase::PostRender }
    }

    /// The phase whose turn it is.
    pub fn current(&self) -> (r: Phase)
        ensures
            r == self.expected(),
    {
        if self.started {
            self.last.next()
        } else {
            Phase::RenderResource
        }
    }

    /// Whether the phase `phase` is running.
    pub fn is_running(&self, phase: Phase) -> (r: bool)
        ensures
            r == (self.running() == Some(phase)),
    {
        self.started && self.last == phase
    }

    /// Whether the next phase begins a new frame.
    pub fn at_frame_start(&self) -> (r: bool)
        ensures
            r == (self.expected() == Phase::RenderResource),
    {
        self.current() == Phase::RenderResource
    }

    /// Enters `phase`. It must be the phase whose turn it is: then it is the
    /// phase that is running, and its successor is expected next. Any other
    /// phase is refused, and the driver stays where it was.
    pub fn enter(&mut self, phase: Phase) -> (r: Result<(), StageError>)
        ensures
            r == if phase == old(self).expected() {
                Ok::<(), StageError>(())
            } else {
                Err(StageError::OutOfOrder { expected: old(self).expected(), got: phase })
            },
            final(self).running() == if phase == old(self).expected() {
                Some(phase)
            } else {
                old(self).running()
            },
            r is Err ==> *final(self) == *old(self),
    {
        let expected = self.current();
        if phase == expected {
            self.started = true;
            self.last = phase;
            Ok(())
        } else {
            Err(StageError::OutOfOrder { expected, got: phase })
        }
    }

    /// Enters the phase whose turn it is, and says which it was.
    pub fn advance(&mut self) -> (r: Phase)
        ensures
            r == old(self).expected(),
            final(self).running() == Some(r),
    {
        let phase = self.current();
        self.started = true;
        self.last = phase;
        phase
    }

    /// Whether work of the phase `needed` may be done now: only while that
    /// phase is running.
    pub open spec fn allows(self, needed: Phase) -> Result<(), StageError> {
        if self.running() == Some(needed) {
            Ok(())
        } else {
            Err(StageError::NotRunning { needed })
        }
    }

    /// Whether work of the phase `needed` may be done now: only while that
    /// phase is running.
    pub fn allow(&self, needed: Phase) -> (r: Result<(), StageError>)
        ensures
            r == self.allows(needed),
    {
        if self.is_running(needed) {
            Ok(())
        } else {
            Err(StageError::NotRunning { needed })
        }
    }
}

/// The phases that a driver accepts one after the other, from the phase whose
/// turn it is.
pub open spec fn turns(from: Phase, count: nat) -> Seq<Phase>
    decreases count,
{
    if count == 0 {
        Seq::empty()
    } else {
        seq![from] + turns(from.successor(), (count - 1) as nat)
    }
}

/// The driver accepts the phases `phases`, one after the other, from the
/// phase `from`.
pub open spec fn accepts(from: Phase, phases: Seq<Phase>) -> bool
    decreases phases.len(),
{
    phases.len() == 0 || (phases[0] == from && accepts(from.successor(), phases.drop_first()))
}

/// A driver accepts one order of phases only: from the start of a frame, the
/// five phases in their order, frame after frame.
pub proof fn lemma_one_order(from: Phase, phases: Seq<Phase>)
    requires
        accepts(from, phases),
    ensures
        phases == turns(from, phases.len()),
        forall|k: int| 0 <= k < phases.len() ==> (#[trigger] phases[k]).rank() == (from.rank() + k) % 5,
    decreases phases.len(),
{
    if phases.len() > 0 {
        let rest = phases.drop_first();
        lemma_one_order(from.successor(), rest);
        assert(phases =~= seq![from] + rest);
        assert forall|k: int| 0 <= k < phases.len() implies (#[trigger] phases[k]).rank() == (from.rank()
            + k) % 5 by {
            if k > 0 {
                assert(phases[k] == rest[k - 1]);
                assert(rest[k - 1].rank() == (from.successor().rank() + (k - 1)) % 5);
            }
        }
    } else {
        assert(phases =~= Seq::<Phase>::empty());
    }
}

} // verus!
