//! The work of the phases of a frame. Each piece of work is done only while
//! its phase is running, so that no phase reads what an earlier phase of the
//! frame has not finished.

use vstd::prelude::*;
use crate::backend::{Backend, LoggedBackend};
use crate::bindings::RenderResourceBinding;
use crate::cache::CompileError;
use crate::dispatch::{dispatch_compute_pipelines, dispatched, ComputePipelines, Dispatch};
use crate::draw::{clear_draw, clear_shader_defs, cleared, draw_render_pipelines, drawn, Draw, RenderPipelines};
use crate::executor::{execute, ran_frame, FrameReport};
use crate::layout::packed;
use crate::plugin::RenderResources;
use crate::runner::{LoggedRunner, NodeRunner};
use crate::specialization::{
    ComputePipelineSpecialization, PipelineSpecialization, VertexFormat, VertexLayout,
};
use crate::stage::{Phase, StageError};

verus! {

/// Why work of a phase was not done.
pub enum PhaseError<K> {
    /// The phase of the work is not running.
    Stage(StageError),
    /// The backend refused a pipeline.
    Refused(CompileError<K>),
}

/// The refusal of the backend that a result of phase work holds, if it holds
/// one.
pub open spec fn refusal<K>(r: Result<(), PhaseError<K>>) -> Result<(), CompileError<K>> {
    match r {
        Err(PhaseError::Refused(e)) => Err(e),
        _ => Ok(()),
    }
}

impl RenderResources {
    /// The graph, the bindings of assets, the cameras, the multisampling and
    /// the driver are the same in both.
    pub open spec fn same_setting(&self, other: &RenderResources) -> bool {
        &&& self.render_graph == other.render_graph
        &&& self.asset_render_resource_bindings == other.asset_render_resource_bindings
        &&& self.active_cameras == other.active_cameras
        &&& self.msaa == other.msaa
        &&& self.driver == other.driver
    }

    /// Resource provisioning: binds `binding` under `name` for the whole
    /// graph. Refused, with nothing changed, unless that phase is running.
    pub fn provide_binding(&mut self, name: &str, binding: RenderResourceBinding) -> (r: Result<
        (),
        StageError,
    >)
        requires
            old(self).wf(),
        ensures
            final(self).wf(),
            r == old(self).driver.allows(Phase::RenderResource),
            r is Err ==> *final(self) == *old(self),
            r is Ok ==> {
                &&& final(self).render_resource_bindings@ == old(self).render_resource_bindings@.insert(
                    name@,
                    binding,
                )
                &&& final(self).same_setting(old(self))
                &&& final(self).vertex_buffer_descriptors == old(self).vertex_buffer_descriptors
                &&& final(self).pipeline_compiler == old(self).pipeline_compiler
                &&& final(self).compute_pipeline_compiler == old(self).compute_pipeline_compiler
            },
    {
        match self.driver.allow(Phase::RenderResource) {
            Err(e) => Err(e),
            Ok(()) => {
                self.render_resource_bindings.set(name, binding);
                Ok(())
            },
        }
    }

    /// Resource provisioning: the layout of the vertex buffer `name`, whose
    /// attributes have the given formats. A layout that is kept under the
    /// name is returned as it is; else the attributes are packed, and the
    /// layout is kept. There is no layout for more attributes than there are
    /// shader inputs. Refused, with nothing changed, unless that phase is
    /// running.
    pub fn provide_layout(&mut self, name: &str, formats: &Vec<VertexFormat>) -> (r: Result<
        Option<VertexLayout>,
        StageError,
    >)
        requires
            old(self).wf(),
        ensures
            final(self).wf(),
            r is Ok == old(self).driver.allows(Phase::RenderResource) is Ok,
            r is Err ==> r->Err_0 == old(self).driver.allows(Phase::RenderResource)->Err_0 && *final(self)
                == *old(self),
            r is Ok ==> {
                let was = old(self).vertex_buffer_descriptors@;
                let is = final(self).vertex_buffer_descriptors@;
                &&& final(self).same_setting(old(self))
                &&& final(self).render_resource_bindings == old(self).render_resource_bindings
                &&& final(self).pipeline_compiler == old(self).pipeline_compiler
                &&& final(self).compute_pipeline_compiler == old(self).compute_pipeline_compiler
                &&& if was.contains_key(name@) {
                    &&& r->Ok_0 is Some
                    &&& r->Ok_0->Some_0@ == was[name@]
                    &&& is == was
                } else if formats.len() <= u32::MAX {
                    &&& r->Ok_0 is Some
                    &&& r->Ok_0->Some_0@ == packed(formats@)
                    &&& is == was.insert(name@, packed(formats@))
                } else {
                    &&& r->Ok_0 is None
                    &&& is == was
                }
            },
    {
        match self.driver.allow(Phase::RenderResource) {
            Err(e) => Err(e),
            Ok(()) => Ok(self.vertex_buffer_descriptors.layout_for(name, formats)),
        }
    }

    /// Graph execution: runs the render graph for the frame, on the bindings
    /// that the whole graph shares. Refused, with no node run, unless that
    /// phase is running.
    pub fn run_graph<R: NodeRunner>(&self, runner: &mut LoggedRunner<R>) -> (r: Result<
        FrameReport,
        StageError,
    >)
        requires
            self.wf(),
        ensures
            r is Ok == self.driver.allows(Phase::RenderGraphSystems) is Ok,
            r is Err ==> r->Err_0 == self.driver.allows(Phase::RenderGraphSystems)->Err_0 && *final(runner)
                == *old(runner),
            r is Ok ==> ran_frame(
                self.render_graph@,
                self.render_resource_bindings@,
                old(runner).ran(),
                final(runner).ran(),
                r->Ok_0@,
            ),
    {
        match self.driver.allow(Phase::RenderGraphSystems) {
            Err(e) => Err(e),
            Ok(()) => Ok(execute(&self.render_graph, &self.render_resource_bindings, runner)),
        }
    }

    /// Compute: fills the dispatch list of an entity, as
    /// `dispatch_compute_pipelines` does. Refused, with nothing changed and the
    /// backend left alone, unless that phase is running.
    pub fn dispatch_entity<B: Backend<ComputePipelineSpecialization>>(
        &mut self,
        backend: &mut LoggedBackend<ComputePipelineSpecialization, B>,
        dispatch: &mut Dispatch,
        pipelines: &ComputePipelines,
    ) -> (r: Result<(), PhaseError<ComputePipelineSpecialization>>)
        requires
            old(self).wf(),
            pipelines.bindings.wf(),
        ensures
            final(self).wf(),
            match old(self).driver.allows(Phase::Compute) {
                Err(e) => {
                    &&& r matches Err(PhaseError::Stage(why))
                    &&& why == e
                    &&& *final(self) == *old(self)
                    &&& *final(backend) == *old(backend)
                    &&& *final(dispatch) == *old(dispatch)
                },
                Ok(()) => {
                    &&& !(r matches Err(PhaseError::Stage(_)))
                    &&& dispatched(
                        old(self).compute_pipeline_compiler@,
                        final(self).compute_pipeline_compiler@,
                        old(backend).asked(),
                        final(backend).asked(),
                        *old(dispatch),
                        *final(dispatch),
                        *pipelines,
                        refusal(r),
                    )
                    &&& final(self).same_setting(old(self))
                    &&& final(self).render_resource_bindings == old(self).render_resource_bindings
                    &&& final(self).vertex_buffer_descriptors == old(self).vertex_buffer_descriptors
                    &&& final(self).pipeline_compiler == old(self).pipeline_compiler
                },
            },
    {
        match self.driver.allow(Phase::Compute) {
            Err(e) => Err(PhaseError::Stage(e)),
            Ok(()) => match dispatch_compute_pipelines(
                &mut self.compute_pipeline_compiler,
                backend,
                dispatch,
                pipelines,
            ) {
                Ok(()) => Ok(()),
                Err(e) => Err(PhaseError::Refused(e)),
            },
        }
    }

    /// Draw: fills the draw list of an entity, as `draw_render_pipelines`
    /// does. Refused, with nothing changed and the backend left alone, unless
    /// that phase is running.
    pub fn draw_entity<B: Backend<PipelineSpecialization>>(
        &mut self,
        backend: &mut LoggedBackend<PipelineSpecialization, B>,
        draw: &mut Draw,
        pipelines: &RenderPipelines,
    ) -> (r: Result<(), PhaseError<PipelineSpecialization>>)
        requires
            old(self).wf(),
            pipelines.bindings.wf(),
        ensures
            final(self).wf(),
            match old(self).driver.allows(Phase::Draw) {
                Err(e) => {
                    &&& r matches Err(PhaseError::Stage(why))
                    &&& why == e
                    &&& *final(self) == *old(self)
                    &&& *final(backend) == *old(backend)
                    &&& *final(draw) == *old(draw)
                },
                Ok(()) => {
                    &&& !(r matches Err(PhaseError::Stage(_)))
                    &&& drawn(
                        old(self).pipeline_compiler@,
                        final(self).pipeline_compiler@,
                        old(backend).asked(),
                        final(backend).asked(),
                        *old(draw),
                        *final(draw),
                        *pipelines,
                        refusal(r),
                    )
                    &&& !old(draw).is_visible ==> *final(backend) == *old(backend)
                    &&& final(self).same_setting(old(self))
                    &&& final(self).render_resource_bindings == old(self).render_resource_bindings
                    &&& final(self).vertex_buffer_descriptors == old(self).vertex_buffer_descriptors
                    &&& final(self).compute_pipeline_compiler == old(self).compute_pipeline_compiler
                },
            },
    {
        match self.driver.allow(Phase::Draw) {
            Err(e) => Err(PhaseError::Stage(e)),
            Ok(()) => match draw_render_pipelines(&mut self.pipeline_compiler, backend, draw, pipelines) {
                Ok(()) => Ok(()),
                Err(e) => Err(PhaseError::Refused(e)),
            },
        }
    }

    /// Cleanup: clears what lasts one frame of an entity, its draw list and
    /// the shader defines of its pipelines. Refused, with nothing changed,
    /// unless that phase is running.
    pub fn clear_entity(&self, draw: &mut Draw, pipelines: &mut RenderPipelines) -> (r: Result<
        (),
        StageError,
    >)
        ensures
            r == self.driver.allows(Phase::PostRender),
            r is Err ==> *final(draw) == *old(draw) && *final(pipelines) == *old(pipelines),
            r is Ok ==> {
                &&& final(draw).is_visible == old(draw).is_visible
                &&& final(draw).render_commands@.len() == 0
                &&& cleared(*old(pipelines), *final(pipelines))
            },
    {
        match self.driver.allow(Phase::PostRender) {
            Err(e) => Err(e),
            Ok(()) => {
                clear_draw(draw);
                clear_shader_defs(pipelines);
                Ok(())
            },
        }
    }
}

} // verus!
