//! The draw phase and the cleanup after a frame: what an entity is drawn
//! with, how its draw list is filled, and how the transient state of a frame
//! is cleared.

use vstd::prelude::*;
use crate::bindings::{RenderResourceBinding, RenderResourceBindings};
use crate::backend::{Backend, Call, LoggedBackend};
use crate::cache::{
    cached, grown, keeps, lemma_cached, lemma_stored_call_stays, stored_call, CompileError, CompiledPipeline,
    EntryView,
};
use crate::compiler::{CompiledPipelineHandle, PipelineCompiler};
use crate::names::{copy_strings, texts};
use crate::specialization::{PipelineSpecialization, SpecializationView};

verus! {

/// One step of drawing an entity.
#[derive(Clone, Copy, Debug, PartialEq, Eq, Structural)]
pub enum RenderCommand {
    SetPipeline { pipeline: CompiledPipelineHandle },
    Draw { vertices: u32, instances: u32 },
}

/// The draw list of an entity for the frame.
pub struct Draw {
    pub is_visible: bool,
    pub render_commands: Vec<RenderCommand>,
}

/// One pipeline that an entity is drawn with.
pub struct RenderPipeline {
    pub descriptor: u64,
    pub specialization: PipelineSpecialization,
}

/// The pipelines that an entity is drawn with, and the bindings of the entity.
pub struct RenderPipelines {
    pub pipelines: Vec<RenderPipeline>,
    pub bindings: RenderResourceBindings,
}

/// The names of the dynamic bindings among `bindings`.
pub open spec fn dynamic_set(bindings: Map<Seq<char>, RenderResourceBinding>) -> Set<Seq<char>> {
    Set::new(|name: Seq<char>| bindings.contains_key(name) && bindings[name].is_dynamic())
}

/// The specialization that is asked of the compiler for a pipeline of an
/// entity: that of the pipeline, with the dynamic bindings of the entity.
pub open spec fn request(
    pipeline: RenderPipeline,
    bindings: Map<Seq<char>, RenderResourceBinding>,
) -> SpecializationView {
    SpecializationView {
        shader_defs: pipeline.specialization@.shader_defs,
        dynamic_bindings: dynamic_set(bindings),
        primitive_topology: pipeline.specialization@.primitive_topology,
        vertex_layout: pipeline.specialization@.vertex_layout,
        sample_count: pipeline.specialization@.sample_count,
    }
}

/// The call asks for one of the pipelines of the entity, as the entity
/// needs it.
pub open spec fn asked_by(call: Call<SpecializationView>, pipelines: RenderPipelines) -> bool {
    exists|i: int|
        {
            &&& 0 <= i < pipelines.pipelines.len()
            &&& call.descriptor == (#[trigger] pipelines.pipelines[i]).descriptor
            &&& call.specialization == request(pipelines.pipelines[i], pipelines.bindings@)
        }
}

impl Draw {
    /// An empty draw list of a visible entity.
    pub fn new() -> (d: Self)
        ensures
            d.is_visible,
            d.render_commands@.len() == 0,
    {
        Draw { is_visible: true, render_commands: Vec::new() }
    }

    /// Takes every command out of the draw list.
    pub fn clear_render_commands(&mut self)
        ensures
            final(self).is_visible == old(self).is_visible,
            final(self).render_commands@.len() == 0,
    {
        self.render_commands.clear();
    }
}

/// What drawing an entity comes to: how the store of the compiler, the record
/// of the backend and the draw list of the entity stand after it, and what
/// comes back.
///
/// The store keeps what it served and only grows. The backend is asked at
/// most once for each pipeline of the entity, only for a request that the
/// store did not serve, and for nothing else; the pipeline that it answers
/// with is the one that the store serves the request with from then on. An
/// entity that is not visible changes nothing. For a visible entity that is drawn, every call was
/// answered with a pipeline, and the draw list has grown by one command for
/// each pipeline, in their order, that sets the handle under which the store
/// serves it. For one that is not drawn, the last call is the refusal that
/// comes back, the store does not serve its request, and the draw list is as
/// it was.
pub open spec fn drawn(
    store: Seq<EntryView<SpecializationView>>,
    store_after: Seq<EntryView<SpecializationView>>,
    asked: Seq<Call<SpecializationView>>,
    asked_after: Seq<Call<SpecializationView>>,
    draw: Draw,
    draw_after: Draw,
    pipelines: RenderPipelines,
    r: Result<(), CompileError<PipelineSpecialization>>,
) -> bool {
    &&& keeps(store, store_after)
    &&& grown(store, store_after)
    &&& asked.len() <= asked_after.len() <= asked.len() + pipelines.pipelines.len()
    &&& asked_after.subrange(0, asked.len() as int) == asked
    &&& forall|k: int|
        asked.len() <= k < asked_after.len() ==> asked_by(#[trigger] asked_after[k], pipelines) && stored_call(
            store,
            store_after,
            asked_after[k],
        )
    &&& draw_after.is_visible == draw.is_visible
    &&& !draw.is_visible ==> {
        &&& r is Ok
        &&& draw_after == draw
        &&& store_after == store
        &&& asked_after == asked
    }
    &&& draw.is_visible ==> match r {
        Ok(()) => {
            let before = draw.render_commands@;
            let after = draw_after.render_commands@;
            &&& forall|k: int| asked.len() <= k < asked_after.len() ==> (#[trigger] asked_after[k]).answer is Ok
            &&& after.len() == before.len() + pipelines.pipelines.len()
            &&& after.subrange(0, before.len() as int) == before
            &&& forall|i: int|
                0 <= i < pipelines.pipelines.len() ==> {
                    &&& (#[trigger] after[before.len() + i]) is SetPipeline
                    &&& cached(
                        store_after,
                        pipelines.pipelines[i].descriptor,
                        request(pipelines.pipelines[i], pipelines.bindings@),
                    ) == Some(after[before.len() + i]->pipeline.index as int)
                }
        },
        Err(e) => {
            &&& draw_after == draw
            &&& cached(store_after, e.descriptor, e.specialization@) is None
            &&& asked.len() < asked_after.len()
            &&& asked_after.last().descriptor == e.descriptor
            &&& asked_after.last().specialization == e.specialization@
            &&& asked_after.last().answer == Err::<CompiledPipeline, Seq<char>>(e.reason@)
        },
    }
}

/// Fills the draw list of an entity: for each of its pipelines, in their
/// order, the command that sets the compiled pipeline.
///
/// An entity that is not visible is passed over. A pipeline that is not
/// compiled yet is compiled, as its specialization and the dynamic bindings of
/// the entity ask. Where the backend refuses one, the entity is not drawn
/// this frame: its draw list stays as it was, and the refusal comes back.
pub fn draw_render_pipelines<B: Backend<PipelineSpecialization>>(
    compiler: &mut PipelineCompiler,
    backend: &mut LoggedBackend<PipelineSpecialization, B>,
    draw: &mut Draw,
    pipelines: &RenderPipelines,
) -> (r: Result<(), CompileError<PipelineSpecialization>>)
    requires
        old(compiler).wf(),
        pipelines.bindings.wf(),
    ensures
        final(compiler).wf(),
        drawn(
            old(compiler)@,
            final(compiler)@,
            old(backend).asked(),
            final(backend).asked(),
            *old(draw),
            *final(draw),
            *pipelines,
            r,
        ),
        !old(draw).is_visible ==> *final(backend) == *old(backend),
{
    if !draw.is_visible {
        proof {
            assert(backend.asked().subrange(0, backend.asked().len() as int) =~= backend.asked());
        }
        return Ok(());
    }
    let dynamic = pipelines.bindings.dynamic_names();
    proof {
        assert(texts(dynamic@).to_set() =~= dynamic_set(pipelines.bindings@));
    }
    let ghost start = compiler@;
    let ghost first = backend.asked();
    let mut handles: Vec<CompiledPipelineHandle> = Vec::new();
    let mut i: usize = 0;
    while i < pipelines.pipelines.len()
        invariant
            i <= pipelines.pipelines.len(),
            compiler.wf(),
            start == old(compiler)@,
            keeps(start, compiler@),
            grown(start, compiler@),
            first == old(backend).asked(),
            first.len() <= backend.asked().len() <= first.len() + i,
            backend.asked().subrange(0, first.len() as int) == first,
            forall|k: int|
                first.len() <= k < backend.asked().len() ==> asked_by(#[trigger] backend.asked()[k], *pipelines)
                    && backend.asked()[k].answer is Ok && stored_call(start, compiler@, backend.asked()[k]),
            old(draw).is_visible,
            *draw == *old(draw),
            handles.len() == i,
            texts(dynamic@).to_set() == dynamic_set(pipelines.bindings@),
            forall|j: int|
                0 <= j < i ==> cached(
                    compiler@,
                    pipelines.pipelines[j].descriptor,
                    request(pipelines.pipelines[j], pipelines.bindings@),
                ) == Some((#[trigger] handles[j]).index as int),
        decreases pipelines.pipelines.len() - i,
    {
        let pipeline = &pipelines.pipelines[i];
        let wanted = PipelineSpecialization {
            shader_defs: copy_strings(&pipeline.specialization.shader_defs),
            dynamic_bindings: copy_strings(&dynamic),
            primitive_topology: pipeline.specialization.primitive_topology,
            vertex_layout: pipeline.specialization.vertex_layout.duplicate(),
            sample_count: pipeline.specialization.sample_count,
        };
        assert(wanted@ == request(*pipeline, pipelines.bindings@));
        let ghost earlier = compiler@;
        let ghost held = handles@;
        let ghost calls = backend.asked();
        let answer = compiler.get_or_compile(backend, pipeline.descriptor, &wanted);
        proof {
            let now = backend.asked();
            assert(now.subrange(0, first.len() as int) =~= calls.subrange(0, first.len() as int));
            assert forall|k: int| first.len() <= k < now.len() implies asked_by(#[trigger] now[k], *pipelines) by {
                if k < calls.len() {
                    assert(now[k] == calls[k]);
                } else {
                    assert(now[k].descriptor == pipelines.pipelines[i as int].descriptor);
                }
            }
            assert forall|k: int| first.len() <= k < now.len() && k < calls.len() implies (#[trigger] now[k]).answer is Ok by {
                assert(now[k] == calls[k]);
            }
            assert forall|k: int| first.len() <= k < now.len() implies stored_call(
                start,
                compiler@,
                #[trigger] now[k],
            ) by {
                if k < calls.len() {
                    assert(now[k] == calls[k]);
                    lemma_stored_call_stays(start, earlier, compiler@, calls[k]);
                } else {
                    lemma_cached(compiler@, now[k].descriptor, now[k].specialization);
                }
            }
        }
        match answer {
            Ok(handle) => {
                handles.push(handle);
            },
            Err(e) => {
                return Err(e);
            },
        }
        proof {
            assert forall|j: int| 0 <= j < i implies cached(
                compiler@,
                pipelines.pipelines[j].descriptor,
                request(pipelines.pipelines[j], pipelines.bindings@),
            ) == Some((#[trigger] handles[j]).index as int) by {
                assert(cached(
                    earlier,
                    pipelines.pipelines[j].descriptor,
                    request(pipelines.pipelines[j], pipelines.bindings@),
                ) == Some(held[j].index as int));
            }
        }
        i += 1;
    }
    let ghost before = draw.render_commands@;
    let ghost last_calls = backend.asked();
    let mut k: usize = 0;
    while k < handles.len()
        invariant
            k <= handles.len(),
            backend.asked() == last_calls,
            draw.is_visible == old(draw).is_visible,
            draw.render_commands@.len() == before.len() + k,
            draw.render_commands@.subrange(0, before.len() as int) == before,
            forall|j: int|
                0 <= j < k ==> (#[trigger] draw.render_commands[before.len() + j])
                    == (RenderCommand::SetPipeline { pipeline: handles[j] }),
        decreases handles.len() - k,
    {
        let ghost earlier = draw.render_commands@;
        draw.render_commands.push(RenderCommand::SetPipeline { pipeline: handles[k] });
        proof {
            assert(draw.render_commands@.subrange(0, before.len() as int) =~= earlier.subrange(
                0,
                before.len() as int,
            ));
            assert forall|j: int| 0 <= j < k + 1 implies (#[trigger] draw.render_commands[before.len()
                + j]) == (RenderCommand::SetPipeline { pipeline: handles[j] }) by {
                if j < k {
                    assert(earlier[before.len() + j] == (RenderCommand::SetPipeline { pipeline: handles[j] }));
                }
            }
        }
        k += 1;
    }
    Ok(())
}

/// Clears the draw list of an entity, after the frame.
pub fn clear_draw(draw: &mut Draw)
    ensures
        final(draw).is_visible == old(draw).is_visible,
        final(draw).render_commands@.len() == 0,
{
    draw.clear_render_commands();
}

/// The pipelines of an entity after their shader defines were cleared: every
/// pipeline without shader defines, and nothing else changed.
pub open spec fn cleared(was: RenderPipelines, is: RenderPipelines) -> bool {
    &&& is.bindings == was.bindings
    &&& is.pipelines.len() == was.pipelines.len()
    &&& forall|i: int|
        0 <= i < was.pipelines.len() ==> {
            let before = was.pipelines[i];
            let after = #[trigger] is.pipelines[i];
            &&& after.descriptor == before.descriptor
            &&& after.specialization.shader_defs@.len() == 0
            &&& after.specialization.dynamic_bindings == before.specialization.dynamic_bindings
            &&& after.specialization.primitive_topology == before.specialization.primitive_topology
            &&& after.specialization.vertex_layout == before.specialization.vertex_layout
            &&& after.specialization.sample_count == before.specialization.sample_count
        }
}

/// Clears the shader defines of every pipeline of an entity, after the frame.
/// Nothing else of the pipelines changes.
pub fn clear_shader_defs(pipelines: &mut RenderPipelines)
    ensures
        cleared(*old(pipelines), *final(pipelines)),
{
    let ghost before = pipelines.pipelines@;
    let mut i: usize = 0;
    while i < pipelines.pipelines.len()
        invariant
            i <= pipelines.pipelines.len(),
            pipelines.bindings == old(pipelines).bindings,
            pipelines.pipelines.len() == before.len(),
            before == old(pipelines).pipelines@,
            forall|j: int| i <= j < before.len() ==> pipelines.pipelines[j] == before[j],
            forall|j: int|
                0 <= j < i ==> {
                    let was = before[j];
                    let is = #[trigger] pipelines.pipelines[j];
                    &&& is.descriptor == was.descriptor
                    &&& is.specialization.shader_defs@.len() == 0
                    &&& is.specialization.dynamic_bindings == was.specialization.dynamic_bindings
                    &&& is.specialization.primitive_topology == was.specialization.primitive_topology
                    &&& is.specialization.vertex_layout == was.specialization.vertex_layout
                    &&& is.specialization.sample_count == was.specialization.sample_count
                },
        decreases pipelines.pipelines.len() - i,
    {
        pipelines.pipelines[i].specialization.shader_defs.clear();
        i += 1;
    }
}

} // verus!
