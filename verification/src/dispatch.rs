//! The compute phase: what an entity computes with, and how its dispatch list
//! is filled.

use vstd::prelude::*;
use crate::bindings::{RenderResourceBinding, RenderResourceBindings};
use crate::backend::{Backend, Call, LoggedBackend};
use crate::cache::{
    cached, grown, keeps, lemma_cached, lemma_stored_call_stays, stored_call, CompileError, CompiledPipeline,
    EntryView,
};
use crate::compiler::{CompiledComputePipelineHandle, ComputePipelineCompiler};
use crate::draw::dynamic_set;
use crate::names::{copy_strings, texts};
use crate::specialization::{ComputePipelineSpecialization, ComputeSpecializationView};

verus! {

/// One step of the compute work of an entity.
#[derive(Clone, Copy, Debug, PartialEq, Eq, Structural)]
pub enum DispatchCommand {
    SetPipeline { pipeline: CompiledComputePipelineHandle },
    Dispatch { x: u32, y: u32, z: u32 },
}

/// The dispatch list of an entity for the frame.
pub struct Dispatch {
    pub dispatch_commands: Vec<DispatchCommand>,
}

/// One compute pipeline of an entity.
pub struct ComputePipeline {
    pub descriptor: u64,
    pub specialization: ComputePipelineSpecialization,
}

/// The compute pipelines of an entity, and the bindings of the entity.
pub struct ComputePipelines {
    pub pipelines: Vec<ComputePipeline>,
    pub bindings: RenderResourceBindings,
}

/// The specialization that is asked of the compiler for a compute pipeline of
/// an entity: that of the pipeline, with the dynamic bindings of the entity.
pub open spec fn compute_request(
    pipeline: ComputePipeline,
    bindings: Map<Seq<char>, RenderResourceBinding>,
) -> ComputeSpecializationView {
    ComputeSpecializationView {
        shader_defs: pipeline.specialization@.shader_defs,
        dynamic_bindings: dynamic_set(bindings),
    }
}

/// The call asks for one of the pipelines of the entity, as the entity
/// needs it.
pub open spec fn asked_by(call: Call<ComputeSpecializationView>, pipelines: ComputePipelines) -> bool {
    exists|i: int|
        {
            &&& 0 <= i < pipelines.pipelines.len()
            &&& call.descriptor == (#[trigger] pipelines.pipelines[i]).descriptor
            &&& call.specialization == compute_request(pipelines.pipelines[i], pipelines.bindings@)
        }
}

impl Dispatch {
    /// An empty dispatch list.
    pub fn new() -> (d: Self)
        ensures
            d.dispatch_commands@.len() == 0,
    {
        Dispatch { dispatch_commands: Vec::new() }
    }

    /// Takes every command out of the dispatch list.
    pub fn clear_dispatch_commands(&mut self)
        ensures
            final(self).dispatch_commands@.len() == 0,
    {
        self.dispatch_commands.clear();
    }
}

/// What the compute work of an entity comes to: how the store of the
/// compiler, the record of the backend and the dispatch list of the entity
/// stand after it, and what comes back.
///
/// The store keeps what it served and only grows. The backend is asked at
/// most once for each compute pipeline of the entity, only for a request that
/// the store did not serve, and for nothing else; the pipeline that it answers
/// with is the one that the store serves the request with from then on. Where the work is
/// set up, every call was answered with a pipeline, and the dispatch list has
/// grown by one command for each pipeline, in their order, that sets the
/// handle under which the store serves it. Where it is not, the last call is
/// the refusal that comes back, the store does not serve its request, and the
/// dispatch list is as it was.
pub open spec fn dispatched(
    store: Seq<EntryView<ComputeSpecializationView>>,
    store_after: Seq<EntryView<ComputeSpecializationView>>,
    asked: Seq<Call<ComputeSpecializationView>>,
    asked_after: Seq<Call<ComputeSpecializationView>>,
    dispatch: Dispatch,
    dispatch_after: Dispatch,
    pipelines: ComputePipelines,
    r: Result<(), CompileError<ComputePipelineSpecialization>>,
) -> bool {
    &&& keeps(store, store_after)
    &&& grown(store, store_after)
    &&& asked.len() <= asked_after.len() <= asked.len() + pipelines.pipelines.len()
    &&& asked_after.subrange(0, asked.len() as int) == asked
    &&& forall|k: int|
        asked.len() <= k < asked_after.len() ==> asked_by(#[trigger] asked_after[k], pipelines) && stored_call(
            store,
            store_after,
            asked_after[k],
        )
    &&& match r {
        Ok(()) => {
            let before = dispatch.dispatch_commands@;
            let after = dispatch_after.dispatch_commands@;
            &&& forall|k: int| asked.len() <= k < asked_after.len() ==> (#[trigger] asked_after[k]).answer is Ok
            &&& after.len() == before.len() + pipelines.pipelines.len()
            &&& after.subrange(0, before.len() as int) == before
            &&& forall|i: int|
                0 <= i < pipelines.pipelines.len() ==> {
                    &&& (#[trigger] after[before.len() + i]) is SetPipeline
                    &&& cached(
                        store_after,
                        pipelines.pipelines[i].descriptor,
                        compute_request(pipelines.pipelines[i], pipelines.bindings@),
                    ) == Some(after[before.len() + i]->pipeline.index as int)
                }
        },
        Err(e) => {
            &&& dispatch_after == dispatch
            &&& cached(store_after, e.descriptor, e.specialization@) is None
            &&& asked.len() < asked_after.len()
            &&& asked_after.last().descriptor == e.descriptor
            &&& asked_after.last().specialization == e.specialization@
            &&& asked_after.last().answer == Err::<CompiledPipeline, Seq<char>>(e.reason@)
        },
    }
}

/// Fills the dispatch list of an entity: for each of its compute pipelines,
/// in their order, the command that sets the compiled pipeline.
///
/// A pipeline that is not compiled yet is compiled, as its specialization and
/// the dynamic bindings of the entity ask. Where the backend refuses one, the
/// entity computes nothing this frame: its dispatch list stays as it was, and
/// the refusal comes back.
pub fn dispatch_compute_pipelines<B: Backend<ComputePipelineSpecialization>>(
    compiler: &mut ComputePipelineCompiler,
    backend: &mut LoggedBackend<ComputePipelineSpecialization, B>,
    dispatch: &mut Dispatch,
    pipelines: &ComputePipelines,
) -> (r: Result<(), CompileError<ComputePipelineSpecialization>>)
    requires
        old(compiler).wf(),
        pipelines.bindings.wf(),
    ensures
        final(compiler).wf(),
        dispatched(
            old(compiler)@,
            final(compiler)@,
            old(backend).asked(),
            final(backend).asked(),
            *old(dispatch),
            *final(dispatch),
            *pipelines,
            r,
        ),
{
    let dynamic = pipelines.bindings.dynamic_names();
    proof {
        assert(texts(dynamic@).to_set() =~= dynamic_set(pipelines.bindings@));
    }
    let ghost start = compiler@;
    let ghost first = backend.asked();
    let mut handles: Vec<CompiledComputePipelineHandle> = Vec::new();
    let mut i: usize = 0;
    while i < pipelines.pipelines.len()
        invariant
            i <= pipelines.pipelines.len(),
            compiler.wf(),
            start == old(compiler)@,
            keeps(start, compiler@),
            grown(start, compiler@),
            first == old(backend).asked(),
            first.len() <= backend.asked().len() <= first.len() + i,
            backend.asked().subrange(0, first.len() as int) == first,
            forall|k: int|
                first.len() <= k < backend.asked().len() ==> asked_by(#[trigger] backend.asked()[k], *pipelines)
                    && backend.asked()[k].answer is Ok && stored_call(start, compiler@, backend.asked()[k]),
            *dispatch == *old(dispatch),
            handles.len() == i,
            texts(dynamic@).to_set() == dynamic_set(pipelines.bindings@),
            forall|j: int|
                0 <= j < i ==> cached(
                    compiler@,
                    pipelines.pipelines[j].descriptor,
                    compute_request(pipelines.pipelines[j], pipelines.bindings@),
                ) == Some((#[trigger] handles[j]).index as int),
        decreases pipelines.pipelines.len() - i,
    {
        let pipeline = &pipelines.pipelines[i];
        let wanted = ComputePipelineSpecialization {
            shader_defs: copy_strings(&pipeline.specialization.shader_defs),
            dynamic_bindings: copy_strings(&dynamic),
        };
        assert(wanted@ == compute_request(*pipeline, pipelines.bindings@));
        let ghost earlier = compiler@;
        let ghost held = handles@;
        let ghost calls = backend.asked();
        let answer = compiler.get_or_compile(backend, pipeline.descriptor, &wanted);
        proof {
            let now = backend.asked();
            assert(now.subrange(0, first.len() as int) =~= calls.subrange(0, first.len() as int));
            assert forall|k: int| first.len() <= k < now.len() implies asked_by(#[trigger] now[k], *pipelines) by {
                if k < calls.len() {
                    assert(now[k] == calls[k]);
                } else {
                    assert(now[k].descriptor == pipelines.pipelines[i as int].descriptor);
                }
            }
            assert forall|k: int| first.len() <= k < now.len() && k < calls.len() implies (#[trigger] now[k]).answer is Ok by {
                assert(now[k] == calls[k]);
            }
            assert forall|k: int| first.len() <= k < now.len() implies stored_call(
                start,
                compiler@,
                #[trigger] now[k],
            ) by {
                if k < calls.len() {
                    assert(now[k] == calls[k]);
                    lemma_stored_call_stays(start, earlier, compiler@, calls[k]);
                } else {
                    lemma_cached(compiler@, now[k].descriptor, now[k].specialization);
                }
            }
        }
        match answer {
            Ok(handle) => {
                handles.push(handle);
            },
            Err(e) => {
                return Err(e);
            },
        }
        proof {
            assert forall|j: int| 0 <= j < i implies cached(
                compiler@,
                pipelines.pipelines[j].descriptor,
                compute_request(pipelines.pipelines[j], pipelines.bindings@),
            ) == Some((#[trigger] handles[j]).index as int) by {
                assert(cached(
                    earlier,
                    pipelines.pipelines[j].descriptor,
                    compute_request(pipelines.pipelines[j], pipelines.bindings@),
                ) == Some(held[j].index as int));
            }
        }
        i += 1;
    }
    let ghost before = dispatch.dispatch_commands@;
    let ghost last_calls = backend.asked();
    let mut k: usize = 0;
    while k < handles.len()
        invariant
            k <= handles.len(),
            backend.asked() == last_calls,
            dispatch.dispatch_commands@.len() == before.len() + k,
            dispatch.dispatch_commands@.subrange(0, before.len() as int) == before,
            forall|j: int|
                0 <= j < k ==> (#[trigger] dispatch.dispatch_commands[before.len() + j])
                    == (DispatchCommand::SetPipeline { pipeline: handles[j] }),
        decreases handles.len() - k,
    {
        let ghost earlier = dispatch.dispatch_commands@;
        dispatch.dispatch_commands.push(DispatchCommand::SetPipeline { pipeline: handles[k] });
        proof {
            assert(dispatch.dispatch_commands@.subrange(0, before.len() as int) =~= earlier.subrange(
                0,
                before.len() as int,
            ));
            assert forall|j: int| 0 <= j < k + 1 implies (#[trigger] dispatch.dispatch_commands[before.len()
                + j]) == (DispatchCommand::SetPipeline { pipeline: handles[j] }) by {
                if j < k {
                    assert(earlier[before.len() + j] == (DispatchCommand::SetPipeline {
                        pipeline: handles[j],
                    }));
                }
            }
        }
        k += 1;
    }
    Ok(())
}

} // verus!
