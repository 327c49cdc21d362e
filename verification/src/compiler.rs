//! The two pipeline compilers: one for render pipelines, one for compute
//! pipelines. Each owns a store of its own, and their handles are of
//! different types, so that neither can be taken for the other.

use vstd::prelude::*;
use crate::backend::{Backend, Call, LoggedBackend};
use crate::cache::{
    cached, grown, keeps, served, told, without_descriptor, Asked, CompileError, CompiledPipeline, EntryView,
    PipelineCache,
};
use crate::shader::preamble;
use crate::specialization::{
    ComputePipelineSpecialization, ComputeSpecializationView, PipelineSpecialization, Specialization,
    SpecializationView,
};

verus! {

/// Stands for a compiled render pipeline in the store of a `PipelineCompiler`.
#[derive(Clone, Copy, Debug, PartialEq, Eq, Structural)]
pub struct CompiledPipelineHandle {
    pub index: usize,
}

/// Stands for a compiled compute pipeline in the store of a
/// `ComputePipelineCompiler`.
#[derive(Clone, Copy, Debug, PartialEq, Eq, Structural)]
pub struct CompiledComputePipelineHandle {
    pub index: usize,
}

/// Compiles render pipelines when they are first asked for, and keeps them.
pub struct PipelineCompiler {
    cache: PipelineCache<PipelineSpecialization>,
}

impl View for PipelineCompiler {
    type V = Seq<EntryView<SpecializationView>>;

    closed spec fn view(&self) -> Seq<EntryView<SpecializationView>> {
        self.cache@
    }
}

impl PipelineCompiler {
    /// No two slots of the store serve the same request.
    pub closed spec fn wf(&self) -> bool {
        self.cache.wf()
    }

    /// A compiler that has compiled nothing yet.
    pub fn new() -> (c: Self)
        ensures
            c.wf(),
            c@.len() == 0,
    {
        PipelineCompiler { cache: PipelineCache::new() }
    }

    /// The handle of the pipeline of `descriptor` specialized as
    /// `specialization` asks.
    ///
    /// The request is served as `served` says. A pipeline that was compiled
    /// before is found again under the same handle, with the compiler
    /// unchanged and the backend left alone. Any other goes to the backend,
    /// which is asked once, for this request: on success what it made fills
    /// a new slot; a refusal changes nothing and comes back with the request
    /// that failed and the reason.
    pub fn get_or_compile<B: Backend<PipelineSpecialization>>(
        &mut self,
        backend: &mut LoggedBackend<PipelineSpecialization, B>,
        descriptor: u64,
        specialization: &PipelineSpecialization,
    ) -> (r: Result<CompiledPipelineHandle, CompileError<PipelineSpecialization>>)
        requires
            old(self).wf(),
        ensures
            final(self).wf(),
            keeps(old(self)@, final(self)@),
            grown(old(self)@, final(self)@),
            r is Ok ==> cached(final(self)@, descriptor, specialization@) == Some(r->Ok_0.index as int),
            served(
                old(self)@,
                (Asked {
                    descriptor,
                    specialization: specialization@,
                    made: match r {
                        Ok(h) => final(self)@[h.index as int].pipeline,
                        Err(_) => None,
                    },
                }),
            ) == (
                final(self)@,
                match r {
                    Ok(h) => Some(h.index as int),
                    Err(_) => None,
                },
            ),
            r is Err ==> cached(final(self)@, descriptor, specialization@) is None,
            cached(old(self)@, descriptor, specialization@) is Some ==> *final(backend) == *old(backend),
            cached(old(self)@, descriptor, specialization@) is None ==> final(backend).asked() == old(backend).asked().push(
                Call {
                    descriptor,
                    specialization: specialization@,
                    lines: preamble(specialization.defines()),
                    answer: told(
                        match r {
                            Ok(h) => Ok(h.index),
                            Err(e) => Err(e),
                        },
                        final(self)@,
                    ),
                },
            ),
            r is Err ==> r->Err_0.descriptor == descriptor && r->Err_0.specialization@ == specialization@,
    {
        match self.cache.get_or_compile(backend, descriptor, specialization) {
            Ok(index) => Ok(CompiledPipelineHandle { index }),
            Err(e) => Err(e),
        }
    }

    /// The handle of a pipeline that was compiled before, if there is one for
    /// this request.
    pub fn lookup(&self, descriptor: u64, specialization: &PipelineSpecialization) -> (r: Option<
        CompiledPipelineHandle,
    >)
        ensures
            match r {
                Some(h) => cached(self@, descriptor, specialization@) == Some(h.index as int),
                None => cached(self@, descriptor, specialization@) is None,
            },
    {
        match self.cache.lookup(descriptor, specialization) {
            Some(index) => Some(CompiledPipelineHandle { index }),
            None => None,
        }
    }

    /// The pipeline behind a handle, unless the handle is unknown or its
    /// pipeline was dropped.
    pub fn get(&self, handle: CompiledPipelineHandle) -> (r: Option<CompiledPipeline>)
        ensures
            r == if handle.index < self@.len() {
                self@[handle.index as int].pipeline
            } else {
                None
            },
    {
        self.cache.get(handle.index)
    }

    /// Drops every pipeline compiled from `descriptor`, for when the
    /// description was removed or loaded anew.
    pub fn invalidate(&mut self, descriptor: u64)
        requires
            old(self).wf(),
        ensures
            final(self).wf(),
            final(self)@ == without_descriptor(old(self)@, descriptor),
    {
        self.cache.invalidate(descriptor)
    }
}

/// Compiles compute pipelines when they are first asked for, and keeps them.
pub struct ComputePipelineCompiler {
    cache: PipelineCache<ComputePipelineSpecialization>,
}

impl View for ComputePipelineCompiler {
    type V = Seq<EntryView<ComputeSpecializationView>>;

    closed spec fn view(&self) -> Seq<EntryView<ComputeSpecializationView>> {
        self.cache@
    }
}

impl ComputePipelineCompiler {
    /// No two slots of the store serve the same request.
    pub closed spec fn wf(&self) -> bool {
        self.cache.wf()
    }

    /// A compiler that has compiled nothing yet.
    pub fn new() -> (c: Self)
        ensures
            c.wf(),
            c@.len() == 0,
    {
        ComputePipelineCompiler { cache: PipelineCache::new() }
    }

    /// The handle of the compute pipeline of `descriptor` specialized as
    /// `specialization` asks.
    ///
    /// The request is served as `served` says. A pipeline that was compiled
    /// before is found again under the same handle, with the compiler
    /// unchanged and the backend left alone. Any other goes to the backend,
    /// which is asked once, for this request: on success what it made fills
    /// a new slot; a refusal changes nothing and comes back with the request
    /// that failed and the reason.
    pub fn get_or_compile<B: Backend<ComputePipelineSpecialization>>(
        &mut self,
        backend: &mut LoggedBackend<ComputePipelineSpecialization, B>,
        descriptor: u64,
        specialization: &ComputePipelineSpecialization,
    ) -> (r: Result<CompiledComputePipelineHandle, CompileError<ComputePipelineSpecialization>>)
        requires
            old(self).wf(),
        ensures
            final(self).wf(),
            keeps(old(self)@, final(self)@),
            grown(old(self)@, final(self)@),
            r is Ok ==> cached(final(self)@, descriptor, specialization@) == Some(r->Ok_0.index as int),
            served(
                old(self)@,
                (Asked {
                    descriptor,
                    specialization: specialization@,
                    made: match r {
                        Ok(h) => final(self)@[h.index as int].pipeline,
                        Err(_) => None,
                    },
                }),
            ) == (
                final(self)@,
                match r {
                    Ok(h) => Some(h.index as int),
                    Err(_) => None,
                },
            ),
            r is Err ==> cached(final(self)@, descriptor, specialization@) is None,
            cached(old(self)@, descriptor, specialization@) is Some ==> *final(backend) == *old(backend),
            cached(old(self)@, descriptor, specialization@) is None ==> final(backend).asked() == old(backend).asked().push(
                Call {
                    descriptor,
                    specialization: specialization@,
                    lines: preamble(specialization.defines()),
                    answer: told(
                        match r {
                            Ok(h) => Ok(h.index),
                            Err(e) => Err(e),
                        },
                        final(self)@,
                    ),
                },
            ),
            r is Err ==> r->Err_0.descriptor == descriptor && r->Err_0.specialization@ == specialization@,
    {
        match self.cache.get_or_compile(backend, descriptor, specialization) {
            Ok(index) => Ok(CompiledComputePipelineHandle { index }),
            Err(e) => Err(e),
        }
    }

    /// The handle of a pipeline that was compiled before, if there is one for
    /// this request.
    pub fn lookup(&self, descriptor: u64, specialization: &ComputePipelineSpecialization) -> (r: Option<
        CompiledComputePipelineHandle,
    >)
        ensures
            match r {
                Some(h) => cached(self@, descriptor, specialization@) == Some(h.index as int),
                None => cached(self@, descriptor, specialization@) is None,
            },
    {
        match self.cache.lookup(descriptor, specialization) {
            Some(index) => Some(CompiledComputePipelineHandle { index }),
            None => None,
        }
    }

    /// The pipeline behind a handle, unless the handle is unknown or its
    /// pipeline was dropped.
    pub fn get(&self, handle: CompiledComputePipelineHandle) -> (r: Option<CompiledPipeline>)
        ensures
            r == if handle.index < self@.len() {
                self@[handle.index as int].pipeline
            } else {
                None
            },
    {
        self.cache.get(handle.index)
    }

    /// Drops every pipeline compiled from `descriptor`, for when the
    /// description was removed or loaded anew.
    pub fn invalidate(&mut self, descriptor: u64)
        requires
            old(self).wf(),
        ensures
            final(self).wf(),
            final(self)@ == without_descriptor(old(self)@, descriptor),
    {
        self.cache.invalidate(descriptor)
    }
}

} // verus!
