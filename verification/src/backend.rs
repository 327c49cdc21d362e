//! The backend that compiles pipelines, and the record of what it was asked.

use vstd::prelude::*;
use crate::cache::CompiledPipeline;
use crate::shader::preamble;
use crate::specialization::Specialization;

verus! {

/// What compiles pipelines. The store asks it once for each request that it
/// cannot serve.
pub trait Backend<K: Specialization> {
    /// Compiles the pipeline of `descriptor` as `specialization` asks, or says
    /// why it cannot. `lines` holds the lines that define the shader defines
    /// of the specialization: they go before the source of each shader of the
    /// pipeline.
    fn compile(&mut self, descriptor: u64, specialization: &K, lines: &str) -> Result<CompiledPipeline, String>
        requires
            lines@ == preamble(specialization.defines()),
    ;
}

/// One call of the backend, as contracts see it: what it was asked, and what
/// it answered.
pub struct Call<S> {
    pub descriptor: u64,
    pub specialization: S,
    pub lines: Seq<char>,
    pub answer: Result<CompiledPipeline, Seq<char>>,
}

/// An answer of the backend, as contracts see it.
pub open spec fn answer_of(result: Result<CompiledPipeline, String>) -> Result<CompiledPipeline, Seq<char>> {
    match result {
        Ok(pipeline) => Ok(pipeline),
        Err(reason) => Err(reason@),
    }
}

/// A backend together with the record of its calls. The backend is reached
/// through `compile` only, so the record holds every call that was made since
/// the backend was put in.
pub struct LoggedBackend<K: Specialization, B: Backend<K>> {
    backend: B,
    calls: Ghost<Seq<Call<K::V>>>,
}

impl<K: Specialization, B: Backend<K>> LoggedBackend<K, B> {
    /// The calls that were made, in their order.
    pub closed spec fn asked(&self) -> Seq<Call<K::V>> {
        self.calls@
    }

    /// The backend as it stands.
    pub closed spec fn inner(&self) -> B {
        self.backend
    }

    /// Puts a backend in, with an empty record.
    pub fn new(backend: B) -> (r: Self)
        ensures
            r.inner() == backend,
            r.asked().len() == 0,
    {
        LoggedBackend { backend, calls: Ghost(Seq::empty()) }
    }

    /// The backend, to look at.
    pub fn backend(&self) -> (r: &B)
        ensures
            *r == self.inner(),
    {
        &self.backend
    }

    /// Takes the backend out.
    pub fn into_inner(self) -> (r: B)
        ensures
            r == self.inner(),
    {
        self.backend
    }

    /// Asks the backend to compile, and puts the call on record.
    pub fn compile(&mut self, descriptor: u64, specialization: &K, lines: &str) -> (r: Result<
        CompiledPipeline,
        String,
    >)
        requires
            lines@ == preamble(specialization.defines()),
        ensures
            final(self).asked() == old(self).asked().push(
                Call {
                    descriptor,
                    specialization: specialization@,
                    lines: lines@,
                    answer: answer_of(r),
                },
            ),
    {
        let r = self.backend.compile(descriptor, specialization, lines);
        self.calls = Ghost(
            self.calls@.push(
                Call { descriptor, specialization: specialization@, lines: lines@, answer: answer_of(r) },
            ),
        );
        r
    }
}

} // verus!
