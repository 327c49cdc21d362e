//! The store of compiled pipelines: at most one live pipeline for each pair of
//! a pipeline description and a specialization.

use vstd::prelude::*;
use crate::backend::{Backend, Call, LoggedBackend};
use crate::shader::{preamble, shader_preamble};
use crate::specialization::Specialization;

verus! {

/// A compiled pipeline, as the backend names it.
#[derive(Clone, Copy, Debug, PartialEq, Eq, Structural)]
pub struct CompiledPipeline {
    pub id: u64,
}

/// One slot of the store: the description and specialization that were
/// compiled, and the pipeline, which is gone once the slot was invalidated.
pub struct Entry<K> {
    pub descriptor: u64,
    pub specialization: K,
    pub pipeline: Option<CompiledPipeline>,
}

/// A slot as contracts see it.
pub struct EntryView<S> {
    pub descriptor: u64,
    pub specialization: S,
    pub pipeline: Option<CompiledPipeline>,
}

impl<S> EntryView<S> {
    /// The slot holds a live pipeline for this description and specialization.
    pub open spec fn serves(self, descriptor: u64, specialization: S) -> bool {
        self.pipeline is Some && self.descriptor == descriptor && self.specialization == specialization
    }

    /// The slot after its description was invalidated.
    pub open spec fn dropped(self) -> EntryView<S> {
        EntryView { descriptor: self.descriptor, specialization: self.specialization, pipeline: None }
    }
}

/// The first slot that serves the description and specialization, if any does.
pub open spec fn cached<S>(entries: Seq<EntryView<S>>, descriptor: u64, specialization: S) -> Option<int>
    decreases entries.len(),
{
    if entries.len() == 0 {
        None
    } else {
        match cached(entries.drop_last(), descriptor, specialization) {
            Some(i) => Some(i),
            None => if entries.last().serves(descriptor, specialization) {
                Some(entries.len() - 1)
            } else {
                None
            },
        }
    }
}

/// No two slots serve the same description and specialization.
pub open spec fn one_each<S>(entries: Seq<EntryView<S>>) -> bool {
    forall|i: int, j: int|
        0 <= i < j < entries.len() && entries[i].pipeline is Some && entries[j].pipeline is Some ==> !(
        entries[i].descriptor == entries[j].descriptor && entries[i].specialization
            == entries[j].specialization)
}

/// The slots after every pipeline of `descriptor` was dropped.
pub open spec fn without_descriptor<S>(entries: Seq<EntryView<S>>, descriptor: u64) -> Seq<EntryView<S>> {
    Seq::new(
        entries.len(),
        |i: int| if entries[i].descriptor == descriptor { entries[i].dropped() } else { entries[i] },
    )
}

/// Every request that `before` serves, `after` serves under the same handle.
pub open spec fn keeps<S>(before: Seq<EntryView<S>>, after: Seq<EntryView<S>>) -> bool {
    forall|descriptor: u64, specialization: S|
        (#[trigger] cached(before, descriptor, specialization)) is Some ==> cached(
            after,
            descriptor,
            specialization,
        ) == cached(before, descriptor, specialization)
}

/// `after` holds every slot of `before`, unchanged and at its place.
pub open spec fn grown<S>(before: Seq<EntryView<S>>, after: Seq<EntryView<S>>) -> bool {
    &&& before.len() <= after.len()
    &&& forall|i: int| 0 <= i < before.len() ==> #[trigger] after[i] == before[i]
}

/// `cached` gives the first slot that serves, and nothing exactly when no
/// slot serves.
pub proof fn lemma_cached<S>(entries: Seq<EntryView<S>>, descriptor: u64, specialization: S)
    ensures
        match cached(entries, descriptor, specialization) {
            Some(i) => {
                &&& 0 <= i < entries.len()
                &&& entries[i].serves(descriptor, specialization)
                &&& forall|j: int| 0 <= j < i ==> !entries[j].serves(descriptor, specialization)
            },
            None => forall|j: int| 0 <= j < entries.len() ==> !entries[j].serves(descriptor, specialization),
        },
    decreases entries.len(),
{
    if entries.len() > 0 {
        let front = entries.drop_last();
        lemma_cached(front, descriptor, specialization);
        match cached(front, descriptor, specialization) {
            Some(i) => {
                assert(front[i] == entries[i]);
                assert forall|j: int| 0 <= j < i implies !entries[j].serves(descriptor, specialization) by {
                    assert(front[j] == entries[j]);
                }
            },
            None => {
                assert forall|j: int| 0 <= j < entries.len() - 1 implies !entries[j].serves(
                    descriptor,
                    specialization,
                ) by {
                    assert(front[j] == entries[j]);
                }
            },
        }
    }
}

/// A handle stands for one description and specialization only: two requests
/// that are served by the same slot are the same request.
pub proof fn lemma_distinct_requests_distinct_slots<S>(
    entries: Seq<EntryView<S>>,
    d1: u64,
    s1: S,
    d2: u64,
    s2: S,
)
    requires
        cached(entries, d1, s1) is Some,
        cached(entries, d1, s1) == cached(entries, d2, s2),
    ensures
        d1 == d2,
        s1 == s2,
{
    lemma_cached(entries, d1, s1);
    lemma_cached(entries, d2, s2);
}

/// A new slot at the end serves its own request, once nothing served it
/// before, and leaves every other request as it was.
pub proof fn lemma_cached_after_insert<S>(entries: Seq<EntryView<S>>, e: EntryView<S>, d: u64, s: S)
    requires
        e.pipeline is Some,
        cached(entries, e.descriptor, e.specialization) is None,
    ensures
        cached(entries.push(e), d, s) == if d == e.descriptor && s == e.specialization {
            Some(entries.len() as int)
        } else {
            cached(entries, d, s)
        },
{
    assert(entries.push(e).drop_last() =~= entries);
}

/// Invalidating a description leaves none of its requests served, and every
/// request of another description served as before.
pub proof fn lemma_cached_after_invalidate<S>(entries: Seq<EntryView<S>>, gone: u64, d: u64, s: S)
    ensures
        cached(without_descriptor(entries, gone), d, s) == if d == gone {
            None
        } else {
            cached(entries, d, s)
        },
    decreases entries.len(),
{
    let after = without_descriptor(entries, gone);
    if entries.len() > 0 {
        lemma_cached_after_invalidate(entries.drop_last(), gone, d, s);
        assert(after.drop_last() =~= without_descriptor(entries.drop_last(), gone));
    }
}

/// A compilation that the backend refused, with the request that failed.
pub struct CompileError<K> {
    pub descriptor: u64,
    pub specialization: K,
    pub reason: String,
}

/// The slot that a request fills when it is compiled to `pipeline`.
pub open spec fn filled<S>(descriptor: u64, specialization: S, pipeline: CompiledPipeline) -> EntryView<S> {
    EntryView { descriptor, specialization, pipeline: Some(pipeline) }
}

/// One request to the store, as contracts see it, with what the backend makes
/// of it if it is asked: a pipeline, or nothing where it refuses.
pub struct Asked<S> {
    pub descriptor: u64,
    pub specialization: S,
    pub made: Option<CompiledPipeline>,
}

/// What a request makes of the store, and the handle that it gets.
///
/// A request that the store serves gets its handle, and the store stays as it
/// is. Any other request goes to the backend: its pipeline fills a new slot at
/// the end, whose handle the request gets; where the backend refuses, the
/// store stays as it is and the request gets no handle.
pub open spec fn served<S>(entries: Seq<EntryView<S>>, request: Asked<S>) -> (Seq<EntryView<S>>, Option<int>) {
    match cached(entries, request.descriptor, request.specialization) {
        Some(i) => (entries, Some(i)),
        None => match request.made {
            Some(pipeline) => (
                entries.push(filled(request.descriptor, request.specialization, pipeline)),
                Some(entries.len() as int),
            ),
            None => (entries, None),
        },
    }
}

/// The store after the requests, one after the other.
pub open spec fn after_requests<S>(entries: Seq<EntryView<S>>, requests: Seq<Asked<S>>) -> Seq<EntryView<S>>
    decreases requests.len(),
{
    if requests.len() == 0 {
        entries
    } else {
        served(after_requests(entries, requests.drop_last()), requests.last()).0
    }
}

/// A request that has got a handle is served by the store from then on: asked
/// again, it gets the same handle, the store stays as it is, and the backend
/// is not asked, whatever it would make of the request.
pub proof fn lemma_compiled_once<S>(entries: Seq<EntryView<S>>, first: Asked<S>, again: Asked<S>)
    requires
        served(entries, first).1 is Some,
        again.descriptor == first.descriptor,
        again.specialization == first.specialization,
    ensures
        cached(served(entries, first).0, first.descriptor, first.specialization) == served(entries, first).1,
        served(served(entries, first).0, again) == served(entries, first),
{
    lemma_cached(entries, first.descriptor, first.specialization);
    if cached(entries, first.descriptor, first.specialization) is None {
        let e = filled(first.descriptor, first.specialization, first.made->Some_0);
        lemma_cached_after_insert(entries, e, first.descriptor, first.specialization);
    }
}

/// A request that the store serves keeps its handle through any number of
/// requests that follow, its own among them.
pub proof fn lemma_handle_is_stable<S>(
    entries: Seq<EntryView<S>>,
    requests: Seq<Asked<S>>,
    descriptor: u64,
    specialization: S,
)
    requires
        cached(entries, descriptor, specialization) is Some,
    ensures
        cached(after_requests(entries, requests), descriptor, specialization) == cached(
            entries,
            descriptor,
            specialization,
        ),
    decreases requests.len(),
{
    if requests.len() > 0 {
        let earlier = after_requests(entries, requests.drop_last());
        lemma_handle_is_stable(entries, requests.drop_last(), descriptor, specialization);
        let last = requests.last();
        if cached(earlier, last.descriptor, last.specialization) is None && last.made is Some {
            lemma_cached_after_insert(
                earlier,
                filled(last.descriptor, last.specialization, last.made->Some_0),
                descriptor,
                specialization,
            );
        }
    }
}

/// What the backend answered to the request that came to `r`: the pipeline
/// that stands behind the handle, or the reason of the refusal.
pub open spec fn told<K, S>(r: Result<usize, CompileError<K>>, entries: Seq<EntryView<S>>) -> Result<
    CompiledPipeline,
    Seq<char>,
> {
    match r {
        Ok(h) => Ok(entries[h as int].pipeline->Some_0),
        Err(e) => Err(e.reason@),
    }
}

/// The call was made for a request that the store did not serve before, and
/// where it was answered with a pipeline, the store serves the request with
/// that pipeline after.
pub open spec fn stored_call<S>(before: Seq<EntryView<S>>, after: Seq<EntryView<S>>, call: Call<S>) -> bool {
    &&& cached(before, call.descriptor, call.specialization) is None
    &&& call.answer is Ok ==> {
        let now = cached(after, call.descriptor, call.specialization);
        &&& now is Some
        &&& 0 <= now->Some_0 < after.len()
        &&& after[now->Some_0].pipeline == Some(call.answer->Ok_0)
    }
}

/// A call that was stored stays stored while the store keeps what it serves
/// and only grows.
pub proof fn lemma_stored_call_stays<S>(
    before: Seq<EntryView<S>>,
    then: Seq<EntryView<S>>,
    after: Seq<EntryView<S>>,
    call: Call<S>,
)
    requires
        stored_call(before, then, call),
        keeps(then, after),
        grown(then, after),
    ensures
        stored_call(before, after, call),
{
    if call.answer is Ok {
        let at = cached(then, call.descriptor, call.specialization);
        assert(at is Some);
        assert(after[at->Some_0] == then[at->Some_0]);
    }
}

/// The store of compiled pipelines of one kind. A handle is the index of a
/// slot; slots are never reused, so a handle never comes to stand for another
/// pipeline.
pub struct PipelineCache<K> {
    entries: Vec<Entry<K>>,
}

impl<K: Specialization> View for PipelineCache<K> {
    type V = Seq<EntryView<K::V>>;

    closed spec fn view(&self) -> Seq<EntryView<K::V>> {
        Seq::new(
            self.entries.len() as nat,
            |i: int|
                EntryView {
                    descriptor: self.entries[i].descriptor,
                    specialization: self.entries[i].specialization@,
                    pipeline: self.entries[i].pipeline,
                },
        )
    }
}

impl<K: Specialization> PipelineCache<K> {
    /// No two slots serve the same request.
    pub open spec fn wf(&self) -> bool {
        one_each(self@)
    }

    /// An empty store.
    pub fn new() -> (c: Self)
        ensures
            c.wf(),
            c@.len() == 0,
    {
        PipelineCache { entries: Vec::new() }
    }

    /// Number of slots, dropped ones included.
    pub fn len(&self) -> (n: usize)
        ensures
            n == self@.len(),
    {
        self.entries.len()
    }

    /// The handle of the live pipeline for this description and
    /// specialization, if the store holds one.
    pub fn lookup(&self, descriptor: u64, specialization: &K) -> (r: Option<usize>)
        ensures
            match r {
                Some(h) => cached(self@, descriptor, specialization@) == Some(h as int),
                None => cached(self@, descriptor, specialization@) is None,
            },
    {
        let mut i: usize = 0;
        while i < self.entries.len()
            invariant
                i <= self.entries.len(),
                forall|j: int| 0 <= j < i ==> !self@[j].serves(descriptor, specialization@),
            decreases self.entries.len() - i,
        {
            let e = &self.entries[i];
            if e.pipeline.is_some() && e.descriptor == descriptor && e.specialization.same_as(
                specialization,
            ) {
                proof {
                    assert(self@[i as int].serves(descriptor, specialization@));
                    lemma_cached(self@, descriptor, specialization@);
                }
                return Some(i);
            }
            assert(!self@[i as int].serves(descriptor, specialization@));
            i += 1;
        }
        proof {
            lemma_cached(self@, descriptor, specialization@);
        }
        None
    }

    /// The pipeline behind a handle, unless the handle is unknown or its
    /// pipeline was dropped.
    pub fn get(&self, handle: usize) -> (r: Option<CompiledPipeline>)
        ensures
            r == if handle < self@.len() {
                self@[handle as int].pipeline
            } else {
                None
            },
    {
        if handle < self.entries.len() {
            self.entries[handle].pipeline
        } else {
            None
        }
    }

    /// Stores a freshly compiled pipeline and returns its handle. A request
    /// that is served already keeps its pipeline and its handle, and the new
    /// pipeline is let go.
    pub fn insert(&mut self, descriptor: u64, specialization: &K, pipeline: CompiledPipeline) -> (h: usize)
        requires
            old(self).wf(),
        ensures
            final(self).wf(),
            keeps(old(self)@, final(self)@),
            cached(final(self)@, descriptor, specialization@) == Some(h as int),
            match cached(old(self)@, descriptor, specialization@) {
                Some(i) => h == i && final(self)@ == old(self)@,
                None => h == old(self)@.len() && final(self)@ == old(self)@.push(
                    filled(descriptor, specialization@, pipeline),
                ),
            },
    {
        match self.lookup(descriptor, specialization) {
            Some(h) => h,
            None => {
                let h = self.entries.len();
                let ghost before = self@;
                let ghost e = EntryView {
                    descriptor,
                    specialization: specialization@,
                    pipeline: Some(pipeline),
                };
                self.entries.push(
                    Entry { descriptor, specialization: specialization.duplicate(), pipeline: Some(pipeline) },
                );
                proof {
                    assert(self@ =~= before.push(e));
                    lemma_cached(before, descriptor, specialization@);
                    lemma_cached_after_insert(before, e, descriptor, specialization@);
                    assert forall|d: u64, s: K::V| (#[trigger] cached(before, d, s)) is Some implies cached(
                        before.push(e),
                        d,
                        s,
                    ) == cached(before, d, s) by {
                        lemma_cached_after_insert(before, e, d, s);
                    }
                }
                h
            },
        }
    }

    /// Takes in what the backend made of a request that the store could not
    /// serve. A pipeline is stored and its handle returned; a refusal leaves
    /// the store as it was and comes back with the request that failed.
    pub fn complete(
        &mut self,
        descriptor: u64,
        specialization: &K,
        outcome: Result<CompiledPipeline, String>,
    ) -> (r: Result<usize, CompileError<K>>)
        requires
            old(self).wf(),
        ensures
            final(self).wf(),
            keeps(old(self)@, final(self)@),
            match outcome {
                Ok(pipeline) => {
                    &&& r is Ok
                    &&& cached(final(self)@, descriptor, specialization@) == Some(r->Ok_0 as int)
                    &&& match cached(old(self)@, descriptor, specialization@) {
                        Some(i) => r->Ok_0 == i && final(self)@ == old(self)@,
                        None => r->Ok_0 == old(self)@.len() && final(self)@ == old(self)@.push(
                            filled(descriptor, specialization@, pipeline),
                        ),
                    }
                },
                Err(reason) => {
                    &&& r is Err
                    &&& r->Err_0.descriptor == descriptor
                    &&& r->Err_0.specialization@ == specialization@
                    &&& r->Err_0.reason == reason
                    &&& final(self)@ == old(self)@
                },
            },
    {
        match outcome {
            Ok(pipeline) => Ok(self.insert(descriptor, specialization, pipeline)),
            Err(reason) => Err(
                CompileError { descriptor, specialization: specialization.duplicate(), reason },
            ),
        }
    }

    /// The handle of the pipeline for this description and specialization.
    ///
    /// The request is served as `served` says: from the store where the store
    /// serves it, and then the backend is left alone; else by the backend,
    /// which is asked once, for this request. What the backend makes, the new
    /// slot holds; its refusal is returned with the request and the reason.
    pub fn get_or_compile<B: Backend<K>>(
        &mut self,
        backend: &mut LoggedBackend<K, B>,
        descriptor: u64,
        specialization: &K,
    ) -> (r: Result<usize, CompileError<K>>)
        requires
            old(self).wf(),
        ensures
            final(self).wf(),
            keeps(old(self)@, final(self)@),
            grown(old(self)@, final(self)@),
            r is Ok ==> cached(final(self)@, descriptor, specialization@) == Some(r->Ok_0 as int),
            r is Err ==> cached(final(self)@, descriptor, specialization@) is None,
            served(
                old(self)@,
                (Asked {
                    descriptor,
                    specialization: specialization@,
                    made: match r {
                        Ok(h) => final(self)@[h as int].pipeline,
                        Err(_) => None,
                    },
                }),
            ) == (
                final(self)@,
                match r {
                    Ok(h) => Some(h as int),
                    Err(_) => None,
                },
            ),
            cached(old(self)@, descriptor, specialization@) is Some ==> *final(backend) == *old(backend),
            cached(old(self)@, descriptor, specialization@) is None ==> final(backend).asked() == old(backend).asked().push(
                Call {
                    descriptor,
                    specialization: specialization@,
                    lines: preamble(specialization.defines()),
                    answer: told(r, final(self)@),
                },
            ),
            r is Err ==> r->Err_0.descriptor == descriptor && r->Err_0.specialization@ == specialization@,
    {
        match self.lookup(descriptor, specialization) {
            Some(h) => Ok(h),
            None => {
                let lines = shader_preamble(specialization.shader_defines());
                let outcome = backend.compile(descriptor, specialization, lines.as_str());
                proof {
                    lemma_cached(self@, descriptor, specialization@);
                }
                self.complete(descriptor, specialization, outcome)
            },
        }
    }

    /// Drops every pipeline that was compiled from `descriptor`. Their handles
    /// stay unknown from now on; the next request compiles anew.
    pub fn invalidate(&mut self, descriptor: u64)
        requires
            old(self).wf(),
        ensures
            final(self).wf(),
            final(self)@ == without_descriptor(old(self)@, descriptor),
    {
        let ghost before = self@;
        let mut i: usize = 0;
        while i < self.entries.len()
            invariant
                i <= self.entries.len(),
                self@.len() == before.len(),
                forall|j: int| 0 <= j < i ==> self@[j] == without_descriptor(before, descriptor)[j],
                forall|j: int| i <= j < before.len() ==> self@[j] == before[j],
            decreases self.entries.len() - i,
        {
            if self.entries[i].descriptor == descriptor {
                let ghost now = self@;
                self.entries[i].pipeline = None;
                proof {
                    assert forall|j: int| 0 <= j < before.len() && j != i implies self@[j] == now[j] by {}
                }
            }
            i += 1;
        }
        proof {
            assert(self@ =~= without_descriptor(before, descriptor));
        }
    }
}

} // verus!
