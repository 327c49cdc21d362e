//! Pipeline specializations: how a reusable pipeline description is adapted to
//! one draw or dispatch, and when two of them are the same.

use vstd::prelude::*;
use crate::names::{copy_strings, find_name, lemma_lookup, texts};

verus! {

/// How the vertices of a draw are assembled into primitives.
#[derive(Clone, Copy, Debug, PartialEq, Eq, Structural)]
pub enum PrimitiveTopology {
    PointList,
    LineList,
    LineStrip,
    TriangleList,
    TriangleStrip,
}

/// The type of one vertex attribute.
#[derive(Clone, Copy, Debug, PartialEq, Eq, Structural)]
pub enum VertexFormat {
    Float,
    Float2,
    Float3,
    Float4,
    Uint,
    Uint2,
    Uint3,
    Uint4,
}

/// One attribute of a vertex buffer: its type, where it starts within a vertex,
/// and the shader input it is bound to.
#[derive(Clone, Copy, Debug, PartialEq, Eq, Structural)]
pub struct VertexAttribute {
    pub format: VertexFormat,
    pub offset: u64,
    pub shader_location: u32,
}

/// The layout of a vertex buffer: the size of a vertex and its attributes.
#[derive(Debug)]
pub struct VertexLayout {
    pub stride: u64,
    pub attributes: Vec<VertexAttribute>,
}

/// A vertex layout as contracts see it.
pub struct LayoutView {
    pub stride: u64,
    pub attributes: Seq<VertexAttribute>,
}

impl View for VertexLayout {
    type V = LayoutView;

    open spec fn view(&self) -> LayoutView {
        LayoutView { stride: self.stride, attributes: self.attributes@ }
    }
}

/// How a render pipeline is specialized. The shader defines and the dynamic
/// bindings are sets: neither their order nor a repetition makes a difference.
#[derive(Debug)]
pub struct PipelineSpecialization {
    pub shader_defs: Vec<String>,
    pub dynamic_bindings: Vec<String>,
    pub primitive_topology: PrimitiveTopology,
    pub vertex_layout: VertexLayout,
    pub sample_count: u32,
}

/// A render pipeline specialization as contracts see it.
pub struct SpecializationView {
    pub shader_defs: Set<Seq<char>>,
    pub dynamic_bindings: Set<Seq<char>>,
    pub primitive_topology: PrimitiveTopology,
    pub vertex_layout: LayoutView,
    pub sample_count: u32,
}

impl View for PipelineSpecialization {
    type V = SpecializationView;

    open spec fn view(&self) -> SpecializationView {
        SpecializationView {
            shader_defs: texts(self.shader_defs@).to_set(),
            dynamic_bindings: texts(self.dynamic_bindings@).to_set(),
            primitive_topology: self.primitive_topology,
            vertex_layout: self.vertex_layout@,
            sample_count: self.sample_count,
        }
    }
}

/// How a compute pipeline is specialized: by shader defines and dynamic
/// bindings only, both of them sets.
#[derive(Debug)]
pub struct ComputePipelineSpecialization {
    pub shader_defs: Vec<String>,
    pub dynamic_bindings: Vec<String>,
}

/// A compute pipeline specialization as contracts see it.
pub struct ComputeSpecializationView {
    pub shader_defs: Set<Seq<char>>,
    pub dynamic_bindings: Set<Seq<char>>,
}

impl View for ComputePipelineSpecialization {
    type V = ComputeSpecializationView;

    open spec fn view(&self) -> ComputeSpecializationView {
        ComputeSpecializationView {
            shader_defs: texts(self.shader_defs@).to_set(),
            dynamic_bindings: texts(self.dynamic_bindings@).to_set(),
        }
    }
}

/// A value that tells one compiled pipeline of a description from another.
pub trait Specialization: View + Sized {
    /// The shader defines, as they are listed.
    spec fn defines(&self) -> Seq<Seq<char>>;

    /// The shader defines, as they are listed.
    fn shader_defines(&self) -> (r: &Vec<String>)
        ensures
            texts(r@) == self.defines(),
    ;

    /// Whether the two specialize a pipeline in the same way.
    fn same_as(&self, other: &Self) -> (r: bool)
        ensures
            r == (self@ == other@),
    ;

    /// A copy that specializes in the same way.
    fn duplicate(&self) -> (r: Self)
        ensures
            r@ == self@,
    ;
}

/// Two lists that hold the same strings equally often hold the same set of
/// strings: the order of a list makes no difference to the set.
pub proof fn lemma_order_is_irrelevant(a: Seq<Seq<char>>, b: Seq<Seq<char>>)
    requires
        a.to_multiset() == b.to_multiset(),
    ensures
        a.to_set() == b.to_set(),
{
    a.to_multiset_ensures();
    b.to_multiset_ensures();
    assert forall|x: Seq<char>| a.to_set().contains(x) == b.to_set().contains(x) by {
        assert(a.contains(x) <==> a.to_multiset().count(x) > 0);
        assert(b.contains(x) <==> b.to_multiset().count(x) > 0);
    }
    assert(a.to_set() =~= b.to_set());
}

/// Two specializations that differ only in the order of their shader defines
/// and of their dynamic bindings are the same request.
pub proof fn lemma_same_request(p: PipelineSpecialization, q: PipelineSpecialization)
    requires
        texts(p.shader_defs@).to_multiset() == texts(q.shader_defs@).to_multiset(),
        texts(p.dynamic_bindings@).to_multiset() == texts(q.dynamic_bindings@).to_multiset(),
        p.primitive_topology == q.primitive_topology,
        p.vertex_layout@ == q.vertex_layout@,
        p.sample_count == q.sample_count,
    ensures
        p@ == q@,
{
    lemma_order_is_irrelevant(texts(p.shader_defs@), texts(q.shader_defs@));
    lemma_order_is_irrelevant(texts(p.dynamic_bindings@), texts(q.dynamic_bindings@));
}

/// Two specializations of which one has a shader define that the other lacks
/// are different requests.
pub proof fn lemma_extra_define(p: PipelineSpecialization, q: PipelineSpecialization, define: Seq<char>)
    requires
        texts(p.shader_defs@).contains(define),
        !texts(q.shader_defs@).contains(define),
    ensures
        p@ != q@,
{
    assert(p@.shader_defs.contains(define));
    assert(!q@.shader_defs.contains(define));
}

/// Whether every string of `a` is among those of `b`.
fn all_among(a: &Vec<String>, b: &Vec<String>) -> (r: bool)
    ensures
        r == texts(a@).to_set().subset_of(texts(b@).to_set()),
{
    let mut i: usize = 0;
    while i < a.len()
        invariant
            i <= a.len(),
            forall|j: int| 0 <= j < i ==> texts(b@).contains(#[trigger] texts(a@)[j]),
        decreases a.len() - i,
    {
        proof {
            lemma_lookup(texts(b@), a[i as int]@);
            assert(texts(a@)[i as int] == a[i as int]@);
        }
        match find_name(b, &a[i]) {
            Some(at) => {
                assert(texts(b@)[at as int] == a[i as int]@);
            },
            None => {
                proof {
                    let x = a[i as int]@;
                    assert(texts(a@).contains(x));
                    assert(texts(a@).to_set().contains(x));
                    assert(!texts(b@).contains(x));
                    assert(!texts(b@).to_set().contains(x));
                }
                return false;
            },
        }
        i += 1;
    }
    proof {
        assert forall|x: Seq<char>| texts(a@).to_set().contains(x) implies texts(b@).to_set().contains(
            x,
        ) by {
            assert(texts(a@).contains(x));
            let j = choose|j: int| 0 <= j < texts(a@).len() && texts(a@)[j] == x;
            assert(texts(b@).contains(texts(a@)[j]));
        }
    }
    true
}

/// Whether `a` and `b` hold the same strings, in whatever order and however often.
pub fn same_strings(a: &Vec<String>, b: &Vec<String>) -> (r: bool)
    ensures
        r == (texts(a@).to_set() == texts(b@).to_set()),
{
    let r = all_among(a, b) && all_among(b, a);
    proof {
        if r {
            assert(texts(a@).to_set() =~= texts(b@).to_set());
        }
    }
    r
}

impl VertexLayout {
    /// Whether the two layouts have the same stride and the same attributes in
    /// the same order.
    pub fn same_as(&self, other: &VertexLayout) -> (r: bool)
        ensures
            r == (self@ == other@),
    {
        if self.stride != other.stride || self.attributes.len() != other.attributes.len() {
            return false;
        }
        let mut i: usize = 0;
        while i < self.attributes.len()
            invariant
                i <= self.attributes.len(),
                self.attributes.len() == other.attributes.len(),
                forall|j: int| 0 <= j < i ==> self.attributes[j] == other.attributes[j],
            decreases self.attributes.len() - i,
        {
            if self.attributes[i] != other.attributes[i] {
                return false;
            }
            i += 1;
        }
        proof {
            assert(self.attributes@ =~= other.attributes@);
        }
        true
    }

    /// A copy of the layout.
    pub fn duplicate(&self) -> (r: VertexLayout)
        ensures
            r@ == self@,
    {
        let mut attributes: Vec<VertexAttribute> = Vec::new();
        let mut i: usize = 0;
        while i < self.attributes.len()
            invariant
                i <= self.attributes.len(),
                attributes.len() == i,
                forall|j: int| 0 <= j < i ==> attributes[j] == self.attributes[j],
            decreases self.attributes.len() - i,
        {
            attributes.push(self.attributes[i]);
            i += 1;
        }
        proof {
            assert(attributes@ =~= self.attributes@);
        }
        VertexLayout { stride: self.stride, attributes }
    }
}

impl Specialization for PipelineSpecialization {
    open spec fn defines(&self) -> Seq<Seq<char>> {
        texts(self.shader_defs@)
    }

    fn shader_defines(&self) -> (r: &Vec<String>) {
        &self.shader_defs
    }

    fn same_as(&self, other: &Self) -> (r: bool) {
        same_strings(&self.shader_defs, &other.shader_defs) && same_strings(
            &self.dynamic_bindings,
            &other.dynamic_bindings,
        ) && self.primitive_topology == other.primitive_topology && self.vertex_layout.same_as(
            &other.vertex_layout,
        ) && self.sample_count == other.sample_count
    }

    fn duplicate(&self) -> (r: Self) {
        PipelineSpecialization {
            shader_defs: copy_strings(&self.shader_defs),
            dynamic_bindings: copy_strings(&self.dynamic_bindings),
            primitive_topology: self.primitive_topology,
            vertex_layout: self.vertex_layout.duplicate(),
            sample_count: self.sample_count,
        }
    }
}

impl Specialization for ComputePipelineSpecialization {
    open spec fn defines(&self) -> Seq<Seq<char>> {
        texts(self.shader_defs@)
    }

    fn shader_defines(&self) -> (r: &Vec<String>) {
        &self.shader_defs
    }

    fn same_as(&self, other: &Self) -> (r: bool) {
        same_strings(&self.shader_defs, &other.shader_defs) && same_strings(
            &self.dynamic_bindings,
            &other.dynamic_bindings,
        )
    }

    fn duplicate(&self) -> (r: Self) {
        ComputePipelineSpecialization {
            shader_defs: copy_strings(&self.shader_defs),
            dynamic_bindings: copy_strings(&self.dynamic_bindings),
        }
    }
}

} // verus!
