//! Vertex buffer layouts: packing the attributes of a mesh into a layout, and
//! the registry that keeps each layout under the name of its vertex buffer.

use vstd::prelude::*;
use crate::specialization::{LayoutView, VertexAttribute, VertexFormat, VertexLayout};
use crate::table::NameTable;

verus! {

impl VertexFormat {
    /// Number of bytes that a value of the format takes.
    pub open spec fn bytes(self) -> int {
        match self {
            VertexFormat::Float => 4,
            VertexFormat::Float2 => 8,
            VertexFormat::Float3 => 12,
            VertexFormat::Float4 => 16,
            VertexFormat::Uint => 4,
            VertexFormat::Uint2 => 8,
            VertexFormat::Uint3 => 12,
            VertexFormat::Uint4 => 16,
        }
    }

    /// Number of bytes that a value of the format takes.
    pub fn size(self) -> (r: u64)
        ensures
            r == self.bytes(),
    {
        match self {
            VertexFormat::Float => 4,
            VertexFormat::Float2 => 8,
            VertexFormat::Float3 => 12,
            VertexFormat::Float4 => 16,
            VertexFormat::Uint => 4,
            VertexFormat::Uint2 => 8,
            VertexFormat::Uint3 => 12,
            VertexFormat::Uint4 => 16,
        }
    }
}

/// Number of bytes that the first `k` of the formats take together.
pub open spec fn bytes_before(formats: Seq<VertexFormat>, k: int) -> int
    decreases k,
{
    if k <= 0 {
        0
    } else {
        bytes_before(formats, k - 1) + formats[k - 1].bytes()
    }
}

/// The layout in which attributes of these formats follow one another without
/// gaps, each bound to the shader input of its place.
pub open spec fn packed(formats: Seq<VertexFormat>) -> LayoutView {
    LayoutView {
        stride: bytes_before(formats, formats.len() as int) as u64,
        attributes: Seq::new(
            formats.len(),
            |i: int|
                VertexAttribute {
                    format: formats[i],
                    offset: bytes_before(formats, i) as u64,
                    shader_location: i as u32,
                },
        ),
    }
}

/// No format takes more than 16 bytes.
pub proof fn lemma_bytes_before(formats: Seq<VertexFormat>, k: int)
    requires
        0 <= k,
    ensures
        0 <= bytes_before(formats, k) <= 16 * k,
    decreases k,
{
    if k > 0 {
        lemma_bytes_before(formats, k - 1);
    }
}

impl VertexLayout {
    /// Packs attributes of the given formats into a layout. There is none for
    /// more attributes than there are shader inputs.
    pub fn pack(formats: &Vec<VertexFormat>) -> (r: Option<VertexLayout>)
        ensures
            match r {
                Some(layout) => formats.len() <= u32::MAX && layout@ == packed(formats@),
                None => formats.len() > u32::MAX,
            },
    {
        if formats.len() > 0xffff_ffff {
            return None;
        }
        let mut attributes: Vec<VertexAttribute> = Vec::new();
        let mut offset: u64 = 0;
        let mut i: usize = 0;
        while i < formats.len()
            invariant
                i <= formats.len(),
                formats.len() <= u32::MAX,
                attributes.len() == i,
                offset == bytes_before(formats@, i as int),
                forall|j: int| 0 <= j < i ==> attributes[j] == packed(formats@).attributes[j],
            decreases formats.len() - i,
        {
            proof {
                lemma_bytes_before(formats@, i as int);
                lemma_bytes_before(formats@, i + 1);
            }
            attributes.push(VertexAttribute { format: formats[i], offset, shader_location: i as u32 });
            offset = offset + formats[i].size();
            i += 1;
        }
        proof {
            assert(attributes@ =~= packed(formats@).attributes);
        }
        Some(VertexLayout { stride: offset, attributes })
    }
}

/// The registry of vertex buffer layouts, by the name of the vertex buffer.
pub struct VertexBufferDescriptors {
    layouts: NameTable<VertexLayout>,
}

impl View for VertexBufferDescriptors {
    type V = Map<Seq<char>, LayoutView>;

    closed spec fn view(&self) -> Map<Seq<char>, LayoutView> {
        self.layouts@.map_values(|l: VertexLayout| l@)
    }
}

impl VertexBufferDescriptors {
    /// Every name stands once.
    pub closed spec fn wf(&self) -> bool {
        self.layouts.wf()
    }

    /// A registry without layouts.
    pub fn new() -> (d: Self)
        ensures
            d.wf(),
            d@ == Map::<Seq<char>, LayoutView>::empty(),
    {
        let d = VertexBufferDescriptors { layouts: NameTable::new() };
        proof {
            assert(d@ =~= Map::<Seq<char>, LayoutView>::empty());
        }
        d
    }

    /// The layout kept under `name`, if there is one.
    pub fn get(&self, name: &str) -> (r: Option<&VertexLayout>)
        requires
            self.wf(),
        ensures
            r is Some == self@.contains_key(name@),
            r is Some ==> r->Some_0@ == self@[name@],
    {
        self.layouts.get(name)
    }

    /// Keeps `layout` under `name`, in place of the layout that was kept there.
    pub fn set(&mut self, name: &str, layout: VertexLayout)
        requires
            old(self).wf(),
        ensures
            final(self).wf(),
            final(self)@ == old(self)@.insert(name@, layout@),
    {
        self.layouts.set(name, layout);
        proof {
            assert(self@ =~= old(self)@.insert(name@, layout@));
        }
    }

    /// The layout of the vertex buffer `name`, whose attributes have the given
    /// formats. A layout that is kept under the name is returned as it is;
    /// else the attributes are packed, and the layout is kept. There is no
    /// layout for more attributes than there are shader inputs.
    pub fn layout_for(&mut self, name: &str, formats: &Vec<VertexFormat>) -> (r: Option<VertexLayout>)
        requires
            old(self).wf(),
        ensures
            final(self).wf(),
            if old(self)@.contains_key(name@) {
                &&& r is Some
                &&& r->Some_0@ == old(self)@[name@]
                &&& final(self)@ == old(self)@
            } else if formats.len() <= u32::MAX {
                &&& r is Some
                &&& r->Some_0@ == packed(formats@)
                &&& final(self)@ == old(self)@.insert(name@, packed(formats@))
            } else {
                &&& r is None
                &&& final(self)@ == old(self)@
            },
    {
        match self.layouts.get(name) {
            Some(layout) => {
                return Some(layout.duplicate());
            },
            None => {},
        }
        match VertexLayout::pack(formats) {
            Some(layout) => {
                let copy = layout.duplicate();
                self.set(name, layout);
                Some(copy)
            },
            None => None,
        }
    }
}

} // verus!
