//! The active cameras: named camera slots, each bound to at most one entity.

use vstd::prelude::*;
use crate::table::NameTable;

verus! {

/// The slot of the camera that looks at the three-dimensional scene.
pub const CAMERA3D: &'static str = "camera_3d";

/// The slot of the camera that looks at the two-dimensional scene.
pub const CAMERA2D: &'static str = "camera_2d";

/// The registry of camera slots. A slot holds the entity that is bound to it
/// at the moment, or none.
pub struct ActiveCameras {
    slots: NameTable<Option<u64>>,
}

impl View for ActiveCameras {
    type V = Map<Seq<char>, Option<u64>>;

    closed spec fn view(&self) -> Map<Seq<char>, Option<u64>> {
        self.slots@
    }
}

impl ActiveCameras {
    /// Every slot stands once.
    pub closed spec fn wf(&self) -> bool {
        self.slots.wf()
    }

    /// A registry without slots.
    pub fn new() -> (c: Self)
        ensures
            c.wf(),
            c@ == Map::<Seq<char>, Option<u64>>::empty(),
    {
        ActiveCameras { slots: NameTable::new() }
    }

    /// Makes the slot `name`, bound to no entity. A slot of that name that
    /// existed before loses its entity.
    pub fn add(&mut self, name: &str)
        requires
            old(self).wf(),
        ensures
            final(self).wf(),
            final(self)@ == old(self)@.insert(name@, None),
    {
        self.slots.set(name, None)
    }

    /// Binds `entity` to the slot `name`, in place of the entity that was
    /// bound to it. The slot is made if it did not exist.
    pub fn set(&mut self, name: &str, entity: u64)
        requires
            old(self).wf(),
        ensures
            final(self).wf(),
            final(self)@ == old(self)@.insert(name@, Some(entity)),
    {
        self.slots.set(name, Some(entity))
    }

    /// The entity bound to the slot `name`: none where the slot is empty or
    /// does not exist.
    pub fn get(&self, name: &str) -> (r: Option<u64>)
        requires
            self.wf(),
        ensures
            r == if self@.contains_key(name@) {
                self@[name@]
            } else {
                None
            },
    {
        match self.slots.get(name) {
            Some(entity) => *entity,
            None => None,
        }
    }

    /// Whether the slot `name` exists.
    pub fn has_slot(&self, name: &str) -> (r: bool)
        requires
            self.wf(),
        ensures
            r == self@.contains_key(name@),
    {
        self.slots.get(name).is_some()
    }
}

} // verus!
