//! Identity of the nodes of the interface tree.

use vstd::prelude::*;

verus! {

/// Identifier of a node of the interface tree.
///
/// An entity is a slot number together with the generation of that slot. The
/// slot number indexes the per-entity stores; the generation tells an entity
/// from an earlier one that used the same slot.
#[derive(Clone, Copy, Debug, PartialEq, Eq, Hash, Structural)]
pub struct Entity {
    pub index: u32,
    pub generation: u32,
}

impl Entity {
    /// The entity for the given slot and generation.
    pub fn new(index: u32, generation: u32) -> (e: Entity)
        ensures
            e == (Entity { index, generation }),
    {
        Entity { index, generation }
    }

    /// The root of every tree: the window.
    pub open spec fn spec_root() -> Entity {
        Entity { index: 0, generation: 0 }
    }

    /// The sentinel that stands for "no entity".
    pub open spec fn spec_null() -> Entity {
        Entity { index: u32::MAX, generation: u32::MAX }
    }

    /// The root of every tree: the window.
    #[verifier::when_used_as_spec(spec_root)]
    pub fn root() -> (e: Entity)
        ensures
            e == Entity::spec_root(),
    {
        Entity { index: 0, generation: 0 }
    }

    /// The sentinel that stands for "no entity".
    #[verifier::when_used_as_spec(spec_null)]
    pub fn null() -> (e: Entity)
        ensures
            e == Entity::spec_null(),
    {
        Entity { index: u32::MAX, generation: u32::MAX }
    }

    /// Whether this is the sentinel.
    pub open spec fn spec_is_null(&self) -> bool {
        *self == Entity::spec_null()
    }

    /// Whether this is the sentinel.
    #[verifier::when_used_as_spec(spec_is_null)]
    pub fn is_null(&self) -> (b: bool)
        ensures
            b == self.spec_is_null(),
    {
        self.index == u32::MAX && self.generation == u32::MAX
    }

    /// The slot number.
    pub fn index(&self) -> (i: u32)
        ensures
            i == self.index,
    {
        self.index
    }

    /// The generation of the slot.
    pub fn generation(&self) -> (g: u32)
        ensures
            g == self.generation,
    {
        self.generation
    }
}

} // verus!
