//! Per-entity storage.

use vstd::prelude::*;
use crate::entity::Entity;

verus! {

/// Why a store refused an entity.
#[derive(Clone, Copy, Debug, PartialEq, Eq, Structural)]
pub enum StorageError {
    /// The entity stands in the slot of the sentinel, which holds no data.
    NullEntity,
}

/// A sparse map from entities to values, keyed by the slot of the entity.
///
/// The view of a store is the map from the slots that hold a value to their
/// values. The slot of the sentinel never holds one.
pub struct SparseSet<V> {
    slots: Vec<Option<V>>,
}

impl<V> View for SparseSet<V> {
    type V = Map<u32, V>;

    closed spec fn view(&self) -> Map<u32, V> {
        Map::new(
            |k: u32| k != u32::MAX && k < self.slots.len() && self.slots[k as int] is Some,
            |k: u32| self.slots[k as int]->0,
        )
    }
}

impl<V> SparseSet<V> {
    /// A store that holds nothing.
    pub fn new() -> (s: SparseSet<V>)
        ensures
            s@ == Map::<u32, V>::empty(),
    {
        let s = SparseSet { slots: Vec::new() };
        assert(s@ =~= Map::<u32, V>::empty());
        s
    }

    /// Stores `value` for `entity`, in place of what was stored for its slot.
    /// An entity in the slot of the sentinel is refused.
    pub fn insert(&mut self, entity: Entity, value: V) -> (r: Result<(), StorageError>)
        ensures
            entity.index == u32::MAX ==> r == Err::<(), StorageError>(StorageError::NullEntity) && final(self)@
                == old(self)@,
            entity.index != u32::MAX ==> r == Ok::<(), StorageError>(()) && final(self)@ == old(self)@.insert(
                entity.index,
                value,
            ),
    {
        if entity.index == u32::MAX {
            return Err(StorageError::NullEntity);
        }
        let slot: usize = entity.index as usize;
        while self.slots.len() <= slot
            invariant
                self@ == old(self)@,
                slot == entity.index,
            decreases slot + 1 - self.slots.len(),
        {
            let ghost before = self@;
            self.slots.push(None);
            assert(self@ =~= before);
        }
        let ghost before = self@;
        self.slots.set(slot, Some(value));
        assert(self@ =~= before.insert(entity.index, value));
        Ok(())
    }

    /// Forgets what is stored for `entity`.
    pub fn remove(&mut self, entity: Entity)
        ensures
            final(self)@ == old(self)@.remove(entity.index),
    {
        let slot: usize = entity.index as usize;
        let ghost before = self@;
        if slot < self.slots.len() {
            self.slots.set(slot, None);
        }
        assert(self@ =~= before.remove(entity.index));
    }

    /// What is stored for `entity`, if anything.
    pub fn get(&self, entity: Entity) -> (r: Option<&V>)
        ensures
            r is Some <==> self@.contains_key(entity.index),
            r is Some ==> *r->0 == self@[entity.index],
            !self@.contains_key(u32::MAX),
    {
        let slot: usize = entity.index as usize;
        if entity.index != u32::MAX && slot < self.slots.len() {
            self.slots[slot].as_ref()
        } else {
            None
        }
    }

    /// Whether something is stored for `entity`.
    pub fn contains(&self, entity: Entity) -> (b: bool)
        ensures
            b == self@.contains_key(entity.index),
            !self@.contains_key(u32::MAX),
    {
        self.get(entity).is_some()
    }
}

impl<V: Copy> SparseSet<V> {
    /// A store that holds what this one holds.
    pub fn snapshot(&self) -> (s: SparseSet<V>)
        ensures
            s@ == self@,
    {
        let mut slots: Vec<Option<V>> = Vec::new();
        let mut i: usize = 0;
        while i < self.slots.len()
            invariant
                i <= self.slots.len(),
                slots@ == self.slots@.take(i as int),
            decreases self.slots.len() - i,
        {
            slots.push(self.slots[i]);
            i += 1;
            assert(slots@ =~= self.slots@.take(i as int));
        }
        assert(slots@ =~= self.slots@);
        let s = SparseSet { slots };
        assert(s@ =~= self@);
        s
    }
}

} // verus!
