//! Handing out and taking back entities.

use vstd::prelude::*;
use crate::entity::Entity;

verus! {

/// Hands out entities and takes them back, reusing the slots of those taken
/// back under a new generation.
pub struct IdManager {
    /// The current generation of each slot.
    generation: Vec<u32>,
    /// Whether the entity of each slot is handed out at the moment.
    alive: Vec<bool>,
    /// The slots that wait to be handed out again.
    free: Vec<u32>,
}

impl IdManager {
    /// The invariant of the manager.
    pub closed spec fn wf(&self) -> bool {
        &&& self.generation.len() == self.alive.len()
        &&& self.alive.len() <= u32::MAX
        &&& forall|k: int|
            0 <= k < self.free.len() ==> (#[trigger] self.free[k]) < self.alive.len() && !self.alive[self.free[k] as int]
        &&& forall|k: int, l: int| 0 <= k < l < self.free.len() ==> #[trigger] self.free[k] != #[trigger] self.free[l]
    }

    /// Whether `entity` is handed out at the moment.
    pub closed spec fn alive(&self, entity: Entity) -> bool {
        &&& entity.index < self.alive.len()
        &&& self.alive[entity.index as int]
        &&& self.generation[entity.index as int] == entity.generation
    }

    /// Whether `entity` is spent: it was alive once and was taken back. A
    /// spent entity is never alive again, and is never handed out again:
    /// its slot has gone on to a later generation, or has run out of
    /// generations and is out of use.
    pub closed spec fn spent(&self, entity: Entity) -> bool {
        &&& entity.index < self.alive.len()
        &&& (entity.generation < self.generation[entity.index as int] || (entity.generation
            == self.generation[entity.index as int] && !self.alive[entity.index as int] && !self.free@.contains(
            entity.index,
        )))
    }

    /// Whether another entity can be handed out: a slot waits for reuse, or
    /// the number of slots has not reached its limit.
    pub closed spec fn has_room(&self) -> bool {
        self.free.len() > 0 || self.alive.len() < u32::MAX
    }

    /// The number of slots that were ever in use.
    pub closed spec fn slots(&self) -> nat {
        self.alive.len() as nat
    }

    /// The entity that `create` hands out next.
    pub closed spec fn next(&self) -> Entity {
        if self.free.len() > 0 {
            let slot = self.free[self.free.len() - 1];
            Entity { index: slot, generation: self.generation[slot as int] }
        } else {
            Entity { index: self.alive.len() as u32, generation: 0 }
        }
    }

    /// A manager that has handed out nothing. The first entity it hands out
    /// is the root.
    pub fn new() -> (m: IdManager)
        ensures
            m.wf(),
            m.has_room(),
            m.slots() == 0,
            m.next() == Entity::root(),
            forall|e: Entity| !m.alive(e),
            forall|e: Entity| !m.spent(e),
    {
        IdManager { generation: Vec::new(), alive: Vec::new(), free: Vec::new() }
    }

    /// Whether no further entity can be handed out.
    pub fn is_full(&self) -> (b: bool)
        requires
            self.wf(),
        ensures
            b == !self.has_room(),
    {
        self.free.len() == 0 && self.alive.len() >= u32::MAX as usize
    }

    /// Hands out an entity that is not alive and never was, and makes it
    /// alive. No other entity changes its state.
    pub fn create(&mut self) -> (e: Entity)
        requires
            old(self).wf(),
            old(self).has_room(),
        ensures
            final(self).wf(),
            e == old(self).next(),
            e != Entity::null(),
            e.index != u32::MAX,
            !old(self).alive(e),
            final(self).alive(e),
            forall|x: Entity| x != e ==> #[trigger] final(self).alive(x) == old(self).alive(x),
            forall|x: Entity| #[trigger] old(self).alive(x) ==> x.index != e.index,
            old(self).slots() <= final(self).slots() <= old(self).slots() + 1,
            !old(self).spent(e),
            forall|x: Entity| #[trigger] final(self).spent(x) == old(self).spent(x),
    {
        if self.free.len() > 0 {
            let ghost before = self.free@;
            let slot: u32 = self.free.pop().unwrap();
            let g: u32 = self.generation[slot as usize];
            self.alive.set(slot as usize, true);
            proof {
                assert(slot == before[before.len() - 1]);
                assert forall|k: int| 0 <= k < self.free.len() implies (#[trigger] self.free[k]) < self.alive.len()
                    && !self.alive[self.free[k] as int] by {
                    assert(self.free[k] == before[k]);
                    assert(before[k] != before[before.len() - 1]);
                }
                assert forall|k: int, l: int| 0 <= k < l < self.free.len() implies #[trigger] self.free[k]
                    != #[trigger] self.free[l] by {
                    assert(self.free[k] == before[k] && self.free[l] == before[l]);
                }
                assert(before.contains(slot));
                assert forall|x: Entity| #[trigger] self.spent(x) == old(self).spent(x) by {
                    if x.index != slot {
                        if before.contains(x.index) {
                            let k = choose|k: int| 0 <= k < before.len() && before[k] == x.index;
                            assert(self.free@[k] == x.index);
                        }
                        if self.free@.contains(x.index) {
                            let k = choose|k: int| 0 <= k < self.free@.len() && self.free@[k] == x.index;
                            assert(before[k] == x.index);
                        }
                    }
                }
            }
            Entity { index: slot, generation: g }
        } else {
            let slot: usize = self.alive.len();
            self.generation.push(0);
            self.alive.push(true);
            Entity { index: slot as u32, generation: 0 }
        }
    }

    /// Takes `entity` back. Returns whether it was alive; an entity that was
    /// not is left as it was. No other entity changes its state. The slot
    /// of the entity is the next to be handed out, under the generation that
    /// follows; a slot that has run out of generations is never handed out
    /// again.
    pub fn destroy(&mut self, entity: Entity) -> (was_alive: bool)
        requires
            old(self).wf(),
        ensures
            final(self).wf(),
            was_alive == old(self).alive(entity),
            !final(self).alive(entity),
            forall|x: Entity| x != entity ==> #[trigger] final(self).alive(x) == old(self).alive(x),
            old(self).has_room() ==> final(self).has_room(),
            final(self).slots() == old(self).slots(),
            !was_alive ==> *final(self) == *old(self),
            was_alive ==> final(self).spent(entity),
            forall|x: Entity| x != entity ==> #[trigger] final(self).spent(x) == old(self).spent(x),
            was_alive && entity.generation < u32::MAX ==> final(self).next() == (Entity {
                index: entity.index,
                generation: (entity.generation + 1) as u32,
            }),
            was_alive && entity.generation == u32::MAX ==> final(self).next() == old(self).next(),
    {
        if !self.is_alive(entity) {
            return false;
        }
        let slot: usize = entity.index as usize;
        let g: u32 = self.generation[slot];
        self.alive.set(slot, false);
        if g < u32::MAX {
            self.generation.set(slot, g + 1);
            let ghost before = self.free@;
            self.free.push(entity.index);
            proof {
                assert forall|k: int, l: int| 0 <= k < l < self.free.len() implies #[trigger] self.free[k]
                    != #[trigger] self.free[l] by {
                    if l < before.len() {
                        assert(self.free[k] == before[k] && self.free[l] == before[l]);
                    } else {
                        assert(self.free[k] == before[k]);
                    }
                }
                assert(self.free@[before.len() as int] == entity.index);
                assert(self.free@.contains(entity.index));
                assert forall|x: Entity| x != entity implies #[trigger] self.spent(x) == old(self).spent(x) by {
                    if x.index != entity.index {
                        if before.contains(x.index) {
                            let k = choose|k: int| 0 <= k < before.len() && before[k] == x.index;
                            assert(self.free@[k] == x.index);
                        }
                        if self.free@.contains(x.index) {
                            let k = choose|k: int| 0 <= k < self.free@.len() && self.free@[k] == x.index;
                            assert(before[k] == x.index);
                        }
                    }
                }
            }
        } else {
            proof {
                if self.free@.contains(entity.index) {
                    let k = choose|k: int| 0 <= k < self.free@.len() && self.free@[k] == entity.index;
                    assert(old(self).free[k] == entity.index);
                }
            }
        }
        true
    }

    /// Whether `entity` is handed out at the moment.
    pub fn is_alive(&self, entity: Entity) -> (b: bool)
        requires
            self.wf(),
        ensures
            b == self.alive(entity),
    {
        let slot: usize = entity.index as usize;
        slot < self.alive.len() && self.alive[slot] && self.generation[slot] == entity.generation
    }

    /// No two entities that are alive share a slot.
    pub proof fn lemma_alive_slots_differ(&self, a: Entity, b: Entity)
        requires
            self.wf(),
            self.alive(a),
            self.alive(b),
            a.index == b.index,
        ensures
            a == b,
    {
    }

    /// An entity that is alive is not spent, and a spent one is not alive.
    pub proof fn lemma_alive_not_spent(&self, e: Entity)
        requires
            self.wf(),
        ensures
            !(self.alive(e) && self.spent(e)),
    {
    }

    /// While fewer slots were in use than there are slot numbers, another
    /// entity can be handed out.
    pub proof fn lemma_room(&self)
        requires
            self.wf(),
            self.slots() < u32::MAX,
        ensures
            self.has_room(),
    {
    }

    /// No entity in the slot of the sentinel is ever alive.
    pub proof fn lemma_null_not_alive(&self, e: Entity)
        requires
            self.wf(),
            e.index == u32::MAX,
        ensures
            !self.alive(e),
            !self.alive(Entity::null()),
    {
    }
}

} // verus!
