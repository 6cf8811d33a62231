//! Telling entities that their geometry has changed.

use vstd::prelude::*;
use crate::cache::{entry_in, CacheEntry, CachedData};
use crate::context::{Context, World};
use crate::entity::Entity;
use crate::event::{Event, Message, Propagation, WindowEvent};
use crate::outline::entities;

verus! {

/// Whether the position or the size of `entity` differs between the two
/// caches. Numbers differ where their bit patterns do.
pub open spec fn moved(before: Map<u32, CacheEntry>, now: Map<u32, CacheEntry>, entity: Entity) -> bool {
    let a = entry_in(before, entity);
    let b = entry_in(now, entity);
    a.posx != b.posx || a.posy != b.posy || a.width != b.width || a.height != b.height
}

/// The event that tells `entity` that its geometry has changed. It travels
/// from the root down to the entity.
pub open spec fn geometry_event(entity: Entity) -> Event {
    Event {
        message: Message::Window(WindowEvent::GeometryChanged),
        target: entity,
        propagation: Propagation::Down,
        consumed: false,
    }
}

/// The events for those of the first `n` entities of `order` whose geometry
/// has changed, in the order of the entities.
pub open spec fn geometry_events(
    order: Seq<Entity>,
    before: Map<u32, CacheEntry>,
    now: Map<u32, CacheEntry>,
    n: int,
) -> Seq<Event>
    decreases n,
{
    if n <= 0 {
        Seq::empty()
    } else if moved(before, now, order[n - 1]) {
        geometry_events(order, before, now, n - 1).push(geometry_event(order[n - 1]))
    } else {
        geometry_events(order, before, now, n - 1)
    }
}

impl Context {
    /// Queues an event for every entity of the tree whose cached position
    /// or size differs from `previous`, the cache of the frame before, in
    /// document order.
    pub fn geometry_changed(&mut self, previous: &CachedData)
        ensures
            final(self)@ == (World {
                queue: old(self)@.queue + geometry_events(
                    entities(old(self)@.tree),
                    previous@,
                    old(self)@.cache,
                    old(self)@.tree.len() as int,
                ),
                ..old(self)@
            }),
    {
        let order: Vec<Entity> = self.tree.entities();
        let ghost now = self@.cache;
        let mut n: usize = 0;
        assert(self@.queue =~= old(self)@.queue + geometry_events(order@, previous@, now, 0));
        while n < order.len()
            invariant
                n <= order.len(),
                order@ == entities(old(self)@.tree),
                now == old(self)@.cache,
                self@ == (World {
                    queue: old(self)@.queue + geometry_events(order@, previous@, now, n as int),
                    ..old(self)@
                }),
            decreases order.len() - n,
        {
            let e: Entity = order[n];
            let a: CacheEntry = previous.get(e);
            let b: CacheEntry = self.cache.get(e);
            let ghost queued = geometry_events(order@, previous@, now, n as int);
            if a.posx != b.posx || a.posy != b.posy || a.width != b.width || a.height != b.height {
                self.event_queue.push_back(
                    Event::new(Message::Window(WindowEvent::GeometryChanged)).target(e).propagate(Propagation::Down),
                );
                assert(self@.queue =~= old(self)@.queue + queued.push(geometry_event(e)));
            }
            n += 1;
        }
    }
}

} // verus!
