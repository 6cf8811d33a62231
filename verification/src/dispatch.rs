//! Delivering events: which entities an event visits, and in which order.

use std::collections::VecDeque;
use vstd::prelude::*;
use crate::context::{Context, World};
use crate::entity::Entity;
use crate::event::{Event, Propagation};
use crate::outline::{
    ancestors_at, contains, index_of, lemma_index_of, lemma_parent, lemma_root_first, lemma_step, parent_index,
    subtree_at, well_formed, Node,
};

verus! {

/// The entities that `event` visits in the tree `tree`, in the order of the
/// visits. An event whose target is not in the tree visits nobody.
pub open spec fn route_of(tree: Seq<Node>, event: Event) -> Seq<Entity> {
    if !contains(tree, event.target) {
        Seq::empty()
    } else {
        let i = index_of(tree, event.target);
        match event.propagation {
            Propagation::Direct => seq![event.target],
            Propagation::Up => seq![event.target] + ancestors_at(tree, i),
            Propagation::Down => (seq![event.target] + ancestors_at(tree, i)).reverse(),
            Propagation::Fallback => subtree_at(tree, i),
        }
    }
}

/// One event on its way along its route.
///
/// The host asks for the next recipient, hands the event to the handlers of
/// that entity, and asks again. A handler that consumes the event ends the
/// delivery.
pub struct Delivery {
    /// The event, as the handlers have left it.
    pub event: Event,
    /// The entities to visit, first to last.
    pub route: Vec<Entity>,
    /// How many of them were visited.
    pub visited: usize,
}

impl Delivery {
    /// The entity that the event visits next: the next one on the route,
    /// unless the event was consumed or the route is at its end.
    pub open spec fn recipient(&self) -> Option<Entity> {
        if !self.event.consumed && self.visited < self.route@.len() {
            Some(self.route@[self.visited as int])
        } else {
            None
        }
    }

    /// Names the entity that the event visits next and counts it as visited.
    /// Returns nothing, and changes nothing, once the delivery is over.
    pub fn next_recipient(&mut self) -> (r: Option<Entity>)
        ensures
            r == old(self).recipient(),
            final(self).event == old(self).event,
            final(self).route == old(self).route,
            final(self).visited == (if r is Some {
                old(self).visited + 1
            } else {
                old(self).visited as int
            }),
    {
        if !self.event.consumed && self.visited < self.route.len() {
            let e: Entity = self.route[self.visited];
            self.visited = self.visited + 1;
            Some(e)
        } else {
            None
        }
    }

    /// Consumes the event: it visits nobody after this.
    pub fn consume(&mut self)
        ensures
            final(self).event == (Event { consumed: true, ..old(self).event }),
            final(self).route == old(self).route,
            final(self).visited == old(self).visited,
            final(self).recipient() is None,
    {
        self.event.consume();
    }
}

/// The events of one flush: those that were in the queue when the flush
/// began, oldest first. Events that handlers emit meanwhile wait in the
/// queue for the next flush.
///
/// The view is the sequence of events that are still to be delivered.
pub struct EventManager {
    pending: VecDeque<Event>,
}

impl View for EventManager {
    type V = Seq<Event>;

    closed spec fn view(&self) -> Seq<Event> {
        self.pending@
    }
}

impl EventManager {
    /// A manager with nothing to deliver.
    pub fn new() -> (m: EventManager)
        ensures
            m@ == Seq::<Event>::empty(),
    {
        EventManager { pending: VecDeque::new() }
    }

    /// Takes every event out of the queue of `cx`, in order, behind those
    /// that are still to be delivered. The queue is empty afterwards.
    pub fn flush_events(&mut self, cx: &mut Context)
        ensures
            final(self)@ == old(self)@ + old(cx)@.queue,
            final(cx)@ == (World { queue: Seq::<Event>::empty(), ..old(cx)@ }),
    {
        while cx.event_queue.len() > 0
            invariant
                self@ + cx@.queue == old(self)@ + old(cx)@.queue,
                cx@ == (World { queue: cx@.queue, ..old(cx)@ }),
            decreases cx.event_queue.len(),
        {
            let ghost before = self@;
            let ghost queue = cx@.queue;
            let event: Event = cx.event_queue.pop_front().unwrap();
            self.pending.push_back(event);
            assert(self@ + cx@.queue =~= before + queue);
        }
        assert(cx@.queue =~= Seq::<Event>::empty());
        assert(self@ + cx@.queue =~= self@);
    }

    /// Starts the delivery of the oldest event that is still to be
    /// delivered: its route is taken from the tree as it stands now.
    /// Returns nothing when no event is left.
    pub fn next_delivery(&mut self, cx: &Context) -> (d: Option<Delivery>)
        requires
            cx.wf(),
        ensures
            old(self)@.len() == 0 ==> d is None && final(self)@ == old(self)@,
            old(self)@.len() > 0 ==> d is Some && final(self)@ == old(self)@.drop_first() && d->0.event == old(
                self,
            )@[0] && d->0.route@ == route_of(cx@.tree, old(self)@[0]) && d->0.visited == 0,
    {
        match self.pending.pop_front() {
            Some(event) => {
                assert(self@ =~= old(self)@.drop_first());
                let route: Vec<Entity> = cx.route(&event);
                Some(Delivery { event, route, visited: 0 })
            },
            None => None,
        }
    }
}

impl Context {
    /// The entities that `event` visits, in the order of the visits.
    pub fn route(&self, event: &Event) -> (r: Vec<Entity>)
        requires
            self.wf(),
        ensures
            r@ == route_of(self@.tree, *event),
    {
        if !self.tree.contains(event.target) {
            return Vec::new();
        }
        match event.propagation {
            Propagation::Direct => {
                let mut r: Vec<Entity> = Vec::new();
                r.push(event.target);
                assert(r@ =~= seq![event.target]);
                r
            },
            Propagation::Up => self.path_up(event.target),
            Propagation::Down => {
                let up: Vec<Entity> = self.path_up(event.target);
                let mut r: Vec<Entity> = Vec::new();
                let mut k: usize = up.len();
                while k > 0
                    invariant
                        k <= up.len(),
                        r@.len() == up.len() - k,
                        forall|j: int| 0 <= j < r@.len() ==> r@[j] == up@[up.len() - 1 - j],
                    decreases k,
                {
                    k -= 1;
                    r.push(up[k]);
                }
                assert(r@ =~= up@.reverse());
                r
            },
            Propagation::Fallback => self.tree.subtree(event.target),
        }
    }

    /// `entity` and its ancestors, the root last.
    fn path_up(&self, entity: Entity) -> (r: Vec<Entity>)
        requires
            self.wf(),
            self.tree.has(entity),
        ensures
            r@ == seq![entity] + ancestors_at(self@.tree, index_of(self@.tree, entity)),
    {
        let mut r: Vec<Entity> = Vec::new();
        r.push(entity);
        let mut up: Vec<Entity> = self.tree.ancestors(entity);
        let ghost ancestors = up@;
        r.append(&mut up);
        assert(r@ =~= seq![entity] + ancestors);
        r
    }
}

/// The ancestors of an entry are in the outline, each is the parent of the
/// one before it, and the last is the root.
pub proof fn lemma_ancestors(s: Seq<Node>, i: int)
    requires
        well_formed(s),
        0 <= i < s.len(),
    ensures
        ancestors_at(s, i).len() == s[i].depth,
        forall|k: int| 0 <= k < ancestors_at(s, i).len() ==> contains(s, #[trigger] ancestors_at(s, i)[k]),
        i > 0 ==> ancestors_at(s, i)[0] == s[parent_index(s, i)].entity,
        forall|k: int|
            0 < k < ancestors_at(s, i).len() ==> (#[trigger] ancestors_at(s, i)[k]) == s[parent_index(
                s,
                index_of(s, ancestors_at(s, i)[k - 1]),
            )].entity,
        i > 0 ==> ancestors_at(s, i).last() == Entity::spec_root(),
    decreases i,
{
    if i > 0 {
        lemma_parent(s, i);
        let p = parent_index(s, i);
        lemma_ancestors(s, p);
        lemma_index_of(s, p);
        let a = ancestors_at(s, i);
        let rest = ancestors_at(s, p);
        assert(a == seq![s[p].entity] + rest);
        assert forall|k: int| 0 <= k < a.len() implies contains(s, #[trigger] a[k]) by {
            if k > 0 {
                assert(a[k] == rest[k - 1]);
            }
        }
        assert forall|k: int| 0 < k < a.len() implies (#[trigger] a[k]) == s[parent_index(
            s,
            index_of(s, a[k - 1]),
        )].entity by {
            assert(a[k] == rest[k - 1]);
            if k == 1 {
                assert(a[0] == s[p].entity);
            } else {
                assert(a[k - 1] == rest[k - 2]);
            }
        }
        if p == 0 {
            assert(rest.len() == 0);
            assert(a =~= seq![s[0].entity]);
        } else {
            lemma_step(s, p);
            assert(rest.len() > 0);
            assert(a[a.len() - 1] == rest[rest.len() - 1]);
        }
    }
}

/// An event that travels upwards visits its target first, then the parent
/// of the target, then each further ancestor in turn, and the root last; an
/// event that travels directly visits its target alone; an event that
/// travels downwards makes the visits of the upward one in reverse.
pub proof fn lemma_route(tree: Seq<Node>, event: Event)
    requires
        well_formed(tree),
        contains(tree, event.target),
    ensures
        event.propagation == Propagation::Direct ==> route_of(tree, event) == seq![event.target],
        event.propagation == Propagation::Up ==> {
            let route = route_of(tree, event);
            let up = ancestors_at(tree, index_of(tree, event.target));
            &&& route.len() == up.len() + 1
            &&& route[0] == event.target
            &&& forall|k: int| 0 < k < route.len() ==> #[trigger] route[k] == up[k - 1]
            &&& route.last() == Entity::spec_root()
        },
        event.propagation == Propagation::Down ==> {
            let route = route_of(tree, event);
            &&& route == route_of(tree, Event { propagation: Propagation::Up, ..event }).reverse()
            &&& route[0] == Entity::spec_root()
            &&& route.last() == event.target
        },
{
    let i = index_of(tree, event.target);
    lemma_ancestors(tree, i);
    lemma_root_first(tree);
    let up = seq![event.target] + ancestors_at(tree, i);
    assert(tree[i].entity == event.target);
    if i == 0 {
        assert(ancestors_at(tree, i).len() == 0);
        assert(up =~= seq![event.target]);
    } else {
        lemma_step(tree, i);
        assert(ancestors_at(tree, i).len() > 0);
        assert(up[up.len() - 1] == ancestors_at(tree, i)[ancestors_at(tree, i).len() - 1]);
    }
    assert(up.last() == Entity::spec_root());
    assert(up.reverse()[0] == up.last());
    assert(up.reverse().last() == up[0]);
}

} // verus!
