//! Rendering the observers of the lenses that changed.

use vstd::prelude::*;
use crate::binding::{observed, scheduled, with_new};
use crate::context::{taken_back, without_entities, Context, World};
use crate::entity::Entity;
use crate::outline::{contains, descendants_at, emptied, index_of};

verus! {

/// Where views were being built before an observer began to render.
#[derive(Clone, Copy, Debug, PartialEq, Eq, Structural)]
pub struct Scope {
    pub current: Entity,
    pub count: usize,
}

/// The world in which `observer` renders again: what was below it is gone,
/// and views are built under it, from the first.
pub open spec fn rendering(w: World, observer: Entity, after: World) -> World {
    let i = index_of(w.tree, observer);
    World {
        current: observer,
        count: 0,
        ..without_entities(w, emptied(w.tree, i), after.entity_manager, descendants_at(w.tree, i))
    }
}

impl Context {
    /// Adds a lens without observers and returns its number.
    pub fn add_lens(&mut self) -> (lens: usize)
        requires
            old(self).wf(),
        ensures
            final(self).wf(),
            lens == old(self)@.bindings.len(),
            final(self)@ == (World { bindings: old(self)@.bindings.push(Seq::<Entity>::empty()), ..old(self)@ }),
    {
        let lens: usize = self.bindings.add_lens();
        proof {
            assert forall|e: Entity| #[trigger] observed(self@.bindings, e) implies observed(old(self)@.bindings, e) by {
                let i = choose|i: int| 0 <= i < self@.bindings.len() && (#[trigger] self@.bindings[i]).contains(e);
                if i < old(self)@.bindings.len() {
                    assert(old(self)@.bindings[i].contains(e));
                } else {
                    assert(self@.bindings[i] =~= Seq::<Entity>::empty());
                }
            }
        }
        lens
    }

    /// Makes `observer` an observer of `lens`, unless it is one already.
    /// Returns whether that could be done: it cannot where there is no such
    /// lens or the observer is not in the tree, and nothing changes then.
    pub fn bind(&mut self, lens: usize, observer: Entity) -> (bound: bool)
        requires
            old(self).wf(),
        ensures
            final(self).wf(),
            bound == (lens < old(self)@.bindings.len() && contains(old(self)@.tree, observer)),
            bound ==> final(self)@ == (World {
                bindings: old(self)@.bindings.update(lens as int, with_new(old(self)@.bindings[lens as int], observer)),
                ..old(self)@
            }),
            !bound ==> final(self)@ == old(self)@,
    {
        if !self.tree.contains(observer) {
            return false;
        }
        let bound: bool = self.bindings.bind(lens, observer);
        proof {
            if bound {
                let before = old(self)@.bindings[lens as int];
                assert forall|e: Entity| #[trigger] observed(self@.bindings, e) implies contains(self@.tree, e) by {
                    let i = choose|i: int| 0 <= i < self@.bindings.len() && (#[trigger] self@.bindings[i]).contains(e);
                    if i != lens {
                        assert(old(self)@.bindings[i].contains(e));
                        assert(observed(old(self)@.bindings, e));
                    } else if e != observer {
                        let list = self@.bindings[i];
                        assert(list == with_new(before, observer));
                        let k = choose|k: int| 0 <= k < list.len() && list[k] == e;
                        if !before.contains(observer) {
                            assert(list == before.push(observer));
                            assert(k < before.len());
                            assert(before[k] == e);
                        }
                        assert(before.contains(e));
                        assert(old(self)@.bindings[lens as int].contains(e));
                        assert(observed(old(self)@.bindings, e));
                    }
                    assert(self@.tree == old(self)@.tree);
                }
            }
        }
        bound
    }

    /// The observers that have to render again in this frame, when the
    /// lenses that `changed` names have changed: each observer once,
    /// however many of its lenses changed, in the order in which they first
    /// occur among the observers of those lenses.
    pub fn observers_due(&self, changed: &Vec<usize>) -> (r: Vec<Entity>)
        ensures
            r@ == scheduled(self@.bindings, changed@, changed.len() as int),
    {
        self.bindings.schedule(changed)
    }

    /// Prepares the world for `observer` to render again: removes what is
    /// below it and sets the building position to it. The observer keeps
    /// its identity and its place in the tree. Returns where views were
    /// being built before, as it was, for `end_render` to go back to. An
    /// observer that is not in the tree any more does not render: nothing
    /// changes and nothing is returned.
    pub fn begin_render(&mut self, observer: Entity) -> (scope: Option<Scope>)
        requires
            old(self).wf(),
        ensures
            final(self).wf(),
            scope is Some <==> contains(old(self)@.tree, observer),
            scope is None ==> final(self)@ == old(self)@,
            scope is Some ==> {
                &&& final(self)@ == rendering(old(self)@, observer, final(self)@)
                &&& contains(final(self)@.tree, observer)
                &&& index_of(final(self)@.tree, observer) == index_of(old(self)@.tree, observer)
                &&& scope->0 == (Scope { current: old(self)@.current, count: old(self)@.count })
                &&& taken_back(
                    old(self)@.entity_manager,
                    final(self)@.entity_manager,
                    descendants_at(old(self)@.tree, index_of(old(self)@.tree, observer)),
                )
            },
    {
        if !self.tree.contains(observer) {
            return None;
        }
        let scope = Scope { current: self.current, count: self.count };
        let _ = self.clear(observer);
        self.current = observer;
        self.count = 0;
        Some(scope)
    }

    /// Goes back to where views were being built before an observer began
    /// to render.
    pub fn end_render(&mut self, scope: Scope)
        ensures
            final(self)@ == (World { current: scope.current, count: scope.count, ..old(self)@ }),
    {
        self.current = scope.current;
        self.count = scope.count;
    }
}

} // verus!
