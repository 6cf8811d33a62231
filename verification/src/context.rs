//! The world of one application: every store of the runtime in one value
//! that is handed to each pass.

use std::collections::VecDeque;
use vstd::prelude::*;
use crate::binding::{all_stripped, holds, observed, observers_distinct, stripped, Bindings};
use crate::cache::{CacheEntry, CachedData};
use crate::entity::Entity;
use crate::event::Event;
use crate::id_manager::IdManager;
use crate::input::{Modifiers, MouseState};
use crate::outline::{
    added, contains, descendants_at, emptied, index_of, removed, subtree_at, well_formed, Node,
};
use crate::style::{Color, Style, Units};
use crate::tree::Tree;

verus! {

/// What the application as a whole is set to.
pub struct Environment {
    /// The tree has to be built again from the root.
    pub needs_rebuild: bool,
    /// The language that texts are shown in, as the application named it.
    pub locale: String,
}

/// The world of one application.
pub struct Context {
    pub entity_manager: IdManager,
    pub tree: Tree,
    /// The entity under which views are being built.
    pub current: Entity,
    /// How many views were built under `current` so far.
    pub count: usize,
    pub cache: CachedData,
    pub style: Style,
    pub environment: Environment,
    /// The events that wait to be delivered, oldest first.
    pub event_queue: VecDeque<Event>,
    pub mouse: MouseState,
    pub modifiers: Modifiers,
    /// The entity that holds capture, or the sentinel.
    pub captured: Entity,
    /// The entity under the pointer.
    pub hovered: Entity,
    /// The entity that keyboard input goes to.
    pub focused: Entity,
    pub bindings: Bindings,
}

/// The world as a mathematical value: the view of a [`Context`].
pub struct World {
    pub entity_manager: IdManager,
    pub tree: Seq<Node>,
    pub current: Entity,
    pub count: usize,
    pub cache: Map<u32, CacheEntry>,
    pub width: Map<u32, Units>,
    pub height: Map<u32, Units>,
    pub background_color: Map<u32, Color>,
    pub default_font: Seq<char>,
    pub needs_restyle: bool,
    pub needs_relayout: bool,
    pub needs_redraw: bool,
    pub needs_rebuild: bool,
    pub locale: Seq<char>,
    pub queue: Seq<Event>,
    pub mouse: MouseState,
    pub modifiers: Modifiers,
    pub captured: Entity,
    pub hovered: Entity,
    pub focused: Entity,
    pub bindings: Seq<Seq<Entity>>,
}

impl View for Context {
    type V = World;

    open spec fn view(&self) -> World {
        World {
            entity_manager: self.entity_manager,
            tree: self.tree@,
            current: self.current,
            count: self.count,
            cache: self.cache@,
            width: self.style.width@,
            height: self.style.height@,
            background_color: self.style.background_color@,
            default_font: self.style.default_font@,
            needs_restyle: self.style.needs_restyle,
            needs_relayout: self.style.needs_relayout,
            needs_redraw: self.style.needs_redraw,
            needs_rebuild: self.environment.needs_rebuild,
            locale: self.environment.locale@,
            queue: self.event_queue@,
            mouse: self.mouse,
            modifiers: self.modifiers,
            captured: self.captured,
            hovered: self.hovered,
            focused: self.focused,
            bindings: self.bindings@,
        }
    }
}

impl World {
    /// The invariant of the world, over its view.
    pub open spec fn wf(self) -> bool {
        &&& well_formed(self.tree)
        &&& self.entity_manager.wf()
        &&& observers_distinct(self.bindings)
        &&& forall|e: Entity| #[trigger] contains(self.tree, e) <==> self.entity_manager.alive(e)
        &&& forall|e: Entity| #[trigger] contains(self.tree, e) ==> self.cache.contains_key(e.index)
        &&& forall|e: Entity| #[trigger] observed(self.bindings, e) ==> contains(self.tree, e)
    }
}

/// Whether `w` is the world at the start: the root alone, alive and cached,
/// hovered and focused; nothing captured; no event waiting; nothing
/// declared; no lens; the tree waiting to be built.
pub open spec fn is_initial(w: World) -> bool {
    &&& w.wf()
    &&& w.entity_manager.has_room()
    &&& w == (World {
        entity_manager: w.entity_manager,
        tree: seq![Node { entity: Entity::spec_root(), depth: 0 }],
        current: Entity::spec_root(),
        count: 0,
        cache: Map::<u32, CacheEntry>::empty().insert(0u32, CacheEntry::spec_unset()),
        width: Map::<u32, Units>::empty(),
        height: Map::<u32, Units>::empty(),
        background_color: Map::<u32, Color>::empty(),
        default_font: Seq::<char>::empty(),
        needs_restyle: false,
        needs_relayout: false,
        needs_redraw: false,
        needs_rebuild: true,
        locale: Seq::<char>::empty(),
        queue: Seq::<Event>::empty(),
        mouse: MouseState::spec_new(),
        modifiers: Modifiers::spec_empty(),
        captured: Entity::spec_null(),
        hovered: Entity::spec_root(),
        focused: Entity::spec_root(),
        bindings: Seq::<Seq<Entity>>::empty(),
    })
}

/// Whether `after` is what `before` becomes when the entities of `gone`,
/// which were alive, are taken back: they are alive no more and spent from
/// now on; every other entity is alive or spent as it was.
pub open spec fn taken_back(before: IdManager, after: IdManager, gone: Seq<Entity>) -> bool {
    &&& forall|x: Entity| #[trigger] after.alive(x) <==> (before.alive(x) && !gone.contains(x))
    &&& forall|x: Entity| #[trigger] after.spent(x) <==> (before.spent(x) || gone.contains(x))
    &&& before.has_room() ==> after.has_room()
}

/// Whether some entity of `gone` stands in `slot`.
pub open spec fn slot_in(gone: Seq<Entity>, slot: u32) -> bool {
    exists|j: int| 0 <= j < gone.len() && (#[trigger] gone[j]).index == slot
}

/// The map `m` without the slots of the entities of `gone`.
pub open spec fn pruned<V>(m: Map<u32, V>, gone: Seq<Entity>) -> Map<u32, V> {
    Map::new(|slot: u32| m.contains_key(slot) && !slot_in(gone, slot), |slot: u32| m[slot])
}

/// `e`, or `fallback` where `e` is among `gone`.
pub open spec fn unless_gone(e: Entity, gone: Seq<Entity>, fallback: Entity) -> Entity {
    if gone.contains(e) {
        fallback
    } else {
        e
    }
}

impl Context {
    /// The invariant of the world: the entities of the tree are those that
    /// are alive, each has an entry in the cache, and no lens is observed by
    /// an entity outside the tree.
    pub open spec fn wf(&self) -> bool {
        self@.wf()
    }

    /// The world at the start: the root alone, alive and cached, hovered
    /// and focused; nothing captured; no event waiting; the tree waiting to
    /// be built.
    pub fn new() -> (cx: Context)
        ensures
            is_initial(cx@),
    {
        let mut entity_manager = IdManager::new();
        let root: Entity = entity_manager.create();
        let mut cache = CachedData::new();
        let _ = cache.add(root);
        let tree = Tree::new();
        let cx = Context {
            entity_manager,
            tree,
            current: Entity::root(),
            count: 0,
            cache,
            style: Style::new(),
            environment: Environment { needs_rebuild: true, locale: String::new() },
            event_queue: VecDeque::new(),
            mouse: MouseState::new(),
            modifiers: Modifiers::empty(),
            captured: Entity::null(),
            hovered: Entity::root(),
            focused: Entity::root(),
            bindings: Bindings::new(),
        };
        proof {
            cx.entity_manager.lemma_room();
            assert forall|e: Entity| #[trigger] cx.tree.has(e) <==> cx.entity_manager.alive(e) by {
                if cx.tree.has(e) {
                    let i = index_of(cx.tree@, e);
                    assert(cx.tree@[i].entity == e);
                }
                if e == Entity::spec_root() {
                    assert(cx.tree@[0].entity == e);
                }
            }
            assert forall|e: Entity| #[trigger] cx.bindings.observes(e) implies cx.tree.has(e) by {}
        }
        cx
    }

    /// Whether `entity` is in the tree.
    pub fn contains(&self, entity: Entity) -> (b: bool)
        requires
            self.wf(),
        ensures
            b == self.tree.has(entity),
    {
        self.tree.contains(entity)
    }

    /// Whether another entity can be created.
    pub fn can_create(&self) -> (b: bool)
        requires
            self.wf(),
        ensures
            b == (self.entity_manager.has_room() && self.tree@.len() < usize::MAX),
    {
        !self.entity_manager.is_full() && self.tree.len() < usize::MAX
    }

    /// Creates an entity as the last child of `parent`, with an unset entry
    /// in the cache. The entity is new: it is not in the tree and was never
    /// in it.
    pub fn create(&mut self, parent: Entity) -> (e: Entity)
        requires
            old(self).wf(),
            old(self).tree.has(parent),
            old(self).entity_manager.has_room(),
            old(self).tree@.len() < usize::MAX,
        ensures
            final(self).wf(),
            e == old(self).entity_manager.next(),
            !old(self).tree.has(e),
            e != Entity::spec_null(),
            forall|x: Entity| #[trigger] final(self).tree.has(x) <==> (x == e || old(self).tree.has(x)),
            final(self)@ == (World {
                entity_manager: final(self)@.entity_manager,
                tree: added(old(self)@.tree, e, index_of(old(self)@.tree, parent)),
                cache: old(self)@.cache.insert(e.index, CacheEntry::spec_unset()),
                ..old(self)@
            }),
            forall|x: Entity|
                #[trigger] final(self).entity_manager.alive(x) <==> (x == e || old(self).entity_manager.alive(x)),
            final(self).entity_manager.slots() <= old(self).entity_manager.slots() + 1,
            !old(self).entity_manager.spent(e),
            forall|x: Entity| #[trigger] final(self).entity_manager.spent(x) == old(self).entity_manager.spent(x),
    {
        let e: Entity = self.entity_manager.create();
        self.tree.add(e, parent);
        let _ = self.cache.add(e);
        e
    }

    /// Removes `entity` and all its descendants: from the tree, from the
    /// entities that are alive, from the cache, the style store and the
    /// observers of every lens. Capture held by a removed entity is
    /// released; hover, focus and the building position fall back to the
    /// root. Returns what was removed, in document order.
    pub fn remove(&mut self, entity: Entity) -> (gone: Vec<Entity>)
        requires
            old(self).wf(),
            old(self).tree.has(entity),
            entity != Entity::spec_root(),
        ensures
            final(self).wf(),
            gone@ == subtree_at(old(self)@.tree, index_of(old(self)@.tree, entity)),
            gone@.len() > 0,
            gone@[0] == entity,
            !final(self).tree.has(entity),
            final(self)@ == without_entities(
                old(self)@,
                removed(old(self)@.tree, index_of(old(self)@.tree, entity)),
                final(self)@.entity_manager,
                gone@,
            ),
            forall|x: Entity| #[trigger] final(self).tree.has(x) <==> (old(self).tree.has(x) && !gone@.contains(x)),
            forall|x: Entity|
                #[trigger] final(self).entity_manager.alive(x) <==> (old(self).entity_manager.alive(x)
                    && !gone@.contains(x)),
            old(self).entity_manager.has_room() ==> final(self).entity_manager.has_room(),
            taken_back(old(self)@.entity_manager, final(self)@.entity_manager, gone@),
            forall|x: Entity| #[trigger] final(self).bindings.observes(x) ==> old(self).bindings.observes(x),
    {
        let gone: Vec<Entity> = self.tree.remove(entity);
        self.unlist(&gone);
        proof {
            lemma_cached(old(self)@, self@, gone@);
            lemma_taken_back(old(self)@, self@.entity_manager, gone@);
        }
        gone
    }

    /// Removes all descendants of `entity`, as `remove` does; the entity
    /// itself stays, where it is in the tree and as it is in every store.
    /// Returns what was removed, in document order.
    pub fn clear(&mut self, entity: Entity) -> (gone: Vec<Entity>)
        requires
            old(self).wf(),
            old(self).tree.has(entity),
        ensures
            final(self).wf(),
            gone@ == descendants_at(old(self)@.tree, index_of(old(self)@.tree, entity)),
            final(self)@ == without_entities(
                old(self)@,
                emptied(old(self)@.tree, index_of(old(self)@.tree, entity)),
                final(self)@.entity_manager,
                gone@,
            ),
            forall|x: Entity| #[trigger] final(self).tree.has(x) <==> (old(self).tree.has(x) && !gone@.contains(x)),
            forall|x: Entity|
                #[trigger] final(self).entity_manager.alive(x) <==> (old(self).entity_manager.alive(x)
                    && !gone@.contains(x)),
            old(self).entity_manager.has_room() ==> final(self).entity_manager.has_room(),
            taken_back(old(self)@.entity_manager, final(self)@.entity_manager, gone@),
            forall|x: Entity| #[trigger] final(self).bindings.observes(x) ==> old(self).bindings.observes(x),
            final(self).tree.has(entity),
            index_of(final(self)@.tree, entity) == index_of(old(self)@.tree, entity),
    {
        let gone: Vec<Entity> = self.tree.clear(entity);
        self.unlist(&gone);
        proof {
            lemma_cached(old(self)@, self@, gone@);
            lemma_taken_back(old(self)@, self@.entity_manager, gone@);
        }
        gone
    }

    /// Takes the entities of `gone` out of every store but the tree.
    fn unlist(&mut self, gone: &Vec<Entity>)
        requires
            old(self).entity_manager.wf(),
            old(self).bindings.wf(),
        ensures
            final(self).entity_manager.wf(),
            final(self).bindings.wf(),
            final(self)@ == without_entities(
                old(self)@,
                old(self)@.tree,
                final(self)@.entity_manager,
                gone@,
            ),
            forall|x: Entity|
                #[trigger] final(self).entity_manager.alive(x) <==> (old(self).entity_manager.alive(x)
                    && !gone@.contains(x)),
            old(self).entity_manager.has_room() ==> final(self).entity_manager.has_room(),
            forall|x: Entity|
                #[trigger] final(self).entity_manager.spent(x) <==> (old(self).entity_manager.spent(x) || (old(
                    self,
                ).entity_manager.alive(x) && gone@.contains(x))),
            forall|x: Entity|
                #[trigger] final(self).bindings.observes(x) ==> old(self).bindings.observes(x) && !gone@.contains(x),
    {
        let mut k: usize = 0;
        proof {
            let none = gone@.take(0);
            assert(self.cache@ =~= pruned(self.cache@, none));
            assert(self.style.width@ =~= pruned(self.style.width@, none));
            assert(self.style.height@ =~= pruned(self.style.height@, none));
            assert(self.style.background_color@ =~= pruned(self.style.background_color@, none));
        }
        while k < gone.len()
            invariant
                k <= gone.len(),
                self.entity_manager.wf(),
                self.bindings.wf(),
                self@.bindings.len() == old(self)@.bindings.len(),
                forall|i: int|
                    0 <= i < self@.bindings.len() ==> #[trigger] self@.bindings[i] == stripped(
                        old(self)@.bindings[i],
                        gone@,
                        k as int,
                    ),
                self@ == (World {
                    entity_manager: self@.entity_manager,
                    bindings: self@.bindings,
                    cache: pruned(old(self)@.cache, gone@.take(k as int)),
                    width: pruned(old(self)@.width, gone@.take(k as int)),
                    height: pruned(old(self)@.height, gone@.take(k as int)),
                    background_color: pruned(old(self)@.background_color, gone@.take(k as int)),
                    ..old(self)@
                }),
                forall|x: Entity|
                    #[trigger] self.entity_manager.alive(x) <==> (old(self).entity_manager.alive(x) && !gone@.take(
                        k as int,
                    ).contains(x)),
                old(self).entity_manager.has_room() ==> self.entity_manager.has_room(),
                forall|x: Entity|
                    #[trigger] self.entity_manager.spent(x) <==> (old(self).entity_manager.spent(x) || (old(
                        self,
                    ).entity_manager.alive(x) && gone@.take(k as int).contains(x))),
                forall|x: Entity|
                    #[trigger] self.bindings.observes(x) ==> old(self).bindings.observes(x) && !gone@.take(
                        k as int,
                    ).contains(x),
            decreases gone.len() - k,
        {
            let g: Entity = gone[k];
            let ghost done = gone@.take(k as int);
            let ghost next = gone@.take(k as int + 1);
            proof {
                assert(next =~= done.push(g));
                assert forall|x: Entity| next.contains(x) <==> (done.contains(x) || x == g) by {
                    if next.contains(x) {
                        let i = choose|i: int| 0 <= i < next.len() && next[i] == x;
                        if i < done.len() {
                            assert(done[i] == x);
                        }
                    }
                    if done.contains(x) {
                        let i = choose|i: int| 0 <= i < done.len() && done[i] == x;
                        assert(next[i] == x);
                    }
                    assert(next[k as int] == g);
                }
                assert forall|slot: u32| slot_in(next, slot) <==> (slot_in(done, slot) || slot == g.index) by {
                    if slot_in(next, slot) {
                        let j = choose|j: int| 0 <= j < next.len() && (#[trigger] next[j]).index == slot;
                        if j < done.len() {
                            assert(done[j].index == slot);
                        }
                    }
                    if slot_in(done, slot) {
                        let j = choose|j: int| 0 <= j < done.len() && (#[trigger] done[j]).index == slot;
                        assert(next[j].index == slot);
                    }
                    assert(next[k as int].index == g.index);
                }
            }
            let _ = self.entity_manager.destroy(g);
            self.cache.remove(g);
            self.style.remove(g);
            self.bindings.unbind(g);
            k += 1;
            proof {
                assert(self.cache@ =~= pruned(old(self).cache@, next));
                assert(self.style.width@ =~= pruned(old(self).style.width@, next));
                assert(self.style.height@ =~= pruned(old(self).style.height@, next));
                assert(self.style.background_color@ =~= pruned(old(self).style.background_color@, next));
            }
        }
        assert(gone@.take(gone.len() as int) =~= gone@);
        assert(self@.bindings =~= all_stripped(old(self)@.bindings, gone@));
        if holds(gone, self.captured) {
            self.captured = Entity::null();
        }
        if holds(gone, self.hovered) {
            self.hovered = Entity::root();
        }
        if holds(gone, self.focused) {
            self.focused = Entity::root();
        }
        if holds(gone, self.current) {
            self.current = Entity::root();
        }
    }
}

/// No two entities of the tree share a slot, in whatever way the tree was
/// built and pruned: what is stored by slot is stored for one entity.
pub proof fn lemma_slots_differ(w: World, a: Entity, b: Entity)
    requires
        w.wf(),
        contains(w.tree, a),
        contains(w.tree, b),
        a.index == b.index,
    ensures
        a == b,
{
    w.entity_manager.lemma_alive_slots_differ(a, b);
}

/// A spent entity is not in the tree: an entity that was removed stays
/// out, whatever is created later.
pub proof fn lemma_spent_not_in_tree(w: World, e: Entity)
    requires
        w.wf(),
        w.entity_manager.spent(e),
    ensures
        !contains(w.tree, e),
        !w.entity_manager.alive(e),
{
    w.entity_manager.lemma_alive_not_spent(e);
}

/// The world `w` once the entities of `gone` are out of it: the tree is
/// `tree`; the entities that are alive are as `entity_manager` says; no
/// lens is observed by an entity that is gone; the cache and the style
/// store have lost the slots of the entities that are gone; capture held by
/// one of them is released; hover, focus and the building position fall
/// back to the root. All else is as it was.
pub open spec fn without_entities(w: World, tree: Seq<Node>, entity_manager: IdManager, gone: Seq<Entity>) -> World {
    World {
        tree,
        entity_manager,
        bindings: all_stripped(w.bindings, gone),
        cache: pruned(w.cache, gone),
        width: pruned(w.width, gone),
        height: pruned(w.height, gone),
        background_color: pruned(w.background_color, gone),
        captured: unless_gone(w.captured, gone, Entity::spec_null()),
        hovered: unless_gone(w.hovered, gone, Entity::spec_root()),
        focused: unless_gone(w.focused, gone, Entity::spec_root()),
        current: unless_gone(w.current, gone, Entity::spec_root()),
        ..w
    }
}

/// Entities of the tree that were taken out of the manager are taken back
/// in the sense of `taken_back`.
proof fn lemma_taken_back(before: World, after: IdManager, gone: Seq<Entity>)
    requires
        before.wf(),
        forall|k: int| 0 <= k < gone.len() ==> contains(before.tree, #[trigger] gone[k]),
        forall|x: Entity| #[trigger] after.alive(x) <==> (before.entity_manager.alive(x) && !gone.contains(x)),
        forall|x: Entity|
            #[trigger] after.spent(x) <==> (before.entity_manager.spent(x) || (before.entity_manager.alive(x)
                && gone.contains(x))),
        before.entity_manager.has_room() ==> after.has_room(),
    ensures
        taken_back(before.entity_manager, after, gone),
{
    assert forall|x: Entity| #[trigger] after.spent(x) <==> (before.entity_manager.spent(x) || gone.contains(x)) by {
        if gone.contains(x) {
            let k = choose|k: int| 0 <= k < gone.len() && gone[k] == x;
            assert(contains(before.tree, gone[k]));
            assert(before.entity_manager.alive(x));
        }
    }
}

/// Once a set of entities that were in the tree has left every store, the
/// world is well-formed again.
proof fn lemma_cached(before: World, after: World, gone: Seq<Entity>)
    requires
        before.wf(),
        well_formed(after.tree),
        after.entity_manager.wf(),
        observers_distinct(after.bindings),
        after.cache == pruned(before.cache, gone),
        forall|k: int| 0 <= k < gone.len() ==> contains(before.tree, #[trigger] gone[k]),
        forall|x: Entity| #[trigger] contains(after.tree, x) <==> (contains(before.tree, x) && !gone.contains(x)),
        forall|x: Entity|
            #[trigger] after.entity_manager.alive(x) <==> (before.entity_manager.alive(x) && !gone.contains(x)),
        forall|x: Entity| #[trigger] observed(after.bindings, x) ==> observed(before.bindings, x) && !gone.contains(x),
    ensures
        after.wf(),
{
    assert forall|e: Entity| #[trigger] contains(after.tree, e) implies after.cache.contains_key(e.index) by {
        assert(contains(before.tree, e));
        assert(before.entity_manager.alive(e));
        if slot_in(gone, e.index) {
            let j = choose|j: int| 0 <= j < gone.len() && (#[trigger] gone[j]).index == e.index;
            let g = gone[j];
            assert(gone.contains(g));
            assert(contains(before.tree, g));
            before.entity_manager.lemma_alive_slots_differ(e, g);
        }
    }
    assert forall|e: Entity| #[trigger] observed(after.bindings, e) implies contains(after.tree, e) by {
        assert(observed(before.bindings, e));
    }
}

} // verus!
