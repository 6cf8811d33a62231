//! The tree of entities.

use vstd::prelude::*;
use crate::entity::Entity;
use crate::outline::{
    added, ancestors_at, children_at, children_in, contains, cut, descendants_at, emptied, entities, index_of,
    lemma_added, lemma_cut, lemma_depth_bound, lemma_emptied, lemma_index_of, lemma_parent, lemma_removed,
    lemma_root_first, lemma_root_has_no_parent, lemma_run_end_is, lemma_shallower_before_is, parent_at,
    parent_index, removed, subtree_at, subtree_end, well_formed, Node,
};

verus! {

/// The tree of entities: who is whose parent, and in which order the children
/// of a parent stand.
///
/// The view of a tree is its outline: the entities in document order, each
/// with its depth.
pub struct Tree {
    nodes: Vec<Node>,
}

impl View for Tree {
    type V = Seq<Node>;

    closed spec fn view(&self) -> Seq<Node> {
        self.nodes@
    }
}

impl Tree {
    /// The invariant of the tree: its outline is well-formed.
    #[verifier::inline]
    pub open spec fn wf(&self) -> bool {
        well_formed(self@)
    }

    /// Whether `entity` is in the tree.
    #[verifier::inline]
    pub open spec fn has(&self, entity: Entity) -> bool {
        contains(self@, entity)
    }

    /// A tree that holds the root alone.
    pub fn new() -> (t: Tree)
        ensures
            t.wf(),
            t@ == seq![Node { entity: Entity::spec_root(), depth: 0 }],
    {
        let mut nodes: Vec<Node> = Vec::new();
        nodes.push(Node { entity: Entity::root(), depth: 0 });
        assert(nodes@ =~= seq![Node { entity: Entity::spec_root(), depth: 0 }]);
        Tree { nodes }
    }

    /// The number of entities in the tree.
    pub fn len(&self) -> (n: usize)
        ensures
            n == self@.len(),
    {
        self.nodes.len()
    }

    /// The place of `entity` in document order, if it is in the tree.
    pub fn position(&self, entity: Entity) -> (r: Option<usize>)
        requires
            self.wf(),
        ensures
            r is Some <==> self.has(entity),
            r is Some ==> r->0 == index_of(self@, entity),
    {
        let mut i: usize = 0;
        while i < self.nodes.len()
            invariant
                self.wf(),
                i <= self.nodes.len(),
                forall|k: int| 0 <= k < i ==> (#[trigger] self.nodes@[k]).entity != entity,
            decreases self.nodes.len() - i,
        {
            if self.nodes[i].entity == entity {
                proof {
                    lemma_index_of(self@, i as int);
                }
                return Some(i);
            }
            i += 1;
        }
        None
    }

    /// Whether `entity` is in the tree.
    pub fn contains(&self, entity: Entity) -> (b: bool)
        requires
            self.wf(),
        ensures
            b == self.has(entity),
    {
        self.position(entity).is_some()
    }

    /// The place just behind the subtree of the entry at `i`.
    fn end_of(&self, i: usize) -> (end: usize)
        requires
            i < self@.len(),
        ensures
            end == subtree_end(self@, i as int),
            i < end <= self@.len(),
    {
        assert(i < self.nodes.len());
        let d: usize = self.nodes[i].depth;
        let mut j: usize = i + 1;
        while j < self.nodes.len() && self.nodes[j].depth > d
            invariant
                i < j <= self.nodes.len(),
                d == self.nodes@[i as int].depth,
                forall|k: int| i < k < j ==> (#[trigger] self.nodes@[k]).depth > d,
            decreases self.nodes.len() - j,
        {
            j += 1;
        }
        proof {
            lemma_run_end_is(self@, d as int, i as int + 1, j as int);
        }
        j
    }

    /// The place of the parent of the entry at `i`.
    fn parent_of(&self, i: usize) -> (p: usize)
        requires
            self.wf(),
            0 < i < self@.len(),
        ensures
            p == parent_index(self@, i as int),
            p < i,
    {
        let d: usize = self.nodes[i].depth;
        let mut j: usize = i - 1;
        proof {
            lemma_parent(self@, i as int);
        }
        while self.nodes[j].depth >= d
            invariant
                j < i < self.nodes.len(),
                d == self.nodes@[i as int].depth,
                0 <= parent_index(self@, i as int) <= j,
                forall|k: int| j < k < i ==> (#[trigger] self.nodes@[k]).depth >= d,
                self.nodes@[parent_index(self@, i as int)].depth < d,
            decreases j,
        {
            j -= 1;
        }
        proof {
            lemma_shallower_before_is(self@, d as int, i as int - 1, j as int);
        }
        j
    }

    /// Adds `entity` to the tree as the last child of `parent`.
    pub fn add(&mut self, entity: Entity, parent: Entity)
        requires
            old(self).wf(),
            old(self).has(parent),
            !old(self).has(entity),
            entity != Entity::spec_null(),
            old(self)@.len() < usize::MAX,
        ensures
            final(self).wf(),
            final(self)@ == added(old(self)@, entity, index_of(old(self)@, parent)),
            forall|x: Entity| #[trigger] final(self).has(x) <==> (x == entity || old(self).has(x)),
    {
        let p: usize = self.position(parent).unwrap();
        let end: usize = self.end_of(p);
        let ghost before = self@;
        proof {
            lemma_added(before, entity, p as int);
            lemma_depth_bound(before, p as int);
        }
        let depth: usize = self.nodes[p].depth + 1;
        self.nodes.insert(end, Node { entity, depth });
        assert(self@ == added(before, entity, p as int));
    }

    /// Takes the entries from `from` up to `to` out of the tree. Returns
    /// their entities, in document order.
    fn cut(&mut self, from: usize, to: usize) -> (gone: Vec<Entity>)
        requires
            from <= to <= old(self)@.len(),
        ensures
            final(self)@ == cut(old(self)@, from as int, to as int),
            gone@ == entities(old(self)@.subrange(from as int, to as int)),
    {
        let ghost before = self@;
        let mut kept: Vec<Node> = Vec::new();
        let mut gone: Vec<Entity> = Vec::new();
        let mut k: usize = 0;
        while k < self.nodes.len()
            invariant
                k <= self.nodes.len(),
                self.nodes@ == before,
                from <= to <= before.len(),
                kept@ == (if k <= from {
                    before.subrange(0, k as int)
                } else if k <= to {
                    before.subrange(0, from as int)
                } else {
                    before.subrange(0, from as int) + before.subrange(to as int, k as int)
                }),
                gone@ == (if k <= from {
                    Seq::<Entity>::empty()
                } else if k <= to {
                    entities(before.subrange(from as int, k as int))
                } else {
                    entities(before.subrange(from as int, to as int))
                }),
            decreases self.nodes.len() - k,
        {
            let node: Node = self.nodes[k];
            if k < from || k >= to {
                kept.push(node);
            } else {
                gone.push(node.entity);
            }
            k += 1;
            proof {
                if k <= from {
                    assert(kept@ =~= before.subrange(0, k as int));
                } else if k <= to {
                    assert(kept@ =~= before.subrange(0, from as int));
                    assert(gone@ =~= entities(before.subrange(from as int, k as int)));
                } else {
                    assert(kept@ =~= before.subrange(0, from as int) + before.subrange(to as int, k as int));
                }
            }
        }
        proof {
            if from == to {
                assert(gone@ =~= entities(before.subrange(from as int, to as int)));
            }
            if to == before.len() {
                assert(kept@ =~= cut(before, from as int, to as int));
            }
        }
        self.nodes = kept;
        gone
    }

    /// Removes `entity` and all its descendants from the tree. Returns what
    /// was removed, in document order.
    pub fn remove(&mut self, entity: Entity) -> (gone: Vec<Entity>)
        requires
            old(self).wf(),
            old(self).has(entity),
            entity != Entity::spec_root(),
        ensures
            final(self).wf(),
            final(self)@ == removed(old(self)@, index_of(old(self)@, entity)),
            gone@ == subtree_at(old(self)@, index_of(old(self)@, entity)),
            gone@.len() > 0,
            gone@[0] == entity,
            !final(self).has(entity),
            forall|x: Entity| #[trigger] final(self).has(x) <==> (old(self).has(x) && !gone@.contains(x)),
            forall|k: int| 0 <= k < gone@.len() ==> old(self).has(#[trigger] gone@[k]),
    {
        let i: usize = self.position(entity).unwrap();
        let end: usize = self.end_of(i);
        proof {
            lemma_root_first(self@);
            lemma_removed(self@, i as int);
        }
        let gone: Vec<Entity> = self.cut(i, end);
        proof {
            lemma_gone(old(self)@, i as int, end as int, gone@);
            assert(gone@[0] == old(self)@[i as int].entity);
            assert(gone@.contains(entity));
        }
        gone
    }

    /// Removes all descendants of `entity` from the tree; the entity itself
    /// stays where it is. Returns what was removed, in document order.
    pub fn clear(&mut self, entity: Entity) -> (gone: Vec<Entity>)
        requires
            old(self).wf(),
            old(self).has(entity),
        ensures
            final(self).wf(),
            final(self)@ == emptied(old(self)@, index_of(old(self)@, entity)),
            gone@ == descendants_at(old(self)@, index_of(old(self)@, entity)),
            forall|x: Entity| #[trigger] final(self).has(x) <==> (old(self).has(x) && !gone@.contains(x)),
            forall|k: int| 0 <= k < gone@.len() ==> old(self).has(#[trigger] gone@[k]),
            final(self).has(entity),
            index_of(final(self)@, entity) == index_of(old(self)@, entity),
    {
        let i: usize = self.position(entity).unwrap();
        let end: usize = self.end_of(i);
        proof {
            lemma_emptied(self@, i as int);
            lemma_index_of(self@, i as int);
        }
        let gone: Vec<Entity> = self.cut(i + 1, end);
        proof {
            lemma_gone(old(self)@, i as int + 1, end as int, gone@);
            lemma_cut(old(self)@, i as int, i as int + 1);
        }
        gone
    }

    /// The parent of `entity`; the root has none.
    pub fn parent(&self, entity: Entity) -> (r: Option<Entity>)
        requires
            self.wf(),
            self.has(entity),
        ensures
            r == parent_at(self@, index_of(self@, entity)),
            r is None <==> entity == Entity::spec_root(),
            r is Some ==> self.has(r->0),
    {
        let i: usize = self.position(entity).unwrap();
        proof {
            lemma_root_first(self@);
            lemma_index_of(self@, i as int);
        }
        if i == 0 {
            proof {
                lemma_root_has_no_parent(self@);
            }
            None
        } else {
            let p: usize = self.parent_of(i);
            proof {
                lemma_index_of(self@, p as int);
            }
            Some(self.nodes[p].entity)
        }
    }

    /// The ancestors of `entity`: its parent first, the root last.
    pub fn ancestors(&self, entity: Entity) -> (r: Vec<Entity>)
        requires
            self.wf(),
            self.has(entity),
        ensures
            r@ == ancestors_at(self@, index_of(self@, entity)),
    {
        let i: usize = self.position(entity).unwrap();
        let mut out: Vec<Entity> = Vec::new();
        let mut cur: usize = i;
        while cur > 0
            invariant
                self.wf(),
                cur <= i < self@.len(),
                out@ + ancestors_at(self@, cur as int) == ancestors_at(self@, i as int),
            decreases cur,
        {
            let p: usize = self.parent_of(cur);
            out.push(self.nodes[p].entity);
            proof {
                assert(ancestors_at(self@, cur as int) == seq![self@[p as int].entity] + ancestors_at(
                    self@,
                    p as int,
                ));
                assert(out@ + ancestors_at(self@, p as int) =~= out@.drop_last() + ancestors_at(self@, cur as int));
            }
            cur = p;
        }
        proof {
            lemma_root_has_no_parent(self@);
            assert(out@ + Seq::<Entity>::empty() =~= out@);
        }
        out
    }

    /// The children of `entity`, in document order.
    pub fn children(&self, entity: Entity) -> (r: Vec<Entity>)
        requires
            self.wf(),
            self.has(entity),
        ensures
            r@ == children_at(self@, index_of(self@, entity)),
    {
        let i: usize = self.position(entity).unwrap();
        let end: usize = self.end_of(i);
        let d: usize = self.nodes[i].depth;
        proof {
            lemma_depth_bound(self@, i as int);
        }
        let mut out: Vec<Entity> = Vec::new();
        let mut j: usize = i + 1;
        while j < end
            invariant
                i < j <= end <= self@.len(),
                d < usize::MAX,
                out@ + children_in(self@, d as int, j as int, end as int) == children_in(
                    self@,
                    d as int,
                    i as int + 1,
                    end as int,
                ),
            decreases end - j,
        {
            let ghost rest = children_in(self@, d as int, j as int + 1, end as int);
            if self.nodes[j].depth == d + 1 {
                out.push(self.nodes[j].entity);
                assert(out@ + rest =~= out@.drop_last() + (seq![self@[j as int].entity] + rest));
            }
            j += 1;
        }
        proof {
            assert(out@ + Seq::<Entity>::empty() =~= out@);
        }
        out
    }

    /// `entity` and all its descendants, in document order.
    pub fn subtree(&self, entity: Entity) -> (r: Vec<Entity>)
        requires
            self.wf(),
            self.has(entity),
        ensures
            r@ == subtree_at(self@, index_of(self@, entity)),
    {
        let i: usize = self.position(entity).unwrap();
        let end: usize = self.end_of(i);
        let mut out: Vec<Entity> = Vec::new();
        let mut j: usize = i;
        while j < end
            invariant
                i <= j <= end <= self@.len(),
                out@ == entities(self@.subrange(i as int, j as int)),
            decreases end - j,
        {
            out.push(self.nodes[j].entity);
            j += 1;
            assert(out@ =~= entities(self@.subrange(i as int, j as int)));
        }
        out
    }

    /// All entities of the tree, in document order.
    pub fn entities(&self) -> (r: Vec<Entity>)
        ensures
            r@ == entities(self@),
    {
        let mut out: Vec<Entity> = Vec::new();
        let mut j: usize = 0;
        while j < self.nodes.len()
            invariant
                j <= self.nodes.len(),
                out@ == entities(self@.subrange(0, j as int)),
            decreases self.nodes.len() - j,
        {
            out.push(self.nodes[j].entity);
            j += 1;
            assert(out@ =~= entities(self@.subrange(0, j as int)));
        }
        assert(self@.subrange(0, self@.len() as int) =~= self@);
        out
    }
}

/// The entities that a cut takes out are those of the outline that stand
/// within the cut.
proof fn lemma_gone(s: Seq<Node>, from: int, to: int, gone: Seq<Entity>)
    requires
        well_formed(s),
        0 <= from <= to <= s.len(),
        gone == entities(s.subrange(from, to)),
    ensures
        forall|x: Entity| gone.contains(x) <==> (contains(s, x) && from <= index_of(s, x) < to),
        forall|k: int| 0 <= k < gone.len() ==> contains(s, #[trigger] gone[k]),
{
    assert forall|x: Entity| gone.contains(x) <==> (contains(s, x) && from <= index_of(s, x) < to) by {
        if gone.contains(x) {
            let g = choose|g: int| 0 <= g < gone.len() && gone[g] == x;
            assert(s[from + g].entity == x);
            lemma_index_of(s, from + g);
        }
        if contains(s, x) && from <= index_of(s, x) < to {
            assert(gone[index_of(s, x) - from] == x);
        }
    }
    assert forall|k: int| 0 <= k < gone.len() implies contains(s, #[trigger] gone[k]) by {
        assert(s[from + k].entity == gone[k]);
    }
}

} // verus!
