//! The order in which the entities are drawn.

use vstd::prelude::*;
use crate::cache::{entry_in, CacheEntry, Display, Visibility};
use crate::context::Context;
use crate::entity::Entity;
use crate::outline::{entities, index_of, lemma_index_of, well_formed, Node};

verus! {

/// Whether `entity` is drawn: the root is not, for it is the window itself;
/// nor is an entity that is invisible, left out of layout, or of no opacity.
pub open spec fn drawable(cache: Map<u32, CacheEntry>, entity: Entity) -> bool {
    let entry = entry_in(cache, entity);
    &&& entity != Entity::spec_root()
    &&& entry.visibility != Visibility::Invisible
    &&& entry.display != Display::Gone
    &&& !entry.opacity.spec_is_zero()
}

/// Whether `a` is drawn before `b`: it is where its z-index is lower, or
/// where the two are equal and `a` comes first in the document.
pub open spec fn drawn_before(tree: Seq<Node>, cache: Map<u32, CacheEntry>, a: Entity, b: Entity) -> bool {
    let za = entry_in(cache, a).z_index;
    let zb = entry_in(cache, b).z_index;
    za < zb || (za == zb && index_of(tree, a) < index_of(tree, b))
}

/// Whether `list` names the entities among the first `n` of the document
/// that are drawn, each once, in the order in which they are drawn.
pub open spec fn is_draw_list(tree: Seq<Node>, cache: Map<u32, CacheEntry>, n: int, list: Seq<Entity>) -> bool {
    &&& forall|k: int|
        0 <= k < list.len() ==> 0 <= index_of(tree, #[trigger] list[k]) < n && tree[index_of(tree, list[k])].entity
            == list[k] && drawable(cache, list[k])
    &&& forall|i: int| 0 <= i < n && drawable(cache, (#[trigger] tree[i]).entity) ==> list.contains(tree[i].entity)
    &&& forall|k: int, l: int|
        0 <= k < l < list.len() ==> drawn_before(tree, cache, #[trigger] list[k], #[trigger] list[l])
}

impl Context {
    /// The entities to draw, in the order in which to draw them: sorted by
    /// their cached z-index, entities of one z-index in document order,
    /// without those that are not drawn.
    pub fn draw_list(&self) -> (list: Vec<Entity>)
        requires
            self.wf(),
        ensures
            is_draw_list(self@.tree, self@.cache, self@.tree.len() as int, list@),
    {
        let order: Vec<Entity> = self.tree.entities();
        let ghost tree = self@.tree;
        let ghost cache = self@.cache;
        let mut list: Vec<Entity> = Vec::new();
        let mut i: usize = 0;
        while i < order.len()
            invariant
                i <= order.len(),
                order@ == entities(tree),
                tree == self@.tree,
                cache == self@.cache,
                well_formed(tree),
                is_draw_list(tree, cache, i as int, list@),
            decreases order.len() - i,
        {
            let e: Entity = order[i];
            proof {
                lemma_index_of(tree, i as int);
            }
            if self.draws(e) {
                let z: i32 = self.cache.get_z_index(e);
                let mut p: usize = list.len();
                while p > 0 && self.cache.get_z_index(list[p - 1]) > z
                    invariant
                        p <= list.len(),
                        cache == self@.cache,
                        forall|k: int| p <= k < list.len() ==> entry_in(cache, #[trigger] list@[k]).z_index > z,
                    decreases p,
                {
                    p -= 1;
                }
                let ghost before = list@;
                list.insert(p, e);
                proof {
                    let after = list@;
                    assert forall|k: int| 0 <= k < after.len() implies (#[trigger] after[k]) == (if k < p {
                        before[k]
                    } else if k == p {
                        e
                    } else {
                        before[k - 1]
                    }) by {}
                    assert forall|k: int, l: int| 0 <= k < l < after.len() implies drawn_before(
                        tree,
                        cache,
                        #[trigger] after[k],
                        #[trigger] after[l],
                    ) by {
                        if l == p {
                            assert(after[k] == before[k]);
                            if p > 0 {
                                if k < p - 1 {
                                    assert(drawn_before(tree, cache, before[k], before[p - 1]));
                                }
                            }
                        } else if k == p {
                            assert(after[l] == before[l - 1]);
                        } else {
                            let ok = if k < p { k } else { k - 1 };
                            let ol = if l < p { l } else { l - 1 };
                            assert(drawn_before(tree, cache, before[ok], before[ol]));
                        }
                    }
                    assert forall|j: int| 0 <= j < i + 1 && drawable(cache, (#[trigger] tree[j]).entity) implies after.contains(
                        tree[j].entity,
                    ) by {
                        if j < i {
                            assert(before.contains(tree[j].entity));
                            let k = choose|k: int| 0 <= k < before.len() && before[k] == tree[j].entity;
                            if k < p {
                                assert(after[k] == tree[j].entity);
                            } else {
                                assert(after[k + 1] == tree[j].entity);
                            }
                        } else {
                            assert(after[p as int] == e);
                        }
                    }
                    assert forall|k: int| 0 <= k < after.len() implies 0 <= index_of(tree, #[trigger] after[k]) < i + 1
                        && tree[index_of(tree, after[k])].entity == after[k] && drawable(cache, after[k]) by {
                        if k < p {
                            assert(after[k] == before[k]);
                        } else if k > p {
                            assert(after[k] == before[k - 1]);
                        }
                    }
                }
            }
            i += 1;
        }
        list
    }

    /// Whether `entity` is drawn.
    pub fn draws(&self, entity: Entity) -> (b: bool)
        ensures
            b == drawable(self@.cache, entity),
    {
        let entry: CacheEntry = self.cache.get(entity);
        entity != Entity::root() && entry.visibility != Visibility::Invisible && entry.display != Display::Gone
            && !entry.opacity.is_zero()
    }
}

/// Whether `list` is in the order of drawing.
pub open spec fn in_draw_order(tree: Seq<Node>, cache: Map<u32, CacheEntry>, list: Seq<Entity>) -> bool {
    forall|k: int, l: int|
        0 <= k < l < list.len() ==> drawn_before(tree, cache, #[trigger] list[k], #[trigger] list[l])
}

/// Two lists in the order of drawing that name the same entities are one
/// list.
pub proof fn lemma_draw_order_unique(tree: Seq<Node>, cache: Map<u32, CacheEntry>, a: Seq<Entity>, b: Seq<Entity>)
    requires
        in_draw_order(tree, cache, a),
        in_draw_order(tree, cache, b),
        forall|x: Entity| a.contains(x) <==> b.contains(x),
    ensures
        a == b,
    decreases a.len(),
{
    if a.len() == 0 {
        if b.len() > 0 {
            assert(b.contains(b[0]));
        }
        assert(a =~= b);
    } else {
        let e = a[a.len() - 1];
        assert(a.contains(e));
        assert(b.contains(e));
        let kb = choose|k: int| 0 <= k < b.len() && b[k] == e;
        if kb < b.len() - 1 {
            let f = b[b.len() - 1];
            assert(drawn_before(tree, cache, b[kb], b[b.len() - 1]));
            assert(b.contains(f));
            assert(a.contains(f));
            let ka = choose|k: int| 0 <= k < a.len() && a[k] == f;
            if ka < a.len() - 1 {
                assert(drawn_before(tree, cache, a[ka], a[a.len() - 1]));
            }
            assert(false);
        }
        let a0 = a.drop_last();
        let b0 = b.drop_last();
        assert forall|x: Entity| a0.contains(x) <==> b0.contains(x) by {
            if a0.contains(x) {
                let k = choose|k: int| 0 <= k < a0.len() && a0[k] == x;
                assert(a[k] == x);
                assert(drawn_before(tree, cache, a[k], a[a.len() - 1]));
                assert(a.contains(x));
                assert(b.contains(x));
                let l = choose|l: int| 0 <= l < b.len() && b[l] == x;
                assert(b0[l] == x);
            }
            if b0.contains(x) {
                let k = choose|k: int| 0 <= k < b0.len() && b0[k] == x;
                assert(b[k] == x);
                assert(drawn_before(tree, cache, b[k], b[b.len() - 1]));
                assert(b.contains(x));
                assert(a.contains(x));
                let l = choose|l: int| 0 <= l < a.len() && a[l] == x;
                assert(a0[l] == x);
            }
        }
        assert forall|k: int, l: int| 0 <= k < l < a0.len() implies drawn_before(
            tree,
            cache,
            #[trigger] a0[k],
            #[trigger] a0[l],
        ) by {
            assert(drawn_before(tree, cache, a[k], a[l]));
        }
        assert forall|k: int, l: int| 0 <= k < l < b0.len() implies drawn_before(
            tree,
            cache,
            #[trigger] b0[k],
            #[trigger] b0[l],
        ) by {
            assert(drawn_before(tree, cache, b[k], b[l]));
        }
        lemma_draw_order_unique(tree, cache, a0, b0);
        assert(a =~= a0.push(e));
        assert(b =~= b0.push(e));
    }
}

/// The order of drawing is settled: two lists that both name the entities
/// to draw in the order of drawing are one list.
pub proof fn lemma_draw_list_unique(
    tree: Seq<Node>,
    cache: Map<u32, CacheEntry>,
    n: int,
    a: Seq<Entity>,
    b: Seq<Entity>,
)
    requires
        is_draw_list(tree, cache, n, a),
        is_draw_list(tree, cache, n, b),
    ensures
        a == b,
{
    assert forall|x: Entity| a.contains(x) <==> b.contains(x) by {
        if a.contains(x) {
            let k = choose|k: int| 0 <= k < a.len() && a[k] == x;
            let i = index_of(tree, a[k]);
            assert(drawable(cache, tree[i].entity));
        }
        if b.contains(x) {
            let k = choose|k: int| 0 <= k < b.len() && b[k] == x;
            let i = index_of(tree, b[k]);
            assert(drawable(cache, tree[i].entity));
        }
    }
    lemma_draw_order_unique(tree, cache, a, b);
}

} // verus!
