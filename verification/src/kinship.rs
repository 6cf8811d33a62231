//! What holds of ancestors and descendants in every tree, and of building
//! and removing subtrees.

use vstd::prelude::*;
use crate::entity::Entity;
use crate::outline::{
    added, ancestors_at, contains, emptied, in_subtree, index_of, lemma_added, lemma_cut, lemma_index_of,
    lemma_parent, lemma_removed, lemma_run_end, lemma_run_end_is, parent_at, parent_index, removed,
    shallower_before, subtree_end, well_formed, Node,
};

verus! {

/// Whether the entry at `a` is an ancestor of the entry at `x`: the parent
/// of `x`, or an ancestor of that parent.
pub open spec fn is_ancestor(s: Seq<Node>, a: int, x: int) -> bool
    decreases x,
{
    let p = parent_index(s, x);
    0 <= p < x && (p == a || is_ancestor(s, a, p))
}

/// An entry lies in the subtree of an earlier one exactly where every entry
/// from just behind the earlier one up to itself is deeper than the earlier
/// one.
pub proof fn lemma_in_subtree(s: Seq<Node>, a: int, x: int)
    requires
        0 <= a <= x < s.len(),
    ensures
        in_subtree(s, a, x) <==> (forall|k: int| a < k <= x ==> (#[trigger] s[k]).depth > s[a].depth),
{
    let d = s[a].depth as int;
    lemma_run_end(s, d, a + 1);
    let r = subtree_end(s, a);
    if forall|k: int| a < k <= x ==> (#[trigger] s[k]).depth > s[a].depth {
        if r <= x {
            assert(s[r].depth > s[a].depth);
        }
    }
}

/// An ancestor stands before its descendant.
pub proof fn lemma_ancestor_before(s: Seq<Node>, a: int, x: int)
    requires
        is_ancestor(s, a, x),
    ensures
        a < x,
    decreases x,
{
    let p = parent_index(s, x);
    if p != a {
        lemma_ancestor_before(s, a, p);
    }
}

/// The subtree of an entry holds the entry and its descendants, and
/// nothing else.
pub proof fn lemma_subtree_is_descendants(s: Seq<Node>, a: int, x: int)
    requires
        well_formed(s),
        0 <= a < s.len(),
        0 <= x < s.len(),
    ensures
        in_subtree(s, a, x) <==> (a == x || is_ancestor(s, a, x)),
    decreases x,
{
    if x <= a {
        if is_ancestor(s, a, x) {
            lemma_ancestor_before(s, a, x);
        }
        if x == a {
            lemma_in_subtree(s, a, x);
        }
    } else {
        lemma_parent(s, x);
        let p = parent_index(s, x);
        lemma_in_subtree(s, a, x);
        if a == p {
        } else if a > p {
            assert(s[a].depth >= s[x].depth);
            if is_ancestor(s, a, p) {
                lemma_ancestor_before(s, a, p);
            }
        } else {
            lemma_subtree_is_descendants(s, a, p);
            lemma_in_subtree(s, a, p);
            if in_subtree(s, a, p) {
                assert forall|k: int| a < k <= x implies (#[trigger] s[k]).depth > s[a].depth by {
                    if k > p && k < x {
                        assert(s[k].depth >= s[x].depth);
                    }
                    assert(s[p].depth > s[a].depth);
                }
            }
        }
    }
}

/// The ancestors that `ancestors_at` lists are the entities of the entries
/// that are ancestors.
pub proof fn lemma_ancestors_listed(s: Seq<Node>, a: int, x: int)
    requires
        well_formed(s),
        0 <= a < s.len(),
        0 <= x < s.len(),
    ensures
        ancestors_at(s, x).contains(s[a].entity) <==> is_ancestor(s, a, x),
    decreases x,
{
    let p = parent_index(s, x);
    if 0 <= p < x {
        lemma_ancestors_listed(s, a, p);
        let rest = ancestors_at(s, p);
        let all = ancestors_at(s, x);
        assert(all == seq![s[p].entity] + rest);
        if all.contains(s[a].entity) {
            let k = choose|k: int| 0 <= k < all.len() && all[k] == s[a].entity;
            if k == 0 {
                lemma_index_of(s, a);
                lemma_index_of(s, p);
            } else {
                assert(rest[k - 1] == s[a].entity);
            }
        }
        if p == a {
            assert(all[0] == s[a].entity);
        }
        if rest.contains(s[a].entity) {
            let k = choose|k: int| 0 <= k < rest.len() && rest[k] == s[a].entity;
            assert(all[k + 1] == s[a].entity);
        }
    }
}

/// Removing an entity removes the entity and every entity that has it among
/// its ancestors, and nothing else.
pub proof fn lemma_remove_takes_descendants(s: Seq<Node>, e: Entity, x: Entity)
    requires
        well_formed(s),
        contains(s, e),
        e != Entity::spec_root(),
        contains(s, x),
    ensures
        contains(removed(s, index_of(s, e)), x) <==> !(x == e || ancestors_at(s, index_of(s, x)).contains(e)),
{
    let i = index_of(s, e);
    let j = index_of(s, x);
    crate::outline::lemma_root_first(s);
    lemma_removed(s, i);
    lemma_subtree_is_descendants(s, i, j);
    lemma_ancestors_listed(s, i, j);
    lemma_index_of(s, i);
    lemma_index_of(s, j);
}

/// Parents are found among the entries before: two outlines that agree up
/// to a place find the same nearest shallower entry from any place before
/// it.
pub proof fn lemma_shallower_in_prefix(s: Seq<Node>, t: Seq<Node>, n: int, d: int, j: int)
    requires
        0 <= n <= s.len(),
        n <= t.len(),
        forall|k: int| 0 <= k < n ==> #[trigger] t[k] == s[k],
        j < n,
    ensures
        shallower_before(t, d, j) == shallower_before(s, d, j),
    decreases j + 1,
{
    if j >= 0 {
        assert(t[j] == s[j]);
        if s[j].depth >= d {
            lemma_shallower_in_prefix(s, t, n, d, j - 1);
        }
    }
}

/// Two outlines that agree up to a place give every entry before it the
/// same parent and the same ancestors.
pub proof fn lemma_kin_in_prefix(s: Seq<Node>, t: Seq<Node>, n: int, x: int)
    requires
        0 <= n <= s.len(),
        n <= t.len(),
        forall|k: int| 0 <= k < n ==> #[trigger] t[k] == s[k],
        0 <= x < n,
    ensures
        parent_index(t, x) == parent_index(s, x),
        parent_at(t, x) == parent_at(s, x),
        ancestors_at(t, x) == ancestors_at(s, x),
    decreases x,
{
    assert(t[x] == s[x]);
    lemma_shallower_in_prefix(s, t, n, s[x].depth as int, x - 1);
    let p = parent_index(s, x);
    if 0 <= p < x {
        assert(t[p] == s[p]);
        lemma_kin_in_prefix(s, t, n, p);
    }
}

/// An entity whose descendants are removed keeps its place, its parent and
/// its ancestors, and so does every entity before it in the document.
pub proof fn lemma_emptied_keeps_kin(s: Seq<Node>, i: int, x: int)
    requires
        well_formed(s),
        0 <= x <= i < s.len(),
    ensures
        emptied(s, i)[x] == s[x],
        parent_at(emptied(s, i), x) == parent_at(s, x),
        ancestors_at(emptied(s, i), x) == ancestors_at(s, x),
{
    lemma_cut(s, i, i + 1);
    lemma_run_end(s, s[i].depth as int, i + 1);
    lemma_kin_in_prefix(s, emptied(s, i), i + 1, x);
}

/// The entries of a chain of entities, each the only child of the one
/// before it, the first at depth `d`.
pub open spec fn ladder(chain: Seq<Entity>, d: int) -> Seq<Node> {
    Seq::new(chain.len(), |k: int| Node { entity: chain[k], depth: (d + k) as usize })
}

/// The outline after the entities of `chain` were added one below the
/// other: the first as the last child of `parent`, each further one as the
/// child of the one before it.
pub open spec fn nested(s: Seq<Node>, parent: Entity, chain: Seq<Entity>) -> Seq<Node>
    decreases chain.len(),
{
    if chain.len() == 0 {
        s
    } else {
        nested(added(s, chain[0], index_of(s, parent)), chain[0], chain.drop_first())
    }
}

/// Whether the entities of `chain` can be added to `s`: they are new to it,
/// differ from one another, are not the sentinel, and fit.
pub open spec fn fresh(s: Seq<Node>, chain: Seq<Entity>) -> bool {
    &&& chain.no_duplicates()
    &&& forall|k: int| 0 <= k < chain.len() ==> !contains(s, #[trigger] chain[k])
    &&& forall|k: int| 0 <= k < chain.len() ==> #[trigger] chain[k] != Entity::spec_null()
    &&& s.len() + chain.len() <= usize::MAX
}

/// Where nested entities end up: one behind the other, just behind the
/// subtree that `parent` had, each one level deeper than the one before.
pub proof fn lemma_nested(s: Seq<Node>, parent: Entity, chain: Seq<Entity>)
    requires
        well_formed(s),
        contains(s, parent),
        fresh(s, chain),
    ensures
        well_formed(nested(s, parent, chain)),
        nested(s, parent, chain) == s.subrange(0, subtree_end(s, index_of(s, parent))) + ladder(
            chain,
            s[index_of(s, parent)].depth + 1,
        ) + s.subrange(subtree_end(s, index_of(s, parent)), s.len() as int),
    decreases chain.len(),
{
    let p = index_of(s, parent);
    let q = subtree_end(s, p);
    let d = s[p].depth as int;
    lemma_run_end(s, d, p + 1);
    crate::outline::lemma_depth_bound(s, p);
    if chain.len() == 0 {
        assert(ladder(chain, d + 1) =~= Seq::<Node>::empty());
        assert(s =~= s.subrange(0, q) + ladder(chain, d + 1) + s.subrange(q, s.len() as int));
    } else {
        let c = chain[0];
        let rest = chain.drop_first();
        let s1 = added(s, c, p);
        lemma_added(s, c, p);
        assert(s1[q] == Node { entity: c, depth: (d + 1) as usize });
        lemma_index_of(s1, q);
        assert forall|k: int| 0 <= k < rest.len() implies !contains(s1, #[trigger] rest[k]) by {
            assert(rest[k] == chain[k + 1]);
            assert(!contains(s, chain[k + 1]));
            assert(chain[k + 1] != chain[0]);
        }
        assert forall|k: int| 0 <= k < rest.len() implies #[trigger] rest[k] != Entity::spec_null() by {
            assert(rest[k] == chain[k + 1]);
        }
        assert(rest.no_duplicates()) by {
            assert forall|k: int, l: int| 0 <= k < rest.len() && 0 <= l < rest.len() && k != l implies rest[k]
                != rest[l] by {
                assert(rest[k] == chain[k + 1] && rest[l] == chain[l + 1]);
            }
        }
        // The new entry has nothing below it yet.
        if q + 1 < s1.len() {
            assert(s1[q + 1] == s[q]);
        }
        lemma_run_end_is(s1, d + 1, q + 1, q + 1);
        lemma_nested(s1, c, rest);
        assert(ladder(chain, d + 1) =~= seq![Node { entity: c, depth: (d + 1) as usize }] + ladder(rest, d + 2));
        assert(s1.subrange(0, q + 1) =~= s.subrange(0, q) + seq![Node { entity: c, depth: (d + 1) as usize }]);
        assert(s1.subrange(q + 1, s1.len() as int) =~= s.subrange(q, s.len() as int));
        assert(nested(s, parent, chain) =~= s.subrange(0, q) + ladder(chain, d + 1) + s.subrange(
            q,
            s.len() as int,
        ));
    }
}

/// Building a chain of nested entities and then removing the topmost of
/// them gives back the tree as it was before: every entity of the chain is
/// gone again, and nothing else is.
pub proof fn lemma_nested_round_trip(s: Seq<Node>, parent: Entity, chain: Seq<Entity>)
    requires
        well_formed(s),
        contains(s, parent),
        fresh(s, chain),
        chain.len() > 0,
    ensures
        contains(nested(s, parent, chain), chain[0]),
        removed(nested(s, parent, chain), index_of(nested(s, parent, chain), chain[0])) == s,
        nested(s, parent, chain).len() == s.len() + chain.len(),
{
    let p = index_of(s, parent);
    let q = subtree_end(s, p);
    let d = s[p].depth as int;
    let t = nested(s, parent, chain);
    let n = chain.len() as int;
    lemma_nested(s, parent, chain);
    lemma_run_end(s, d, p + 1);
    crate::outline::lemma_depth_bound(s, p);
    assert(t[q] == ladder(chain, d + 1)[0]);
    assert(t[q].entity == chain[0]);
    lemma_index_of(t, q);
    assert forall|k: int| q + 1 <= k < q + n implies (#[trigger] t[k]).depth > t[q].depth by {
        assert(t[k] == ladder(chain, d + 1)[k - q]);
    }
    if q + n < t.len() {
        assert(t[q + n] == s[q]);
    }
    lemma_run_end_is(t, t[q].depth as int, q + 1, q + n);
    assert(removed(t, q) =~= s);
}

} // verus!
