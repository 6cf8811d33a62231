//! The tree as an outline: its entries in document order, each with its
//! depth. An entry's parent is the nearest entry before it that is one level
//! shallower; its subtree is the run of deeper entries that follows it.

use vstd::prelude::*;
use crate::entity::Entity;

verus! {

/// One entry of the outline.
#[derive(Clone, Copy, Debug, PartialEq, Eq, Structural)]
pub struct Node {
    pub entity: Entity,
    /// The number of ancestors of the entity.
    pub depth: usize,
}

/// Whether the entry at `i` lies below some earlier entry and at most one
/// level deeper than the entry before it.
pub open spec fn steps_down(s: Seq<Node>, i: int) -> bool {
    0 < s[i].depth <= s[i - 1].depth + 1
}

/// Whether `s` is the outline of a tree: it starts with the root at depth
/// zero, every later entry lies below some earlier one and at most one level
/// deeper than the entry before it, no entity occurs twice, and the sentinel
/// does not occur.
pub open spec fn well_formed(s: Seq<Node>) -> bool {
    &&& s.len() > 0
    &&& s[0] == (Node { entity: Entity::spec_root(), depth: 0 })
    &&& forall|i: int| 0 < i < s.len() ==> #[trigger] steps_down(s, i)
    &&& forall|i: int, j: int| 0 <= i < j < s.len() ==> (#[trigger] s[i]).entity != (#[trigger] s[j]).entity
    &&& forall|i: int| 0 <= i < s.len() ==> (#[trigger] s[i]).entity != Entity::spec_null()
}

/// Whether `e` occurs in the outline.
pub open spec fn contains(s: Seq<Node>, e: Entity) -> bool {
    exists|i: int| 0 <= i < s.len() && (#[trigger] s[i]).entity == e
}

/// The place of `e` in the outline, where it occurs.
pub open spec fn index_of(s: Seq<Node>, e: Entity) -> int {
    choose|i: int| 0 <= i < s.len() && (#[trigger] s[i]).entity == e
}

/// The entities of the outline, in document order.
pub open spec fn entities(s: Seq<Node>) -> Seq<Entity> {
    Seq::new(s.len(), |k: int| s[k].entity)
}

/// The first place from `j` on whose entry is not deeper than `d`, or the
/// length of the outline where there is none.
pub open spec fn run_end(s: Seq<Node>, d: int, j: int) -> int
    decreases s.len() - j,
{
    if 0 <= j < s.len() && s[j].depth > d {
        run_end(s, d, j + 1)
    } else {
        j
    }
}

/// The place just behind the subtree of the entry at `i`.
pub open spec fn subtree_end(s: Seq<Node>, i: int) -> int {
    run_end(s, s[i].depth as int, i + 1)
}

/// Whether the entry at `x` is the entry at `a` or lies in its subtree.
pub open spec fn in_subtree(s: Seq<Node>, a: int, x: int) -> bool {
    0 <= a <= x < subtree_end(s, a)
}

/// The nearest place from `j` backwards whose entry is shallower than `d`, or
/// -1 where there is none.
pub open spec fn shallower_before(s: Seq<Node>, d: int, j: int) -> int
    decreases j + 1,
{
    if j < 0 || j >= s.len() {
        -1
    } else if s[j].depth < d {
        j
    } else {
        shallower_before(s, d, j - 1)
    }
}

/// The place of the parent of the entry at `i`, or -1 for the root.
pub open spec fn parent_index(s: Seq<Node>, i: int) -> int {
    shallower_before(s, s[i].depth as int, i - 1)
}

/// The parent of the entry at `i`, if it has one.
pub open spec fn parent_at(s: Seq<Node>, i: int) -> Option<Entity> {
    let p = parent_index(s, i);
    if 0 <= p < i {
        Some(s[p].entity)
    } else {
        None
    }
}

/// The ancestors of the entry at `i`: its parent first, the root last.
pub open spec fn ancestors_at(s: Seq<Node>, i: int) -> Seq<Entity>
    decreases i,
{
    let p = parent_index(s, i);
    if 0 <= p < i {
        seq![s[p].entity] + ancestors_at(s, p)
    } else {
        Seq::empty()
    }
}

/// The entities among the places from `j` up to `end` that lie one level
/// below `d`, in document order.
pub open spec fn children_in(s: Seq<Node>, d: int, j: int, end: int) -> Seq<Entity>
    decreases end - j,
{
    if j < 0 || j >= end || j >= s.len() {
        Seq::empty()
    } else if s[j].depth == d + 1 {
        seq![s[j].entity] + children_in(s, d, j + 1, end)
    } else {
        children_in(s, d, j + 1, end)
    }
}

/// The children of the entry at `i`, in document order.
pub open spec fn children_at(s: Seq<Node>, i: int) -> Seq<Entity> {
    children_in(s, s[i].depth as int, i + 1, subtree_end(s, i))
}

/// The entry at `i` with its subtree, in document order.
pub open spec fn subtree_at(s: Seq<Node>, i: int) -> Seq<Entity> {
    entities(s.subrange(i, subtree_end(s, i)))
}

/// The outline with `e` added as the last child of the entry at `p`.
pub open spec fn added(s: Seq<Node>, e: Entity, p: int) -> Seq<Node> {
    s.insert(subtree_end(s, p), Node { entity: e, depth: (s[p].depth + 1) as usize })
}

/// The outline without the entries from `from` up to `to`.
pub open spec fn cut(s: Seq<Node>, from: int, to: int) -> Seq<Node> {
    s.subrange(0, from) + s.subrange(to, s.len() as int)
}

/// The outline without the entry at `i` and its subtree.
pub open spec fn removed(s: Seq<Node>, i: int) -> Seq<Node> {
    cut(s, i, subtree_end(s, i))
}

/// The outline without the subtree of the entry at `i`; the entry stays.
pub open spec fn emptied(s: Seq<Node>, i: int) -> Seq<Node> {
    cut(s, i + 1, subtree_end(s, i))
}

/// The descendants of the entry at `i`, in document order.
pub open spec fn descendants_at(s: Seq<Node>, i: int) -> Seq<Entity> {
    entities(s.subrange(i + 1, subtree_end(s, i)))
}

/// In a well-formed outline an entry below the root is at most one level
/// deeper than the entry before it.
pub proof fn lemma_step(s: Seq<Node>, i: int)
    requires
        well_formed(s),
        0 < i < s.len(),
    ensures
        0 < s[i].depth <= s[i - 1].depth + 1,
{
    assert(steps_down(s, i));
}

/// In a well-formed outline an entity has one place.
pub proof fn lemma_index_of(s: Seq<Node>, i: int)
    requires
        well_formed(s),
        0 <= i < s.len(),
    ensures
        contains(s, s[i].entity),
        index_of(s, s[i].entity) == i,
{
    let j = index_of(s, s[i].entity);
    assert(0 <= j < s.len() && s[j].entity == s[i].entity);
    if j < i {
        assert(s[j].entity != s[i].entity);
    } else if i < j {
        assert(s[i].entity != s[j].entity);
    }
}

/// The root is at place zero.
pub proof fn lemma_root_first(s: Seq<Node>)
    requires
        well_formed(s),
    ensures
        contains(s, Entity::spec_root()),
        index_of(s, Entity::spec_root()) == 0,
{
    lemma_index_of(s, 0);
}

/// What `run_end` finds: every entry before it, from `j` on, is deeper than
/// `d`, and the entry at it, if there is one, is not.
pub proof fn lemma_run_end(s: Seq<Node>, d: int, j: int)
    requires
        0 <= j <= s.len(),
    ensures
        j <= run_end(s, d, j) <= s.len(),
        forall|k: int| j <= k < run_end(s, d, j) ==> (#[trigger] s[k]).depth > d,
        run_end(s, d, j) < s.len() ==> s[run_end(s, d, j)].depth <= d,
    decreases s.len() - j,
{
    if j < s.len() && s[j].depth > d {
        lemma_run_end(s, d, j + 1);
    }
}

/// The place with the two properties of `lemma_run_end` is `run_end`.
pub proof fn lemma_run_end_is(s: Seq<Node>, d: int, j: int, r: int)
    requires
        0 <= j <= r <= s.len(),
        forall|k: int| j <= k < r ==> (#[trigger] s[k]).depth > d,
        r < s.len() ==> s[r].depth <= d,
    ensures
        run_end(s, d, j) == r,
    decreases r - j,
{
    if j < r {
        assert(s[j].depth > d);
        lemma_run_end_is(s, d, j + 1, r);
    }
}

/// What `shallower_before` finds: the entry at it is shallower than `d`, and
/// every entry behind it, up to `j`, is not.
pub proof fn lemma_shallower_before(s: Seq<Node>, d: int, j: int)
    requires
        -1 <= j < s.len(),
    ensures
        -1 <= shallower_before(s, d, j) <= j,
        shallower_before(s, d, j) >= 0 ==> s[shallower_before(s, d, j)].depth < d,
        forall|k: int| shallower_before(s, d, j) < k <= j ==> (#[trigger] s[k]).depth >= d,
    decreases j + 1,
{
    if j >= 0 && s[j].depth >= d {
        lemma_shallower_before(s, d, j - 1);
    }
}

/// The place with the properties of `lemma_shallower_before` is
/// `shallower_before`.
pub proof fn lemma_shallower_before_is(s: Seq<Node>, d: int, j: int, r: int)
    requires
        -1 <= r <= j < s.len(),
        r >= 0 ==> s[r].depth < d,
        forall|k: int| r < k <= j ==> (#[trigger] s[k]).depth >= d,
    ensures
        shallower_before(s, d, j) == r,
    decreases j - r,
{
    if r < j {
        assert(s[j].depth >= d);
        lemma_shallower_before_is(s, d, j - 1, r);
    }
}

/// An entry is no deeper than its place.
pub proof fn lemma_depth_bound(s: Seq<Node>, i: int)
    requires
        well_formed(s),
        0 <= i < s.len(),
    ensures
        s[i].depth <= i,
    decreases i,
{
    if i > 0 {
        lemma_depth_bound(s, i - 1);
        lemma_step(s, i);
    }
}

/// Every entry but the root has a parent: an earlier entry that is exactly
/// one level shallower, with nothing shallower than the entry in between.
pub proof fn lemma_parent(s: Seq<Node>, i: int)
    requires
        well_formed(s),
        0 < i < s.len(),
    ensures
        0 <= parent_index(s, i) < i,
        s[parent_index(s, i)].depth + 1 == s[i].depth,
        forall|k: int| parent_index(s, i) < k < i ==> (#[trigger] s[k]).depth >= s[i].depth,
        in_subtree(s, parent_index(s, i), i),
{
    let d = s[i].depth as int;
    let p = parent_index(s, i);
    lemma_shallower_before(s, d, i - 1);
    lemma_step(s, i);
    if p < 0 {
        assert(s[0].depth >= d);
    }
    assert(s[p + 1].depth >= d);
    lemma_step(s, p + 1);
    assert forall|k: int| p + 1 <= k < i + 1 implies (#[trigger] s[k]).depth > s[p].depth by {}
    lemma_run_end(s, s[p].depth as int, p + 1);
    let r = run_end(s, s[p].depth as int, p + 1);
    if r <= i {
        assert(s[r].depth > s[p].depth);
    }
}

/// The root has no parent.
pub proof fn lemma_root_has_no_parent(s: Seq<Node>)
    requires
        well_formed(s),
    ensures
        parent_index(s, 0) == -1,
        parent_at(s, 0) == None::<Entity>,
        ancestors_at(s, 0) == Seq::<Entity>::empty(),
{
}

/// The entries of the outline after an insertion at `q`.
proof fn lemma_insert_entries(s: Seq<Node>, q: int, n: Node)
    requires
        0 <= q <= s.len(),
    ensures
        s.insert(q, n).len() == s.len() + 1,
        forall|k: int|
            0 <= k < s.len() + 1 ==> (#[trigger] s.insert(q, n)[k]) == (if k < q {
                s[k]
            } else if k == q {
                n
            } else {
                s[k - 1]
            }),
{
}

/// Adding an entity that is new to the outline under an entry of it gives a
/// well-formed outline, which holds the new entity and what was there.
pub proof fn lemma_added(s: Seq<Node>, e: Entity, p: int)
    requires
        well_formed(s),
        0 <= p < s.len(),
        !contains(s, e),
        e != Entity::spec_null(),
        s.len() < usize::MAX,
    ensures
        well_formed(added(s, e, p)),
        p < subtree_end(s, p) <= s.len(),
        added(s, e, p).len() == s.len() + 1,
        added(s, e, p)[subtree_end(s, p)].entity == e,
        forall|x: Entity| contains(added(s, e, p), x) <==> (x == e || contains(s, x)),
{
    let q = subtree_end(s, p);
    let n = Node { entity: e, depth: (s[p].depth + 1) as usize };
    let t = s.insert(q, n);
    lemma_run_end(s, s[p].depth as int, p + 1);
    lemma_depth_bound(s, p);
    lemma_insert_entries(s, q, n);
    assert(t == added(s, e, p));
    assert(n.depth == s[p].depth + 1);
    assert(t[0] == s[0]);
    assert forall|i: int| 0 < i < t.len() implies #[trigger] steps_down(t, i) by {
        if i < q {
            lemma_step(s, i);
        } else if i == q {
            if q - 1 > p {
                assert(s[q - 1].depth > s[p].depth);
            }
        } else if i == q + 1 {
            lemma_step(s, q);
        } else {
            lemma_step(s, i - 1);
        }
    }
    assert forall|i: int, j: int| 0 <= i < j < t.len() implies (#[trigger] t[i]).entity != (#[trigger] t[j]).entity by {
        let oi = if i < q { i } else { i - 1 };
        let oj = if j < q { j } else { j - 1 };
        if i == q {
            assert(s[oj].entity != e);
        } else if j == q {
            assert(s[oi].entity != e);
        } else {
            assert(s[oi].entity != s[oj].entity);
        }
    }
    assert forall|i: int| 0 <= i < t.len() implies (#[trigger] t[i]).entity != Entity::spec_null() by {
        if i < q {
            assert(s[i].entity != Entity::spec_null());
        } else if i > q {
            assert(s[i - 1].entity != Entity::spec_null());
        }
    }
    assert forall|x: Entity| contains(t, x) <==> (x == e || contains(s, x)) by {
        if contains(t, x) {
            let i = index_of(t, x);
            if i < q {
                assert(s[i].entity == x);
            } else if i > q {
                assert(s[i - 1].entity == x);
            }
        }
        if x == e {
            assert(t[q].entity == e);
        }
        if contains(s, x) {
            let i = index_of(s, x);
            if i < q {
                assert(t[i].entity == x);
            } else {
                assert(t[i + 1].entity == x);
            }
        }
    }
}

/// Cutting the subtree of an entry out of the outline, with the entry
/// itself or without it, gives a well-formed outline, which holds what was
/// there outside the cut, each at the depth it had.
pub proof fn lemma_cut(s: Seq<Node>, i: int, from: int)
    requires
        well_formed(s),
        0 <= i < s.len(),
        from == i || from == i + 1,
        0 < from,
    ensures
        well_formed(cut(s, from, subtree_end(s, i))),
        i < subtree_end(s, i) <= s.len(),
        cut(s, from, subtree_end(s, i)).len() == s.len() - (subtree_end(s, i) - from),
        forall|x: Entity|
            #[trigger] contains(cut(s, from, subtree_end(s, i)), x) <==> (contains(s, x) && !(from <= index_of(s, x)
                < subtree_end(s, i))),
        forall|k: int| 0 <= k < from ==> #[trigger] cut(s, from, subtree_end(s, i))[k] == s[k],
{
    let end = subtree_end(s, i);
    let t = cut(s, from, end);
    let gap = end - from;
    lemma_run_end(s, s[i].depth as int, i + 1);
    assert forall|k: int| 0 <= k < t.len() implies (#[trigger] t[k]) == s[if k < from { k } else { k + gap }] by {}
    assert forall|k: int| 0 < k < t.len() implies #[trigger] steps_down(t, k) by {
        if k < from {
            assert(t[k] == s[k] && t[k - 1] == s[k - 1]);
            lemma_step(s, k);
        } else if k == from {
            assert(t[k] == s[end] && t[k - 1] == s[from - 1]);
            if from == i {
                lemma_step(s, i);
            }
            lemma_step(s, end);
        } else {
            assert(t[k] == s[k + gap] && t[k - 1] == s[k + gap - 1]);
            lemma_step(s, k + gap);
        }
    }
    assert forall|k: int, l: int| 0 <= k < l < t.len() implies (#[trigger] t[k]).entity != (#[trigger] t[l]).entity by {
        let ok = if k < from { k } else { k + gap };
        let ol = if l < from { l } else { l + gap };
        assert(t[k] == s[ok] && t[l] == s[ol]);
    }
    assert forall|k: int| 0 <= k < t.len() implies (#[trigger] t[k]).entity != Entity::spec_null() by {
        let ok = if k < from { k } else { k + gap };
        assert(t[k] == s[ok]);
    }
    assert(t[0] == s[0]);
    assert forall|x: Entity| #[trigger] contains(t, x) <==> (contains(s, x) && !(from <= index_of(s, x) < end)) by {
        if contains(t, x) {
            let k = index_of(t, x);
            let ok = if k < from { k } else { k + gap };
            assert(t[k] == s[ok]);
            lemma_index_of(s, ok);
        }
        if contains(s, x) && !(from <= index_of(s, x) < end) {
            let ok = index_of(s, x);
            if ok < from {
                assert(t[ok] == s[ok]);
            } else {
                assert(t[ok - gap] == s[ok]);
            }
        }
    }
}

/// Removing an entry other than the root, with its subtree, gives a
/// well-formed outline, which holds what was there outside that subtree.
pub proof fn lemma_removed(s: Seq<Node>, i: int)
    requires
        well_formed(s),
        0 < i < s.len(),
    ensures
        well_formed(removed(s, i)),
        i < subtree_end(s, i) <= s.len(),
        removed(s, i).len() == s.len() - (subtree_end(s, i) - i),
        forall|x: Entity|
            #[trigger] contains(removed(s, i), x) <==> (contains(s, x) && !in_subtree(s, i, index_of(s, x))),
{
    lemma_cut(s, i, i);
}

/// Removing the descendants of an entry gives a well-formed outline, in
/// which the entry stands where it stood and has no children.
pub proof fn lemma_emptied(s: Seq<Node>, i: int)
    requires
        well_formed(s),
        0 <= i < s.len(),
    ensures
        well_formed(emptied(s, i)),
        i < subtree_end(s, i) <= s.len(),
        emptied(s, i).len() == s.len() - (subtree_end(s, i) - i - 1),
        forall|x: Entity|
            #[trigger] contains(emptied(s, i), x) <==> (contains(s, x) && !(i < index_of(s, x) < subtree_end(s, i))),
        emptied(s, i)[i] == s[i],
        index_of(emptied(s, i), s[i].entity) == i,
        subtree_end(emptied(s, i), i) == i + 1,
        children_at(emptied(s, i), i) == Seq::<Entity>::empty(),
{
    lemma_cut(s, i, i + 1);
    let t = emptied(s, i);
    let end = subtree_end(s, i);
    lemma_run_end(s, s[i].depth as int, i + 1);
    assert(t[i] == s[i]);
    lemma_index_of(t, i);
    if i + 1 < t.len() {
        assert(t[i + 1] == s[end]);
    }
    lemma_run_end_is(t, t[i].depth as int, i + 1, i + 1);
}

/// The children among the places from `j` on, after an entry one level
/// below `d` was put in at `q`, are those of before with the new entity
/// behind them.
proof fn lemma_children_with_new(s: Seq<Node>, n: Node, d: int, j: int, q: int)
    requires
        0 <= j <= q <= s.len(),
        n.depth == d + 1,
    ensures
        children_in(s.insert(q, n), d, j, q + 1) == children_in(s, d, j, q).push(n.entity),
    decreases q - j,
{
    let t = s.insert(q, n);
    lemma_insert_entries(s, q, n);
    if j == q {
        assert(t[q] == n);
        assert(children_in(t, d, q + 1, q + 1) =~= Seq::<Entity>::empty());
        assert(children_in(s, d, q, q) =~= Seq::<Entity>::empty());
        assert(children_in(t, d, q, q + 1) =~= seq![n.entity]);
        assert(Seq::<Entity>::empty().push(n.entity) =~= seq![n.entity]);
    } else {
        lemma_children_with_new(s, n, d, j + 1, q);
        assert(t[j] == s[j]);
        let rest_t = children_in(t, d, j + 1, q + 1);
        let rest_s = children_in(s, d, j + 1, q);
        if s[j].depth == d + 1 {
            assert(seq![s[j].entity] + rest_s.push(n.entity) =~= (seq![s[j].entity] + rest_s).push(n.entity));
        }
    }
}

/// An entity that is added under a parent becomes the last of the children
/// of that parent; the children that were there keep their order.
pub proof fn lemma_added_child(s: Seq<Node>, e: Entity, p: int)
    requires
        well_formed(s),
        0 <= p < s.len(),
        !contains(s, e),
        e != Entity::spec_null(),
        s.len() < usize::MAX,
    ensures
        index_of(added(s, e, p), s[p].entity) == p,
        children_at(added(s, e, p), p) == children_at(s, p).push(e),
        parent_at(added(s, e, p), subtree_end(s, p)) == Some(s[p].entity),
{
    let q = subtree_end(s, p);
    let d = s[p].depth as int;
    let n = Node { entity: e, depth: (d + 1) as usize };
    let t = s.insert(q, n);
    lemma_run_end(s, d, p + 1);
    lemma_depth_bound(s, p);
    lemma_added(s, e, p);
    lemma_insert_entries(s, q, n);
    assert(t == added(s, e, p));
    assert(t[p] == s[p]);
    lemma_index_of(t, p);
    assert forall|k: int| p + 1 <= k < q + 1 implies (#[trigger] t[k]).depth > d by {
        if k < q {
            assert(s[k].depth > d);
        }
    }
    if q + 1 < t.len() {
        assert(t[q + 1] == s[q]);
    }
    lemma_run_end_is(t, d, p + 1, q + 1);
    lemma_children_with_new(s, n, d, p + 1, q);
    // The nearest shallower entry before the new one is the parent.
    assert forall|k: int| p < k <= q - 1 implies (#[trigger] t[k]).depth >= d + 1 by {
        assert(s[k].depth > d);
    }
    lemma_shallower_before_is(t, d + 1, q - 1, p);
}

/// Removing the descendants of the root leaves the root alone; what goes
/// is every other entity, in document order.
pub proof fn lemma_emptied_root(s: Seq<Node>)
    requires
        well_formed(s),
    ensures
        subtree_end(s, 0) == s.len(),
        emptied(s, 0) == seq![Node { entity: Entity::spec_root(), depth: 0 }],
        descendants_at(s, 0) == entities(s.subrange(1, s.len() as int)),
        index_of(s, Entity::spec_root()) == 0,
        contains(s, Entity::spec_root()),
{
    lemma_root_first(s);
    assert forall|k: int| 1 <= k < s.len() implies (#[trigger] s[k]).depth > 0 by {
        lemma_step(s, k);
    }
    lemma_run_end_is(s, 0, 1, s.len() as int);
    assert(emptied(s, 0) =~= seq![Node { entity: Entity::spec_root(), depth: 0 }]);
}

} // verus!
