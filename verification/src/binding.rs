//! Bindings between data and views: lenses, their observers, and which
//! observers have to render again.

use vstd::prelude::*;
use crate::entity::Entity;

verus! {

/// Values that can tell whether they are the same as another value of their
/// type. Lenses use it to decide whether what they project has changed; the
/// comparison goes by what the values hold, never by where they are kept.
pub trait Data: Sized {
    /// Whether the two values are the same.
    spec fn same_spec(&self, other: &Self) -> bool;

    /// Whether the two values are the same.
    fn same(&self, other: &Self) -> (b: bool)
        ensures
            b == self.same_spec(other),
    ;
}

impl Data for bool {
    open spec fn same_spec(&self, other: &Self) -> bool {
        *self == *other
    }

    fn same(&self, other: &Self) -> (b: bool) {
        *self == *other
    }
}

impl Data for u32 {
    open spec fn same_spec(&self, other: &Self) -> bool {
        *self == *other
    }

    fn same(&self, other: &Self) -> (b: bool) {
        *self == *other
    }
}

impl Data for u64 {
    open spec fn same_spec(&self, other: &Self) -> bool {
        *self == *other
    }

    fn same(&self, other: &Self) -> (b: bool) {
        *self == *other
    }
}

impl Data for i32 {
    open spec fn same_spec(&self, other: &Self) -> bool {
        *self == *other
    }

    fn same(&self, other: &Self) -> (b: bool) {
        *self == *other
    }
}

impl Data for i64 {
    open spec fn same_spec(&self, other: &Self) -> bool {
        *self == *other
    }

    fn same(&self, other: &Self) -> (b: bool) {
        *self == *other
    }
}

impl Data for usize {
    open spec fn same_spec(&self, other: &Self) -> bool {
        *self == *other
    }

    fn same(&self, other: &Self) -> (b: bool) {
        *self == *other
    }
}

impl Data for char {
    open spec fn same_spec(&self, other: &Self) -> bool {
        *self == *other
    }

    fn same(&self, other: &Self) -> (b: bool) {
        *self == *other
    }
}

impl Data for Entity {
    open spec fn same_spec(&self, other: &Self) -> bool {
        *self == *other
    }

    fn same(&self, other: &Self) -> (b: bool) {
        *self == *other
    }
}

/// What a lens remembers from one frame to the next: the value that it
/// projected last.
pub struct Lens<V> {
    /// The value of the frame before; none before the first update.
    pub last: Option<V>,
}

impl<V: Data> Lens<V> {
    /// A lens that has projected nothing yet.
    pub fn new() -> (l: Lens<V>)
        ensures
            l.last is None,
    {
        Lens { last: None }
    }

    /// Whether `value` counts as a change after `last`: it does where there
    /// was no value before, or where the two are not the same.
    pub open spec fn changes(last: Option<V>, value: V) -> bool {
        match last {
            Some(before) => !value.same_spec(&before),
            None => true,
        }
    }

    /// Takes the value that the lens projects in this frame and says whether
    /// it has changed since the frame before. A changed value is remembered
    /// in place of the earlier one.
    pub fn update(&mut self, value: V) -> (changed: bool)
        ensures
            changed == Self::changes(old(self).last, value),
            final(self).last == (if changed {
                Some(value)
            } else {
                old(self).last
            }),
    {
        let changed: bool = match &self.last {
            Some(before) => !value.same(before),
            None => true,
        };
        if changed {
            self.last = Some(value);
        }
        changed
    }
}

/// `acc` with `e` at its end, unless `acc` holds it already.
pub open spec fn with_new(acc: Seq<Entity>, e: Entity) -> Seq<Entity> {
    if acc.contains(e) {
        acc
    } else {
        acc.push(e)
    }
}

/// `acc` followed by the first `n` entities of `list` that it does not hold
/// yet, each once.
pub open spec fn merged(acc: Seq<Entity>, list: Seq<Entity>, n: int) -> Seq<Entity>
    decreases n,
{
    if n <= 0 {
        acc
    } else {
        with_new(merged(acc, list, n - 1), list[n - 1])
    }
}

/// The observers of the first `n` lenses that `changed` names, each once, in
/// the order in which they first occur. A number that names no lens adds
/// nothing.
pub open spec fn scheduled(lenses: Seq<Seq<Entity>>, changed: Seq<usize>, n: int) -> Seq<Entity>
    decreases n,
{
    if n <= 0 {
        Seq::empty()
    } else {
        let acc = scheduled(lenses, changed, n - 1);
        let lens = changed[n - 1] as int;
        if lens < lenses.len() {
            merged(acc, lenses[lens], lenses[lens].len() as int)
        } else {
            acc
        }
    }
}

/// Whether `e` is among the first `n` entities of `list`.
pub open spec fn among(list: Seq<Entity>, n: int, e: Entity) -> bool {
    exists|k: int| 0 <= k < n && #[trigger] list[k] == e
}

/// Merging adds no entity twice and exactly the entities of the list.
pub proof fn lemma_merged(acc: Seq<Entity>, list: Seq<Entity>, n: int)
    requires
        acc.no_duplicates(),
        0 <= n <= list.len(),
    ensures
        merged(acc, list, n).no_duplicates(),
        forall|e: Entity| #[trigger] merged(acc, list, n).contains(e) <==> (acc.contains(e) || among(list, n, e)),
    decreases n,
{
    if n > 0 {
        lemma_merged(acc, list, n - 1);
        let m = merged(acc, list, n - 1);
        let e0 = list[n - 1];
        let r = with_new(m, e0);
        assert forall|e: Entity| r.contains(e) <==> (m.contains(e) || e == e0) by {
            if !m.contains(e0) {
                assert(r[m.len() as int] == e0);
                if r.contains(e) {
                    let i = choose|i: int| 0 <= i < r.len() && r[i] == e;
                    if i < m.len() {
                        assert(m[i] == e);
                    }
                }
                if m.contains(e) {
                    let i = choose|i: int| 0 <= i < m.len() && m[i] == e;
                    assert(r[i] == e);
                }
            }
        }
        assert forall|e: Entity| #[trigger] r.contains(e) <==> (acc.contains(e) || among(list, n, e)) by {
            assert(m.contains(e) <==> (acc.contains(e) || among(list, n - 1, e)));
            if among(list, n, e) {
                let k = choose|k: int| 0 <= k < n && #[trigger] list[k] == e;
                if k < n - 1 {
                    assert(among(list, n - 1, e));
                }
            }
            if among(list, n - 1, e) {
                let k = choose|k: int| 0 <= k < n - 1 && #[trigger] list[k] == e;
                assert(0 <= k < n && list[k] == e);
            }
            if e == e0 {
                assert(0 <= n - 1 < n && list[n - 1] == e);
            }
        }
    }
}

/// Whether one of the first `n` lenses that `changed` names has `e` among
/// its observers.
pub open spec fn observes_changed(lenses: Seq<Seq<Entity>>, changed: Seq<usize>, n: int, e: Entity) -> bool {
    exists|k: int|
        0 <= k < n && changed[k] < lenses.len() && (#[trigger] lenses[changed[k] as int]).contains(e)
}

/// The schedule names no entity twice, and names exactly the observers of
/// the lenses that changed.
pub proof fn lemma_scheduled(lenses: Seq<Seq<Entity>>, changed: Seq<usize>, n: int)
    requires
        0 <= n <= changed.len(),
    ensures
        scheduled(lenses, changed, n).no_duplicates(),
        forall|e: Entity|
            scheduled(lenses, changed, n).contains(e) <==> observes_changed(lenses, changed, n, e),
    decreases n,
{
    if n > 0 {
        lemma_scheduled(lenses, changed, n - 1);
        let acc = scheduled(lenses, changed, n - 1);
        let lens = changed[n - 1] as int;
        let r = scheduled(lenses, changed, n);
        if lens < lenses.len() {
            let list = lenses[lens];
            lemma_merged(acc, list, list.len() as int);
        }
        assert forall|e: Entity| r.contains(e) <==> observes_changed(lenses, changed, n, e) by {
            assert(acc.contains(e) <==> observes_changed(lenses, changed, n - 1, e));
            if observes_changed(lenses, changed, n, e) {
                let k = choose|k: int|
                    0 <= k < n && changed[k] < lenses.len() && (#[trigger] lenses[changed[k] as int]).contains(e);
                if k < n - 1 {
                    assert(0 <= k < n - 1 && changed[k] < lenses.len() && lenses[changed[k] as int].contains(e));
                    assert(observes_changed(lenses, changed, n - 1, e));
                    assert(acc.contains(e));
                } else {
                    let list = lenses[lens];
                    assert(list.contains(e));
                    let i = choose|i: int| 0 <= i < list.len() && list[i] == e;
                    assert(among(list, list.len() as int, e));
                }
                assert(r.contains(e));
            }
            if r.contains(e) {
                if acc.contains(e) {
                    assert(observes_changed(lenses, changed, n - 1, e));
                    let k = choose|k: int|
                        0 <= k < n - 1 && changed[k] < lenses.len()
                            && (#[trigger] lenses[changed[k] as int]).contains(e);
                    assert(0 <= k < n && changed[k] < lenses.len() && lenses[changed[k] as int].contains(e));
                } else {
                    assert(lens < lenses.len());
                    let list = lenses[lens];
                    assert(among(list, list.len() as int, e));
                    let i = choose|i: int| 0 <= i < list.len() && #[trigger] list[i] == e;
                    assert(list.contains(e));
                    assert(0 <= n - 1 < n && changed[n - 1] < lenses.len() && lenses[changed[n - 1] as int].contains(e));
                }
                assert(observes_changed(lenses, changed, n, e));
            }
        }
    } else {
        assert forall|e: Entity| !scheduled(lenses, changed, n).contains(e) by {}
    }
}

/// The first `n` entities of `list` without `e`, in their order.
pub open spec fn without(list: Seq<Entity>, e: Entity, n: int) -> Seq<Entity>
    decreases n,
{
    if n <= 0 {
        Seq::empty()
    } else if list[n - 1] == e {
        without(list, e, n - 1)
    } else {
        without(list, e, n - 1).push(list[n - 1])
    }
}

/// Taking an entity out of a list leaves the others, and leaves no entity
/// twice where none was there twice.
pub proof fn lemma_without(list: Seq<Entity>, e: Entity, n: int)
    requires
        0 <= n <= list.len(),
    ensures
        forall|x: Entity| #[trigger] without(list, e, n).contains(x) <==> (x != e && among(list, n, x)),
        list.no_duplicates() ==> without(list, e, n).no_duplicates(),
        !list.contains(e) && n == list.len() ==> without(list, e, n) == list,
    decreases n,
{
    if n > 0 {
        lemma_without(list, e, n - 1);
        let m = without(list, e, n - 1);
        let r = without(list, e, n);
        let last = list[n - 1];
        assert forall|x: Entity| #[trigger] r.contains(x) <==> (x != e && among(list, n, x)) by {
            assert(m.contains(x) <==> (x != e && among(list, n - 1, x)));
            if among(list, n, x) {
                let k = choose|k: int| 0 <= k < n && #[trigger] list[k] == x;
                if k < n - 1 {
                    assert(among(list, n - 1, x));
                }
            }
            if among(list, n - 1, x) {
                let k = choose|k: int| 0 <= k < n - 1 && #[trigger] list[k] == x;
                assert(0 <= k < n && list[k] == x);
            }
            if x == last {
                assert(0 <= n - 1 < n && list[n - 1] == x);
            }
            if last != e {
                assert(r[m.len() as int] == last);
                if r.contains(x) {
                    let i = choose|i: int| 0 <= i < r.len() && r[i] == x;
                    if i < m.len() {
                        assert(m[i] == x);
                    }
                }
                if m.contains(x) {
                    let i = choose|i: int| 0 <= i < m.len() && m[i] == x;
                    assert(r[i] == x);
                }
            }
        }
        if list.no_duplicates() && last != e {
            if m.contains(last) {
                assert(among(list, n - 1, last));
                let k = choose|k: int| 0 <= k < n - 1 && #[trigger] list[k] == last;
                assert(list[k] == list[n - 1]);
            }
        }
        if !list.contains(e) && n == list.len() {
            lemma_without_keeps(list, e, n);
        }
    } else {
        assert forall|x: Entity| !(#[trigger] without(list, e, n).contains(x)) by {}
        if n == list.len() {
            assert(without(list, e, n) =~= list);
        }
    }
}

/// `list` without the first `k` entities of `gone`.
pub open spec fn stripped(list: Seq<Entity>, gone: Seq<Entity>, k: int) -> Seq<Entity>
    decreases k,
{
    if k <= 0 {
        list
    } else {
        let rest = stripped(list, gone, k - 1);
        without(rest, gone[k - 1], rest.len() as int)
    }
}

/// The observers of every lens without the entities of `gone`.
pub open spec fn all_stripped(lenses: Seq<Seq<Entity>>, gone: Seq<Entity>) -> Seq<Seq<Entity>> {
    Seq::new(lenses.len(), |i: int| stripped(lenses[i], gone, gone.len() as int))
}

/// Taking out an entity that a list does not hold leaves the list as it is.
proof fn lemma_without_keeps(list: Seq<Entity>, e: Entity, n: int)
    requires
        0 <= n <= list.len(),
        !list.contains(e),
    ensures
        without(list, e, n) == list.take(n),
    decreases n,
{
    if n > 0 {
        lemma_without_keeps(list, e, n - 1);
        assert(list[n - 1] != e);
        assert(list.take(n - 1).push(list[n - 1]) =~= list.take(n));
    } else {
        assert(list.take(0) =~= Seq::<Entity>::empty());
    }
    if n == list.len() {
        assert(list.take(n) =~= list);
    }
}

/// Whether `e` is among the observers of some lens.
pub open spec fn observed(lenses: Seq<Seq<Entity>>, e: Entity) -> bool {
    exists|i: int| 0 <= i < lenses.len() && (#[trigger] lenses[i]).contains(e)
}

/// Whether no lens has an observer twice.
pub open spec fn observers_distinct(lenses: Seq<Seq<Entity>>) -> bool {
    forall|i: int| 0 <= i < lenses.len() ==> (#[trigger] lenses[i]).no_duplicates()
}

/// Which entities observe which lens.
///
/// The view is the list of observers of each lens, lenses numbered from
/// zero in the order in which they were added.
pub struct Bindings {
    lenses: Vec<Vec<Entity>>,
}

impl View for Bindings {
    type V = Seq<Seq<Entity>>;

    closed spec fn view(&self) -> Seq<Seq<Entity>> {
        Seq::new(self.lenses@.len(), |i: int| self.lenses@[i]@)
    }
}

impl Bindings {
    /// The invariant: no lens has an observer twice.
    #[verifier::inline]
    pub open spec fn wf(&self) -> bool {
        observers_distinct(self@)
    }

    /// Whether `entity` observes some lens.
    #[verifier::inline]
    pub open spec fn observes(&self, entity: Entity) -> bool {
        observed(self@, entity)
    }

    /// No lenses.
    pub fn new() -> (b: Bindings)
        ensures
            b.wf(),
            b@ == Seq::<Seq<Entity>>::empty(),
    {
        let b = Bindings { lenses: Vec::new() };
        assert(b@ =~= Seq::<Seq<Entity>>::empty());
        b
    }

    /// The number of lenses.
    pub fn len(&self) -> (n: usize)
        ensures
            n == self@.len(),
    {
        self.lenses.len()
    }

    /// Adds a lens without observers and returns its number.
    pub fn add_lens(&mut self) -> (lens: usize)
        requires
            old(self).wf(),
        ensures
            final(self).wf(),
            lens == old(self)@.len(),
            final(self)@ == old(self)@.push(Seq::<Entity>::empty()),
    {
        let lens: usize = self.lenses.len();
        self.lenses.push(Vec::new());
        assert(self@ =~= old(self)@.push(Seq::<Entity>::empty()));
        lens
    }

    /// Makes `observer` an observer of `lens`, unless it is one already.
    /// Returns whether there is such a lens; without one nothing changes.
    pub fn bind(&mut self, lens: usize, observer: Entity) -> (known: bool)
        requires
            old(self).wf(),
        ensures
            final(self).wf(),
            known == (lens < old(self)@.len()),
            known ==> final(self)@ == old(self)@.update(lens as int, with_new(old(self)@[lens as int], observer)),
            !known ==> final(self)@ == old(self)@,
    {
        if lens >= self.lenses.len() {
            return false;
        }
        let mut j: usize = 0;
        let mut found: bool = false;
        while j < self.lenses[lens].len()
            invariant
                lens < self.lenses.len(),
                j <= self.lenses@[lens as int].len(),
                found <==> exists|k: int| 0 <= k < j && self.lenses@[lens as int]@[k] == observer,
            decreases self.lenses@[lens as int].len() - j,
        {
            if self.lenses[lens][j] == observer {
                found = true;
            }
            j += 1;
        }
        if !found {
            let mut list: Vec<Entity> = Vec::new();
            std::mem::swap(&mut list, &mut self.lenses[lens]);
            list.push(observer);
            self.lenses.set(lens, list);
        }
        proof {
            let before = old(self)@[lens as int];
            assert(found <==> before.contains(observer));
            assert(self@ =~= old(self)@.update(lens as int, with_new(before, observer)));
            assert forall|i: int| 0 <= i < self@.len() implies (#[trigger] self@[i]).no_duplicates() by {
                if i != lens {
                    assert(self@[i] == old(self)@[i]);
                } else {
                    assert(old(self)@[i].no_duplicates());
                }
            }
        }
        true
    }

    /// The observers of `lens`, in the order in which they were bound; none
    /// where there is no such lens.
    pub fn observers(&self, lens: usize) -> (r: Vec<Entity>)
        ensures
            lens < self@.len() ==> r@ == self@[lens as int],
            lens >= self@.len() ==> r@ == Seq::<Entity>::empty(),
    {
        let mut out: Vec<Entity> = Vec::new();
        if lens < self.lenses.len() {
            let mut j: usize = 0;
            while j < self.lenses[lens].len()
                invariant
                    lens < self.lenses.len(),
                    j <= self.lenses@[lens as int].len(),
                    out@ == self.lenses@[lens as int]@.take(j as int),
                decreases self.lenses@[lens as int].len() - j,
            {
                out.push(self.lenses[lens][j]);
                j += 1;
                assert(out@ =~= self.lenses@[lens as int]@.take(j as int));
            }
            assert(out@ =~= self@[lens as int]);
        }
        out
    }

    /// Takes `entity` out of the observers of every lens.
    pub fn unbind(&mut self, entity: Entity)
        requires
            old(self).wf(),
        ensures
            final(self).wf(),
            final(self)@.len() == old(self)@.len(),
            forall|i: int|
                0 <= i < old(self)@.len() ==> #[trigger] final(self)@[i] == without(
                    old(self)@[i],
                    entity,
                    old(self)@[i].len() as int,
                ),
            !final(self).observes(entity),
            forall|e: Entity| #[trigger] final(self).observes(e) ==> old(self).observes(e) && e != entity,
    {
        let mut i: usize = 0;
        while i < self.lenses.len()
            invariant
                i <= self.lenses.len(),
                self@.len() == old(self)@.len(),
                forall|k: int|
                    0 <= k < i ==> #[trigger] self@[k] == without(old(self)@[k], entity, old(self)@[k].len() as int),
                forall|k: int| i <= k < self@.len() ==> #[trigger] self@[k] == old(self)@[k],
            decreases self.lenses.len() - i,
        {
            let ghost list = self@[i as int];
            let mut kept: Vec<Entity> = Vec::new();
            let mut j: usize = 0;
            while j < self.lenses[i].len()
                invariant
                    i < self.lenses.len(),
                    list == self.lenses@[i as int]@,
                    j <= list.len(),
                    kept@ == without(list, entity, j as int),
                decreases list.len() - j,
            {
                let x: Entity = self.lenses[i][j];
                if x != entity {
                    kept.push(x);
                }
                j += 1;
            }
            let ghost before = self@;
            self.lenses.set(i, kept);
            proof {
                assert(self@ =~= before.update(i as int, without(list, entity, list.len() as int)));
            }
            i += 1;
        }
        proof {
            assert forall|k: int| 0 <= k < self@.len() implies (#[trigger] self@[k]).no_duplicates() by {
                lemma_without(old(self)@[k], entity, old(self)@[k].len() as int);
                assert(old(self)@[k].no_duplicates());
            }
            if self.observes(entity) {
                let k = choose|k: int| 0 <= k < self@.len() && (#[trigger] self@[k]).contains(entity);
                lemma_without(old(self)@[k], entity, old(self)@[k].len() as int);
            }
            assert forall|e: Entity| #[trigger] self.observes(e) implies old(self).observes(e) && e != entity by {
                let k = choose|k: int| 0 <= k < self@.len() && (#[trigger] self@[k]).contains(e);
                let list = old(self)@[k];
                lemma_without(list, entity, list.len() as int);
                assert(among(list, list.len() as int, e));
                let j = choose|j: int| 0 <= j < list.len() && #[trigger] list[j] == e;
                assert(list.contains(e));
            }
        }
    }

    /// The observers that have to render again when the lenses that
    /// `changed` names have changed: each once, in the order in which they
    /// first occur among the observers of those lenses.
    pub fn schedule(&self, changed: &Vec<usize>) -> (r: Vec<Entity>)
        ensures
            r@ == scheduled(self@, changed@, changed.len() as int),
    {
        let mut out: Vec<Entity> = Vec::new();
        let mut n: usize = 0;
        while n < changed.len()
            invariant
                n <= changed.len(),
                out@ == scheduled(self@, changed@, n as int),
            decreases changed.len() - n,
        {
            let lens: usize = changed[n];
            if lens < self.lenses.len() {
                let ghost acc = out@;
                let ghost list = self@[lens as int];
                let mut j: usize = 0;
                while j < self.lenses[lens].len()
                    invariant
                        lens < self.lenses.len(),
                        list == self.lenses@[lens as int]@,
                        j <= list.len(),
                        out@ == merged(acc, list, j as int),
                    decreases list.len() - j,
                {
                    let e: Entity = self.lenses[lens][j];
                    if !holds(&out, e) {
                        out.push(e);
                    }
                    j += 1;
                }
            }
            n += 1;
        }
        out
    }
}

/// Whether `list` holds `e`.
pub fn holds(list: &Vec<Entity>, e: Entity) -> (b: bool)
    ensures
        b == list@.contains(e),
{
    let mut i: usize = 0;
    while i < list.len()
        invariant
            i <= list.len(),
            forall|k: int| 0 <= k < i ==> list@[k] != e,
        decreases list.len() - i,
    {
        if list[i] == e {
            return true;
        }
        i += 1;
    }
    false
}

} // verus!
