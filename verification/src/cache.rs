//! The computed geometry and visual state of each entity.

use vstd::prelude::*;
use crate::entity::Entity;
use crate::geometry::{BoundingBox, Scalar, Transform};
use crate::storage::{SparseSet, StorageError};

verus! {

/// Whether an entity is shown.
#[derive(Clone, Copy, Debug, PartialEq, Eq, Structural)]
pub enum Visibility {
    Visible,
    Invisible,
}

/// Whether an entity takes part in layout.
#[derive(Clone, Copy, Debug, PartialEq, Eq, Structural)]
pub enum Display {
    /// The entity is laid out and drawn.
    Flex,
    /// The entity is left out of layout and drawing.
    Gone,
}

/// What is cached for one entity.
#[derive(Clone, Copy, Debug, PartialEq, Eq, Structural)]
pub struct CacheEntry {
    pub posx: Scalar,
    pub posy: Scalar,
    pub width: Scalar,
    pub height: Scalar,
    pub transform: Transform,
    pub clip_region: BoundingBox,
    pub opacity: Scalar,
    pub z_index: i32,
    pub visibility: Visibility,
    pub display: Display,
}

impl CacheEntry {
    /// The entry of an entity for which nothing was computed yet: every
    /// number zero, visible, taking part in layout.
    pub open spec fn spec_unset() -> CacheEntry {
        CacheEntry {
            posx: Scalar::spec_zero(),
            posy: Scalar::spec_zero(),
            width: Scalar::spec_zero(),
            height: Scalar::spec_zero(),
            transform: Transform::spec_zero(),
            clip_region: BoundingBox::spec_zero(),
            opacity: Scalar::spec_zero(),
            z_index: 0,
            visibility: Visibility::Visible,
            display: Display::Flex,
        }
    }

    /// The entry of an entity for which nothing was computed yet: every
    /// number zero, visible, taking part in layout.
    #[verifier::when_used_as_spec(spec_unset)]
    pub fn unset() -> (e: CacheEntry)
        ensures
            e == CacheEntry::spec_unset(),
    {
        CacheEntry {
            posx: Scalar::zero(),
            posy: Scalar::zero(),
            width: Scalar::zero(),
            height: Scalar::zero(),
            transform: Transform::zero(),
            clip_region: BoundingBox::zero(),
            opacity: Scalar::zero(),
            z_index: 0,
            visibility: Visibility::Visible,
            display: Display::Flex,
        }
    }
}

/// What the entries `m` say of `entity`: its entry, or the unset entry where
/// it has none.
pub open spec fn entry_in(m: Map<u32, CacheEntry>, entity: Entity) -> CacheEntry {
    if m.contains_key(entity.index) {
        m[entity.index]
    } else {
        CacheEntry::spec_unset()
    }
}

/// The entries `m` after `entry` was written for `entity`: writing to an
/// entity without an entry changes nothing.
pub open spec fn written_in(m: Map<u32, CacheEntry>, entity: Entity, entry: CacheEntry) -> Map<u32, CacheEntry> {
    if m.contains_key(entity.index) {
        m.insert(entity.index, entry)
    } else {
        m
    }
}

/// The cache: for each entity that has an entry, what the passes computed
/// for it.
///
/// The view of the cache is the map from the slots that have an entry to
/// their entries.
pub struct CachedData {
    entries: SparseSet<CacheEntry>,
}

impl View for CachedData {
    type V = Map<u32, CacheEntry>;

    closed spec fn view(&self) -> Map<u32, CacheEntry> {
        self.entries@
    }
}

impl CachedData {
    /// What the cache says of `entity`: its entry, or the unset entry where
    /// it has none.
    pub open spec fn entry(&self, entity: Entity) -> CacheEntry {
        entry_in(self@, entity)
    }

    /// The cache after `entry` was written for `entity`: writing to an entity
    /// without an entry changes nothing.
    pub open spec fn written(&self, entity: Entity, entry: CacheEntry) -> Map<u32, CacheEntry> {
        written_in(self@, entity, entry)
    }

    /// A cache without entries.
    pub fn new() -> (c: CachedData)
        ensures
            c@ == Map::<u32, CacheEntry>::empty(),
    {
        CachedData { entries: SparseSet::new() }
    }

    /// A cache that holds what this one holds: the geometry of one frame,
    /// kept to be held against that of the next.
    pub fn snapshot(&self) -> (c: CachedData)
        ensures
            c@ == self@,
    {
        CachedData { entries: self.entries.snapshot() }
    }

    /// Gives `entity` an unset entry, in place of the one it had.
    pub fn add(&mut self, entity: Entity) -> (r: Result<(), StorageError>)
        ensures
            entity.index == u32::MAX ==> r == Err::<(), StorageError>(StorageError::NullEntity) && final(self)@
                == old(self)@,
            entity.index != u32::MAX ==> r == Ok::<(), StorageError>(()) && final(self)@ == old(self)@.insert(
                entity.index,
                CacheEntry::spec_unset(),
            ),
    {
        self.entries.insert(entity, CacheEntry::unset())
    }

    /// Takes the entry of `entity` away.
    pub fn remove(&mut self, entity: Entity)
        ensures
            final(self)@ == old(self)@.remove(entity.index),
    {
        self.entries.remove(entity)
    }

    /// Whether `entity` has an entry.
    pub fn contains(&self, entity: Entity) -> (b: bool)
        ensures
            b == self@.contains_key(entity.index),
    {
        self.entries.contains(entity)
    }

    /// What the cache says of `entity`.
    pub fn get(&self, entity: Entity) -> (e: CacheEntry)
        ensures
            e == self.entry(entity),
    {
        match self.entries.get(entity) {
            Some(e) => *e,
            None => CacheEntry::unset(),
        }
    }

    /// Writes `entry` for `entity`, if it has an entry.
    pub fn set(&mut self, entity: Entity, entry: CacheEntry)
        ensures
            final(self)@ == old(self).written(entity, entry),
    {
        if self.entries.contains(entity) {
            let _ = self.entries.insert(entity, entry);
        }
    }
}

impl CachedData {
    /// The cached horizontal position of `entity`.
    pub fn get_posx(&self, entity: Entity) -> (v: Scalar)
        ensures
            v == self.entry(entity).posx,
    {
        self.get(entity).posx
    }

    /// Caches `value` as the horizontal position of `entity`, if it has an entry.
    pub fn set_posx(&mut self, entity: Entity, value: Scalar)
        ensures
            final(self)@ == old(self).written(entity, CacheEntry { posx: value, ..old(self).entry(entity) }),
    {
        let mut entry: CacheEntry = self.get(entity);
        entry.posx = value;
        self.set(entity, entry);
    }

    /// The cached vertical position of `entity`.
    pub fn get_posy(&self, entity: Entity) -> (v: Scalar)
        ensures
            v == self.entry(entity).posy,
    {
        self.get(entity).posy
    }

    /// Caches `value` as the vertical position of `entity`, if it has an entry.
    pub fn set_posy(&mut self, entity: Entity, value: Scalar)
        ensures
            final(self)@ == old(self).written(entity, CacheEntry { posy: value, ..old(self).entry(entity) }),
    {
        let mut entry: CacheEntry = self.get(entity);
        entry.posy = value;
        self.set(entity, entry);
    }

    /// The cached width of `entity`.
    pub fn get_width(&self, entity: Entity) -> (v: Scalar)
        ensures
            v == self.entry(entity).width,
    {
        self.get(entity).width
    }

    /// Caches `value` as the width of `entity`, if it has an entry.
    pub fn set_width(&mut self, entity: Entity, value: Scalar)
        ensures
            final(self)@ == old(self).written(entity, CacheEntry { width: value, ..old(self).entry(entity) }),
    {
        let mut entry: CacheEntry = self.get(entity);
        entry.width = value;
        self.set(entity, entry);
    }

    /// The cached height of `entity`.
    pub fn get_height(&self, entity: Entity) -> (v: Scalar)
        ensures
            v == self.entry(entity).height,
    {
        self.get(entity).height
    }

    /// Caches `value` as the height of `entity`, if it has an entry.
    pub fn set_height(&mut self, entity: Entity, value: Scalar)
        ensures
            final(self)@ == old(self).written(entity, CacheEntry { height: value, ..old(self).entry(entity) }),
    {
        let mut entry: CacheEntry = self.get(entity);
        entry.height = value;
        self.set(entity, entry);
    }

    /// The cached transform of `entity`.
    pub fn get_transform(&self, entity: Entity) -> (v: Transform)
        ensures
            v == self.entry(entity).transform,
    {
        self.get(entity).transform
    }

    /// Caches `value` as the transform of `entity`, if it has an entry.
    pub fn set_transform(&mut self, entity: Entity, value: Transform)
        ensures
            final(self)@ == old(self).written(entity, CacheEntry { transform: value, ..old(self).entry(entity) }),
    {
        let mut entry: CacheEntry = self.get(entity);
        entry.transform = value;
        self.set(entity, entry);
    }

    /// The cached clip rectangle of `entity`.
    pub fn get_clip_region(&self, entity: Entity) -> (v: BoundingBox)
        ensures
            v == self.entry(entity).clip_region,
    {
        self.get(entity).clip_region
    }

    /// Caches `value` as the clip rectangle of `entity`, if it has an entry.
    pub fn set_clip_region(&mut self, entity: Entity, value: BoundingBox)
        ensures
            final(self)@ == old(self).written(entity, CacheEntry { clip_region: value, ..old(self).entry(entity) }),
    {
        let mut entry: CacheEntry = self.get(entity);
        entry.clip_region = value;
        self.set(entity, entry);
    }

    /// The cached opacity of `entity`.
    pub fn get_opacity(&self, entity: Entity) -> (v: Scalar)
        ensures
            v == self.entry(entity).opacity,
    {
        self.get(entity).opacity
    }

    /// Caches `value` as the opacity of `entity`, if it has an entry.
    pub fn set_opacity(&mut self, entity: Entity, value: Scalar)
        ensures
            final(self)@ == old(self).written(entity, CacheEntry { opacity: value, ..old(self).entry(entity) }),
    {
        let mut entry: CacheEntry = self.get(entity);
        entry.opacity = value;
        self.set(entity, entry);
    }

    /// The cached z-index of `entity`.
    pub fn get_z_index(&self, entity: Entity) -> (v: i32)
        ensures
            v == self.entry(entity).z_index,
    {
        self.get(entity).z_index
    }

    /// Caches `value` as the z-index of `entity`, if it has an entry.
    pub fn set_z_index(&mut self, entity: Entity, value: i32)
        ensures
            final(self)@ == old(self).written(entity, CacheEntry { z_index: value, ..old(self).entry(entity) }),
    {
        let mut entry: CacheEntry = self.get(entity);
        entry.z_index = value;
        self.set(entity, entry);
    }

    /// The cached visibility of `entity`.
    pub fn get_visibility(&self, entity: Entity) -> (v: Visibility)
        ensures
            v == self.entry(entity).visibility,
    {
        self.get(entity).visibility
    }

    /// Caches `value` as the visibility of `entity`, if it has an entry.
    pub fn set_visibility(&mut self, entity: Entity, value: Visibility)
        ensures
            final(self)@ == old(self).written(entity, CacheEntry { visibility: value, ..old(self).entry(entity) }),
    {
        let mut entry: CacheEntry = self.get(entity);
        entry.visibility = value;
        self.set(entity, entry);
    }

    /// The cached display mode of `entity`.
    pub fn get_display(&self, entity: Entity) -> (v: Display)
        ensures
            v == self.entry(entity).display,
    {
        self.get(entity).display
    }

    /// Caches `value` as the display mode of `entity`, if it has an entry.
    pub fn set_display(&mut self, entity: Entity, value: Display)
        ensures
            final(self)@ == old(self).written(entity, CacheEntry { display: value, ..old(self).entry(entity) }),
    {
        let mut entry: CacheEntry = self.get(entity);
        entry.display = value;
        self.set(entity, entry);
    }

}

} // verus!
