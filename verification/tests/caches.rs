//! The cache and the sparse stores.

use vizia_glutin::{
    BoundingBox, CacheEntry, CachedData, Color, Display, Entity, Scalar, SparseSet, StorageError, Style, Transform,
    Units, Visibility,
};

fn number(value: f32) -> Scalar {
    Scalar::from_bits(value.to_bits())
}

#[test]
fn a_number_is_carried_by_its_bits() {
    assert_eq!(number(1.5).to_bits(), 1.5f32.to_bits());
    assert_eq!(f32::from_bits(number(-20.25).to_bits()), -20.25);
    assert_eq!(Scalar::zero(), number(0.0));
    assert_eq!(Scalar::zero().to_bits(), 0);
}

#[test]
fn both_zeros_are_zero_and_nothing_else_is() {
    assert!(number(0.0).is_zero());
    assert!(number(-0.0).is_zero());
    assert!(Scalar::zero().is_zero());
    assert!(!number(1.0).is_zero());
    assert!(!number(-1.0).is_zero());
    assert!(!number(f32::MIN_POSITIVE).is_zero());
    assert!(!number(f32::NAN).is_zero());
    assert!(!Scalar::from_bits(1).is_zero());
    assert!(!Scalar::from_bits(0x8000_0001).is_zero());
}

#[test]
fn rectangles_and_transforms_start_at_zero() {
    assert_eq!(BoundingBox::zero(), BoundingBox { x: number(0.0), y: number(0.0), w: number(0.0), h: number(0.0) });
    assert_eq!(
        BoundingBox::sized(number(640.0), number(480.0)),
        BoundingBox { x: number(0.0), y: number(0.0), w: number(640.0), h: number(480.0) }
    );
    let t = Transform::zero();
    assert_eq!([t.a, t.b, t.c, t.d, t.e, t.f], [Scalar::zero(); 6]);
}

#[test]
fn unset_attributes_are_zero_visible_and_flex() {
    let cache = CachedData::new();
    let entity = Entity::new(4, 0);
    assert!(!cache.contains(entity));
    assert_eq!(cache.get(entity), CacheEntry::unset());
    assert_eq!(cache.get_posx(entity), Scalar::zero());
    assert_eq!(cache.get_posy(entity), Scalar::zero());
    assert_eq!(cache.get_width(entity), Scalar::zero());
    assert_eq!(cache.get_height(entity), Scalar::zero());
    assert_eq!(cache.get_transform(entity), Transform::zero());
    assert_eq!(cache.get_clip_region(entity), BoundingBox::zero());
    assert_eq!(cache.get_opacity(entity), Scalar::zero());
    assert_eq!(cache.get_z_index(entity), 0);
    assert_eq!(cache.get_visibility(entity), Visibility::Visible);
    assert_eq!(cache.get_display(entity), Display::Flex);
}

#[test]
fn what_is_set_is_what_is_got() {
    let mut cache = CachedData::new();
    let a = Entity::new(2, 0);
    let b = Entity::new(5, 0);
    assert_eq!(cache.add(a), Ok(()));
    assert_eq!(cache.add(b), Ok(()));
    cache.set_posx(a, number(10.0));
    cache.set_posy(a, number(20.0));
    cache.set_width(a, number(300.0));
    cache.set_height(a, number(150.5));
    cache.set_opacity(a, number(0.75));
    cache.set_z_index(a, -3);
    cache.set_visibility(a, Visibility::Invisible);
    cache.set_display(a, Display::Gone);
    let clip = BoundingBox { x: number(1.0), y: number(2.0), w: number(3.0), h: number(4.0) };
    cache.set_clip_region(a, clip);
    let transform = Transform {
        a: number(1.0),
        b: number(0.0),
        c: number(0.0),
        d: number(1.0),
        e: number(15.0),
        f: number(-4.0),
    };
    cache.set_transform(a, transform);
    assert_eq!(cache.get_posx(a), number(10.0));
    assert_eq!(cache.get_posy(a), number(20.0));
    assert_eq!(cache.get_width(a), number(300.0));
    assert_eq!(cache.get_height(a), number(150.5));
    assert_eq!(cache.get_opacity(a), number(0.75));
    assert_eq!(cache.get_z_index(a), -3);
    assert_eq!(cache.get_visibility(a), Visibility::Invisible);
    assert_eq!(cache.get_display(a), Display::Gone);
    assert_eq!(cache.get_clip_region(a), clip);
    assert_eq!(cache.get_transform(a), transform);
    // The other entity is untouched.
    assert_eq!(cache.get(b), CacheEntry::unset());
}

#[test]
fn writing_to_an_entity_without_an_entry_changes_nothing() {
    let mut cache = CachedData::new();
    let stranger = Entity::new(9, 0);
    cache.set_width(stranger, number(12.0));
    cache.set_z_index(stranger, 4);
    assert!(!cache.contains(stranger));
    assert_eq!(cache.get_width(stranger), Scalar::zero());
    assert_eq!(cache.get_z_index(stranger), 0);
}

#[test]
fn adding_again_resets_and_removing_forgets() {
    let mut cache = CachedData::new();
    let a = Entity::new(1, 0);
    cache.add(a).unwrap();
    cache.set_z_index(a, 8);
    cache.add(a).unwrap();
    assert_eq!(cache.get_z_index(a), 0);
    cache.set_z_index(a, 8);
    cache.remove(a);
    assert!(!cache.contains(a));
    assert_eq!(cache.get_z_index(a), 0);
    cache.remove(a);
    assert!(!cache.contains(a));
}

#[test]
fn the_slot_of_the_sentinel_holds_nothing() {
    let mut cache = CachedData::new();
    assert_eq!(cache.add(Entity::null()), Err(StorageError::NullEntity));
    assert_eq!(cache.add(Entity::new(u32::MAX, 0)), Err(StorageError::NullEntity));
    assert!(!cache.contains(Entity::null()));
    let mut store: SparseSet<u8> = SparseSet::new();
    assert_eq!(store.insert(Entity::null(), 1), Err(StorageError::NullEntity));
    assert_eq!(store.get(Entity::null()), None);
}

#[test]
fn a_snapshot_holds_what_the_cache_held() {
    let mut cache = CachedData::new();
    let a = Entity::new(3, 0);
    cache.add(a).unwrap();
    cache.set_width(a, number(40.0));
    let snapshot = cache.snapshot();
    cache.set_width(a, number(50.0));
    assert_eq!(snapshot.get_width(a), number(40.0));
    assert_eq!(cache.get_width(a), number(50.0));
    assert!(snapshot.contains(a));
    assert!(!snapshot.contains(Entity::new(2, 0)));
}

#[test]
fn a_sparse_store_maps_slots_to_values() {
    let mut store: SparseSet<u32> = SparseSet::new();
    assert_eq!(store.get(Entity::new(0, 0)), None);
    assert_eq!(store.insert(Entity::new(6, 0), 60), Ok(()));
    assert_eq!(store.insert(Entity::new(2, 0), 20), Ok(()));
    assert_eq!(store.get(Entity::new(6, 0)), Some(&60));
    assert_eq!(store.get(Entity::new(2, 0)), Some(&20));
    assert_eq!(store.get(Entity::new(3, 0)), None);
    assert_eq!(store.get(Entity::new(7, 0)), None);
    assert!(store.contains(Entity::new(2, 0)));
    // The store goes by the slot: another generation finds the same value.
    assert_eq!(store.get(Entity::new(6, 4)), Some(&60));
    assert_eq!(store.insert(Entity::new(6, 0), 61), Ok(()));
    assert_eq!(store.get(Entity::new(6, 0)), Some(&61));
    store.remove(Entity::new(6, 0));
    assert_eq!(store.get(Entity::new(6, 0)), None);
    assert_eq!(store.get(Entity::new(2, 0)), Some(&20));
    store.remove(Entity::new(100, 0));
    let copy = store.snapshot();
    assert_eq!(copy.get(Entity::new(2, 0)), Some(&20));
    assert_eq!(copy.get(Entity::new(6, 0)), None);
}

#[test]
fn a_new_style_store_declares_nothing() {
    let style = Style::new();
    assert!(!style.needs_restyle);
    assert!(!style.needs_relayout);
    assert!(!style.needs_redraw);
    assert_eq!(style.default_font, "");
    assert_eq!(style.width.get(Entity::root()), None);
    assert_eq!(style.height.get(Entity::root()), None);
    assert_eq!(style.get_background_or(Entity::root(), Color::white()), Color::white());
    assert_eq!(style.get_background_or(Entity::root(), Color::transparent()), Color::rgba(0, 0, 0, 0));
}

#[test]
fn a_declared_background_wins_over_the_fallback() {
    let mut style = Style::new();
    let entity = Entity::new(3, 0);
    style.background_color.insert(entity, Color::rgba(10, 20, 30, 255)).unwrap();
    style.width.insert(entity, Units::Pixels(number(5.0))).unwrap();
    style.height.insert(entity, Units::Auto).unwrap();
    assert_eq!(style.get_background_or(entity, Color::white()), Color::rgba(10, 20, 30, 255));
    assert_eq!(style.get_background_or(Entity::root(), Color::white()), Color::rgba(255, 255, 255, 255));
    style.remove(entity);
    assert_eq!(style.get_background_or(entity, Color::white()), Color::white());
    assert_eq!(style.width.get(entity), None);
    assert_eq!(style.height.get(entity), None);
}
