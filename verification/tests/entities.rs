//! Entities and the manager that hands them out.

use vizia_glutin::{Entity, IdManager};

#[test]
fn the_root_is_slot_zero_and_the_sentinel_is_no_entity() {
    assert_eq!(Entity::root(), Entity::new(0, 0));
    assert_eq!(Entity::root().index(), 0);
    assert_eq!(Entity::root().generation(), 0);
    assert!(Entity::null().is_null());
    assert!(!Entity::root().is_null());
    assert_eq!(Entity::null(), Entity::new(u32::MAX, u32::MAX));
    assert!(!Entity::new(u32::MAX, 0).is_null());
    assert_eq!(Entity::new(7, 3).index(), 7);
    assert_eq!(Entity::new(7, 3).generation(), 3);
}

#[test]
fn the_first_entity_is_the_root_and_the_next_ones_take_new_slots() {
    let mut manager = IdManager::new();
    assert!(!manager.is_full());
    assert!(!manager.is_alive(Entity::root()));
    assert_eq!(manager.create(), Entity::new(0, 0));
    assert_eq!(manager.create(), Entity::new(1, 0));
    assert_eq!(manager.create(), Entity::new(2, 0));
    assert!(manager.is_alive(Entity::new(0, 0)));
    assert!(manager.is_alive(Entity::new(1, 0)));
    assert!(manager.is_alive(Entity::new(2, 0)));
    assert!(!manager.is_alive(Entity::new(3, 0)));
    assert!(!manager.is_alive(Entity::null()));
}

#[test]
fn a_destroyed_entity_is_dead_and_its_slot_comes_back_under_a_new_generation() {
    let mut manager = IdManager::new();
    let root = manager.create();
    let a = manager.create();
    let b = manager.create();
    assert!(manager.destroy(a));
    assert!(!manager.is_alive(a));
    assert!(manager.is_alive(root));
    assert!(manager.is_alive(b));
    let c = manager.create();
    assert_eq!(c, Entity::new(1, 1));
    assert!(manager.is_alive(c));
    assert!(!manager.is_alive(a));
    assert_ne!(a, c);
}

#[test]
fn destroying_twice_reports_that_nothing_was_alive() {
    let mut manager = IdManager::new();
    let root = manager.create();
    let a = manager.create();
    assert!(manager.destroy(a));
    assert!(!manager.destroy(a));
    assert!(!manager.destroy(Entity::new(40, 0)));
    assert!(!manager.destroy(Entity::null()));
    assert!(manager.is_alive(root));
    // The slot was queued for reuse once, not twice.
    assert_eq!(manager.create(), Entity::new(1, 1));
    assert_eq!(manager.create(), Entity::new(2, 0));
}

#[test]
fn no_two_live_entities_share_a_slot_through_creation_and_removal() {
    let mut manager = IdManager::new();
    let mut live: Vec<Entity> = Vec::new();
    for round in 0..6u32 {
        for _ in 0..5 {
            live.push(manager.create());
        }
        // Take back every other entity, the oldest first.
        let mut kept: Vec<Entity> = Vec::new();
        for (place, entity) in live.iter().enumerate() {
            if (place as u32 + round) % 2 == 0 {
                assert!(manager.destroy(*entity));
            } else {
                kept.push(*entity);
            }
        }
        live = kept;
        for i in 0..live.len() {
            assert!(manager.is_alive(live[i]));
            for j in (i + 1)..live.len() {
                assert_ne!(live[i].index(), live[j].index());
            }
        }
    }
}

#[test]
fn the_most_recently_freed_slot_is_reused_first() {
    let mut manager = IdManager::new();
    let _root = manager.create();
    let a = manager.create();
    let b = manager.create();
    manager.destroy(a);
    manager.destroy(b);
    assert_eq!(manager.create(), Entity::new(2, 1));
    assert_eq!(manager.create(), Entity::new(1, 1));
    assert_eq!(manager.create(), Entity::new(3, 0));
}

#[test]
fn an_entity_that_was_taken_back_is_never_handed_out_again() {
    let mut manager = IdManager::new();
    let _root = manager.create();
    let mut spent: Vec<Entity> = Vec::new();
    let mut live: Vec<Entity> = Vec::new();
    for round in 0..40usize {
        for _ in 0..(round % 4 + 1) {
            let entity = manager.create();
            assert!(!spent.contains(&entity));
            assert!(!live.contains(&entity));
            live.push(entity);
        }
        // Take back from the front, the back and the middle in turn.
        let place = match round % 3 {
            0 => 0,
            1 => live.len() - 1,
            _ => live.len() / 2,
        };
        let entity = live.remove(place);
        assert!(manager.destroy(entity));
        spent.push(entity);
        for stale in &spent {
            assert!(!manager.is_alive(*stale));
        }
    }
}
