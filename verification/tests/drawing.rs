//! The order of drawing, and the notices of changed geometry.

use vizia_glutin::{Context, Display, Entity, Event, Message, Propagation, Scalar, Visibility, WindowEvent};

fn number(value: f32) -> Scalar {
    Scalar::from_bits(value.to_bits())
}

/// A world with `n` children of the root, all opaque.
fn world(n: usize) -> (Context, Vec<Entity>) {
    let mut cx = Context::new();
    let mut entities = Vec::new();
    for _ in 0..n {
        let e = cx.create(Entity::root());
        cx.cache.set_opacity(e, number(1.0));
        entities.push(e);
    }
    (cx, entities)
}

#[test]
fn the_root_is_never_drawn() {
    let mut cx = Context::new();
    cx.cache.set_opacity(Entity::root(), number(1.0));
    assert!(!cx.draws(Entity::root()));
    assert_eq!(cx.draw_list(), Vec::<Entity>::new());
}

#[test]
fn entities_of_one_z_index_are_drawn_in_document_order() {
    let (mut cx, e) = world(3);
    let inner = cx.create(e[0]);
    cx.cache.set_opacity(inner, number(0.5));
    assert_eq!(cx.draw_list(), vec![e[0], inner, e[1], e[2]]);
}

#[test]
fn a_higher_z_index_is_drawn_later() {
    let (mut cx, e) = world(5);
    cx.cache.set_z_index(e[0], 2);
    cx.cache.set_z_index(e[1], 1);
    cx.cache.set_z_index(e[2], 2);
    cx.cache.set_z_index(e[3], -1);
    cx.cache.set_z_index(e[4], 1);
    assert_eq!(cx.draw_list(), vec![e[3], e[1], e[4], e[0], e[2]]);
}

#[test]
fn what_is_invisible_or_left_out_or_transparent_is_skipped() {
    let (mut cx, e) = world(6);
    cx.cache.set_visibility(e[1], Visibility::Invisible);
    cx.cache.set_display(e[2], Display::Gone);
    cx.cache.set_opacity(e[3], number(0.0));
    cx.cache.set_opacity(e[4], number(-0.0));
    cx.cache.set_z_index(e[5], -7);
    assert_eq!(cx.draw_list(), vec![e[5], e[0]]);
    assert!(cx.draws(e[0]));
    for skipped in &e[1..5] {
        assert!(!cx.draws(*skipped));
    }
}

#[test]
fn an_entity_that_was_never_styled_has_no_opacity_and_is_skipped() {
    let mut cx = Context::new();
    let fresh = cx.create(Entity::root());
    assert!(!cx.draws(fresh));
    assert_eq!(cx.draw_list(), Vec::<Entity>::new());
    cx.cache.set_opacity(fresh, number(0.01));
    assert_eq!(cx.draw_list(), vec![fresh]);
}

#[test]
fn the_order_of_drawing_does_not_touch_the_order_of_the_document() {
    let (mut cx, e) = world(4);
    cx.cache.set_z_index(e[0], 9);
    let before = cx.tree.entities();
    assert_eq!(cx.draw_list(), vec![e[1], e[2], e[3], e[0]]);
    assert_eq!(cx.tree.entities(), before);
}

#[test]
fn a_long_list_is_sorted_stably() {
    let (mut cx, e) = world(60);
    for (place, entity) in e.iter().enumerate() {
        cx.cache.set_z_index(*entity, ((place * 7) % 5) as i32 - 2);
    }
    let list = cx.draw_list();
    assert_eq!(list.len(), 60);
    for pair in list.windows(2) {
        let (a, b) = (pair[0], pair[1]);
        let (za, zb) = (cx.cache.get_z_index(a), cx.cache.get_z_index(b));
        assert!(za < zb || (za == zb && cx.tree.position(a) < cx.tree.position(b)));
    }
    let mut expected = e.clone();
    expected.sort_by_key(|entity| cx.cache.get_z_index(*entity));
    assert_eq!(list, expected);
}

#[test]
fn entities_whose_geometry_changed_are_told_in_document_order() {
    let (mut cx, e) = world(4);
    let previous = cx.cache.snapshot();
    cx.cache.set_posx(e[0], number(5.0));
    cx.cache.set_height(e[2], number(5.0));
    cx.cache.set_z_index(e[1], 5);
    cx.cache.set_opacity(e[3], number(0.5));
    cx.cache.set_width(Entity::root(), number(100.0));
    cx.geometry_changed(&previous);
    let told: Vec<Event> = cx.event_queue.iter().copied().collect();
    let notice = |target: Entity| Event {
        message: Message::Window(WindowEvent::GeometryChanged),
        target,
        propagation: Propagation::Down,
        consumed: false,
    };
    assert_eq!(told, vec![notice(Entity::root()), notice(e[0]), notice(e[2])]);
    assert_eq!(cx.route(&told[1]), vec![Entity::root(), e[0]]);
}

#[test]
fn unchanged_geometry_tells_nobody() {
    let (mut cx, e) = world(2);
    cx.cache.set_posy(e[1], number(3.0));
    let previous = cx.cache.snapshot();
    cx.emit(Event::new(Message::Custom(1)));
    cx.geometry_changed(&previous);
    assert_eq!(cx.event_queue.len(), 1);
    // A new entity at the unset geometry has not changed either.
    let fresh = cx.create(Entity::root());
    cx.geometry_changed(&previous);
    assert_eq!(cx.event_queue.len(), 1);
    cx.cache.set_width(fresh, number(1.0));
    cx.geometry_changed(&previous);
    assert_eq!(cx.event_queue.len(), 2);
    assert_eq!(cx.event_queue[1].target, fresh);
}
