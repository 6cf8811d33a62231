//! What the window tells the runtime.

use vizia_glutin::{
    BoundingBox, Code, Color, Context, Entity, Event, Key, Message, Modifiers, MouseButton, MouseButtonData,
    MouseButtonState, Propagation, Scalar, Units, WindowEvent,
};

fn number(value: f32) -> Scalar {
    Scalar::from_bits(value.to_bits())
}

fn queue(cx: &Context) -> Vec<Event> {
    cx.event_queue.iter().copied().collect()
}

fn window(message: WindowEvent, target: Entity, propagation: Propagation) -> Event {
    Event { message: Message::Window(message), target, propagation, consumed: false }
}

#[test]
fn a_new_event_travels_upwards_to_nobody() {
    let event = Event::new(Message::Custom(4));
    assert_eq!(event.message, Message::Custom(4));
    assert_eq!(event.target, Entity::null());
    assert_eq!(event.propagation, Propagation::Up);
    assert!(!event.consumed);
    let aimed = event.target(Entity::new(3, 0)).propagate(Propagation::Direct);
    assert_eq!(aimed.target, Entity::new(3, 0));
    assert_eq!(aimed.propagation, Propagation::Direct);
    assert_eq!(aimed.message, Message::Custom(4));
    let mut consumed = aimed;
    consumed.consume();
    assert!(consumed.consumed);
    assert_eq!(consumed.target, aimed.target);
}

#[test]
fn emitted_events_queue_up_in_order() {
    let mut cx = Context::new();
    let first = Event::new(Message::Custom(1)).target(Entity::root());
    let second = Event::new(Message::Empty);
    cx.emit(first);
    cx.emit(second);
    assert_eq!(queue(&cx), vec![first, second]);
}

#[test]
fn while_an_entity_holds_capture_moves_go_directly_to_it() {
    let mut cx = Context::new();
    let captured = cx.create(Entity::root());
    let other = cx.create(Entity::root());
    cx.capture(captured);
    assert_eq!(cx.captured, captured);
    // Wherever the pointer is and whatever it hovers.
    let trips = [(0.0f32, 0.0f32, Entity::root()), (250.0, 10.0, other), (-5.0, 9000.0, captured)];
    for (x, y, hovered) in trips {
        cx.set_cursor(number(x), number(y));
        cx.hovered = hovered;
        cx.mouse_moved();
    }
    assert_eq!(
        queue(&cx),
        vec![
            window(WindowEvent::MouseMove(number(0.0), number(0.0)), captured, Propagation::Direct),
            window(WindowEvent::MouseMove(number(250.0), number(10.0)), captured, Propagation::Direct),
            window(WindowEvent::MouseMove(number(-5.0), number(9000.0)), captured, Propagation::Direct),
        ]
    );
    for event in queue(&cx) {
        assert_eq!(cx.route(&event), vec![captured]);
    }
}

#[test]
fn without_capture_moves_go_upwards_from_what_is_hovered() {
    let mut cx = Context::new();
    let a = cx.create(Entity::root());
    cx.set_cursor(number(3.0), number(4.0));
    assert_eq!(cx.mouse.cursorx, number(3.0));
    assert_eq!(cx.mouse.cursory, number(4.0));
    cx.hovered = a;
    cx.mouse_moved();
    assert_eq!(queue(&cx), vec![window(WindowEvent::MouseMove(number(3.0), number(4.0)), a, Propagation::Up)]);
}

#[test]
fn a_move_over_the_bare_window_is_not_queued() {
    let mut cx = Context::new();
    cx.set_cursor(number(3.0), number(4.0));
    cx.mouse_moved();
    assert_eq!(queue(&cx), Vec::<Event>::new());
}

#[test]
fn released_capture_gives_the_pointer_back_to_hover() {
    let mut cx = Context::new();
    let a = cx.create(Entity::root());
    let b = cx.create(Entity::root());
    cx.capture(a);
    cx.hovered = b;
    cx.release();
    assert_eq!(cx.captured, Entity::null());
    cx.mouse_moved();
    assert_eq!(queue(&cx)[0].target, b);
    assert_eq!(queue(&cx)[0].propagation, Propagation::Up);
}

#[test]
fn a_press_is_queued_and_remembered() {
    let mut cx = Context::new();
    let a = cx.create(Entity::root());
    cx.hovered = a;
    cx.set_cursor(number(11.0), number(22.0));
    cx.mouse_input(MouseButton::Left, MouseButtonState::Pressed);
    assert_eq!(queue(&cx), vec![window(WindowEvent::MouseDown(MouseButton::Left), a, Propagation::Up)]);
    assert_eq!(cx.mouse.left, MouseButtonData { down_x: number(11.0), down_y: number(22.0), pressed: a });
    assert_eq!(cx.mouse.right, MouseButtonData::new());
    assert_eq!(cx.mouse.middle, MouseButtonData::new());
    cx.set_cursor(number(1.0), number(2.0));
    cx.mouse_input(MouseButton::Right, MouseButtonState::Pressed);
    cx.mouse_input(MouseButton::Middle, MouseButtonState::Pressed);
    assert_eq!(cx.mouse.right, MouseButtonData { down_x: number(1.0), down_y: number(2.0), pressed: a });
    assert_eq!(cx.mouse.middle, MouseButtonData { down_x: number(1.0), down_y: number(2.0), pressed: a });
    assert_eq!(cx.mouse.left, MouseButtonData { down_x: number(11.0), down_y: number(22.0), pressed: a });
}

#[test]
fn a_further_button_is_queued_but_leaves_no_trace() {
    let mut cx = Context::new();
    cx.mouse_input(MouseButton::Other(7), MouseButtonState::Pressed);
    assert_eq!(
        queue(&cx),
        vec![window(WindowEvent::MouseDown(MouseButton::Other(7)), Entity::root(), Propagation::Up)]
    );
    assert_eq!(cx.mouse.left, MouseButtonData::new());
    assert_eq!(cx.mouse.right, MouseButtonData::new());
    assert_eq!(cx.mouse.middle, MouseButtonData::new());
}

#[test]
fn a_release_is_queued_and_changes_nothing_else() {
    let mut cx = Context::new();
    let a = cx.create(Entity::root());
    cx.hovered = a;
    cx.mouse_input(MouseButton::Left, MouseButtonState::Pressed);
    let mouse = cx.mouse;
    cx.set_cursor(number(70.0), number(80.0));
    cx.mouse_input(MouseButton::Left, MouseButtonState::Released);
    assert_eq!(queue(&cx)[1], window(WindowEvent::MouseUp(MouseButton::Left), a, Propagation::Up));
    assert_eq!(cx.mouse.left, mouse.left);
}

#[test]
fn presses_and_releases_go_directly_to_the_entity_that_holds_capture() {
    let mut cx = Context::new();
    let a = cx.create(Entity::root());
    let b = cx.create(Entity::root());
    cx.capture(a);
    cx.hovered = b;
    cx.mouse_input(MouseButton::Left, MouseButtonState::Pressed);
    cx.mouse_input(MouseButton::Left, MouseButtonState::Released);
    assert_eq!(
        queue(&cx),
        vec![
            window(WindowEvent::MouseDown(MouseButton::Left), a, Propagation::Direct),
            window(WindowEvent::MouseUp(MouseButton::Left), a, Propagation::Direct),
        ]
    );
    // What was under the pointer is remembered all the same.
    assert_eq!(cx.mouse.left.pressed, b);
    // Capture lasts until it is released.
    assert_eq!(cx.captured, a);
}

#[test]
fn keys_go_upwards_from_the_focused_entity() {
    let mut cx = Context::new();
    let a = cx.create(Entity::root());
    let b = cx.create(Entity::root());
    cx.focused = a;
    cx.hovered = b;
    let code = Code { value: 30 };
    let key = Key { value: 97 };
    cx.keyboard_input(code, key, MouseButtonState::Pressed);
    cx.keyboard_input(code, key, MouseButtonState::Released);
    assert_eq!(
        queue(&cx),
        vec![
            window(WindowEvent::KeyDown(code, key), a, Propagation::Up),
            window(WindowEvent::KeyUp(code, key), a, Propagation::Up),
        ]
    );
}

#[test]
fn without_focus_keys_go_upwards_from_the_hovered_entity() {
    let mut cx = Context::new();
    let b = cx.create(Entity::root());
    cx.focused = Entity::null();
    cx.hovered = b;
    let code = Code { value: 1 };
    let key = Key { value: 2 };
    cx.keyboard_input(code, key, MouseButtonState::Pressed);
    assert_eq!(queue(&cx), vec![window(WindowEvent::KeyDown(code, key), b, Propagation::Up)]);
}

#[test]
fn keys_ignore_capture() {
    let mut cx = Context::new();
    let a = cx.create(Entity::root());
    cx.capture(a);
    cx.keyboard_input(Code { value: 1 }, Key { value: 2 }, MouseButtonState::Pressed);
    assert_eq!(queue(&cx)[0].target, Entity::root());
    assert_eq!(queue(&cx)[0].propagation, Propagation::Up);
}

#[test]
fn characters_go_upwards_from_the_focused_entity() {
    let mut cx = Context::new();
    let a = cx.create(Entity::root());
    cx.focused = a;
    cx.received_character('ß');
    cx.focused = Entity::null();
    cx.received_character('x');
    assert_eq!(
        queue(&cx),
        vec![
            window(WindowEvent::CharInput('ß'), a, Propagation::Up),
            window(WindowEvent::CharInput('x'), Entity::null(), Propagation::Up),
        ]
    );
}

#[test]
fn modifiers_are_noted_as_given() {
    let mut cx = Context::new();
    cx.modifiers_changed(true, false, true, false);
    assert_eq!(cx.modifiers, Modifiers { shift: true, alt: false, ctrl: true, logo: false });
    cx.modifiers_changed(false, true, false, true);
    assert_eq!(cx.modifiers, Modifiers { shift: false, alt: true, ctrl: false, logo: true });
    assert_eq!(queue(&cx), Vec::<Event>::new());
}

#[test]
fn a_resize_is_cached_at_once_and_makes_everything_due() {
    let mut cx = Context::new();
    cx.resized(number(1024.0), number(768.0));
    assert_eq!(cx.cache.get_width(Entity::root()), number(1024.0));
    assert_eq!(cx.cache.get_height(Entity::root()), number(768.0));
    assert_eq!(cx.cache.get_clip_region(Entity::root()), BoundingBox::sized(number(1024.0), number(768.0)));
    assert_eq!(cx.style.width.get(Entity::root()), Some(&Units::Pixels(number(1024.0))));
    assert_eq!(cx.style.height.get(Entity::root()), Some(&Units::Pixels(number(768.0))));
    assert!(cx.style.needs_restyle);
    assert!(cx.style.needs_relayout);
    assert!(cx.style.needs_redraw);
    assert_eq!(queue(&cx), Vec::<Event>::new());
}

#[test]
fn a_resize_leaves_the_rest_of_the_root_entry() {
    let mut cx = Context::new();
    cx.cache.set_z_index(Entity::root(), 5);
    cx.cache.set_posx(Entity::root(), number(2.0));
    cx.resized(number(10.0), number(20.0));
    assert_eq!(cx.cache.get_z_index(Entity::root()), 5);
    assert_eq!(cx.cache.get_posx(Entity::root()), number(2.0));
    cx.resized(number(30.0), number(40.0));
    assert_eq!(cx.cache.get_width(Entity::root()), number(30.0));
    assert_eq!(cx.cache.get_clip_region(Entity::root()).h, number(40.0));
}

#[test]
fn opening_the_window_sets_the_root_and_the_default_font() {
    let mut cx = Context::new();
    cx.window_opened(number(800.0), number(600.0), number(1600.0), number(1200.0));
    assert_eq!(cx.style.default_font, "roboto");
    assert_eq!(cx.cache.get_width(Entity::root()), number(800.0));
    assert_eq!(cx.cache.get_height(Entity::root()), number(600.0));
    assert_eq!(cx.cache.get_clip_region(Entity::root()), BoundingBox::sized(number(1600.0), number(1200.0)));
    assert_eq!(cx.style.width.get(Entity::root()), Some(&Units::Pixels(number(800.0))));
    assert_eq!(cx.style.height.get(Entity::root()), Some(&Units::Pixels(number(600.0))));
    assert!(!cx.style.needs_restyle);
    assert!(!cx.style.needs_relayout);
    assert!(!cx.style.needs_redraw);
}

#[test]
fn the_window_is_cleared_to_its_background_or_white() {
    let mut cx = Context::new();
    assert_eq!(cx.clear_color(), Color::rgba(255, 255, 255, 255));
    assert_eq!(cx.opening_color(), Color::rgba(0, 0, 0, 0));
    cx.style.background_color.insert(Entity::root(), Color::rgba(1, 2, 3, 4)).unwrap();
    assert_eq!(cx.clear_color(), Color::rgba(1, 2, 3, 4));
    assert_eq!(cx.opening_color(), Color::rgba(1, 2, 3, 4));
}
