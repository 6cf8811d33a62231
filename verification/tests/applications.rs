//! The application and its answers to the platform.

use vizia_glutin::{
    Application, BoundingBox, Code, Color, ControlFlow, Entity, Event, Key, Message, Modifiers, MouseButton,
    MouseButtonState, PlatformEvent, Propagation, Reply, Scalar, Task, WindowDescription, WindowEvent, WindowSize,
};

fn number(value: f32) -> Scalar {
    Scalar::from_bits(value.to_bits())
}

fn app() -> Application {
    Application::new(WindowDescription::new())
}

#[test]
fn a_window_is_described_by_its_title_and_size() {
    let description = WindowDescription::new();
    assert_eq!(description.title, "");
    assert_eq!(description.inner_size, WindowSize { width: 800, height: 600 });
    let description = description.with_title("Tabs").with_inner_size(300, 200);
    assert_eq!(description.title, "Tabs");
    assert_eq!(description.inner_size, WindowSize { width: 300, height: 200 });
}

#[test]
fn a_new_application_waits_and_has_the_world_at_its_start() {
    let app = Application::new(WindowDescription::new().with_title("Demo"));
    assert!(!app.should_poll);
    assert!(!app.idle);
    assert_eq!(app.window_description.title, "Demo");
    assert_eq!(app.context.tree.entities(), vec![Entity::root()]);
    assert!(app.context.entity_manager.is_alive(Entity::root()));
    assert!(app.context.cache.contains(Entity::root()));
    assert_eq!(app.context.captured, Entity::null());
    assert_eq!(app.context.hovered, Entity::root());
    assert_eq!(app.context.focused, Entity::root());
    assert!(app.context.environment.needs_rebuild);
}

#[test]
fn the_builders_set_what_they_name() {
    let app = app().should_poll();
    assert!(app.should_poll);
    assert!(!app.idle);
    let app = app.on_idle();
    assert!(app.should_poll);
    assert!(app.idle);
    let app = app.background_color(Color::rgba(9, 8, 7, 6));
    assert_eq!(app.context.clear_color(), Color::rgba(9, 8, 7, 6));
    assert_eq!(app.context.style.background_color.get(Entity::root()), Some(&Color::rgba(9, 8, 7, 6)));
    let app = app.locale("fr");
    assert_eq!(app.context.environment.locale, "fr");
    assert!(app.should_poll);
    assert!(app.idle);
    assert_eq!(app.context.clear_color(), Color::rgba(9, 8, 7, 6));
}

#[test]
fn the_loop_waits_or_polls_as_chosen_and_leaves_on_close() {
    let mut waiting = app();
    let mut polling = app().should_poll();
    for event in [PlatformEvent::Other, PlatformEvent::MainEventsCleared, PlatformEvent::ReceivedCharacter('a')] {
        assert_eq!(waiting.handle(event).control_flow, ControlFlow::Wait);
        assert_eq!(polling.handle(event).control_flow, ControlFlow::Poll);
    }
    assert_eq!(
        waiting.handle(PlatformEvent::CloseRequested),
        Reply { control_flow: ControlFlow::Exit, task: Task::Nothing }
    );
    assert_eq!(
        polling.handle(PlatformEvent::CloseRequested),
        Reply { control_flow: ControlFlow::Exit, task: Task::Nothing }
    );
}

#[test]
fn each_event_leaves_its_task_to_the_host() {
    let mut app = app();
    assert_eq!(app.handle(PlatformEvent::MainEventsCleared).task, Task::Frame);
    assert_eq!(app.handle(PlatformEvent::RedrawRequested).task, Task::Draw);
    assert_eq!(app.handle(PlatformEvent::CursorMoved(number(1.0), number(2.0))).task, Task::Hover);
    assert_eq!(app.handle(PlatformEvent::Resized(number(1.0), number(2.0))).task, Task::ResizeSurface);
    assert_eq!(app.handle(PlatformEvent::Other).task, Task::Nothing);
    assert_eq!(app.handle(PlatformEvent::User(Event::new(Message::Empty))).task, Task::Nothing);
    assert_eq!(app.handle(PlatformEvent::ReceivedCharacter('q')).task, Task::Nothing);
    assert_eq!(
        app.handle(PlatformEvent::MouseInput(MouseButton::Left, MouseButtonState::Pressed)).task,
        Task::Nothing
    );
}

#[test]
fn events_from_outside_the_loop_join_the_queue() {
    let mut app = app();
    let event = Event::new(Message::Custom(77)).target(Entity::root()).propagate(Propagation::Direct);
    app.handle(PlatformEvent::User(event));
    app.handle(PlatformEvent::User(Event::new(Message::Empty)));
    assert_eq!(app.context.event_queue.len(), 2);
    assert_eq!(app.context.event_queue[0], event);
    assert_eq!(app.context.event_queue[1], Event::new(Message::Empty));
}

#[test]
fn a_moved_cursor_is_noted_and_queued_after_the_hover_pass() {
    let mut app = app();
    let reply = app.handle(PlatformEvent::CursorMoved(number(15.0), number(25.0)));
    assert_eq!(reply, Reply { control_flow: ControlFlow::Wait, task: Task::Hover });
    assert_eq!(app.context.mouse.cursorx, number(15.0));
    assert_eq!(app.context.mouse.cursory, number(25.0));
    assert_eq!(app.context.event_queue.len(), 0);
    // The host finds what is hovered, then has the move queued.
    let button = app.context.create(Entity::root());
    app.context.hovered = button;
    app.context.mouse_moved();
    assert_eq!(
        app.context.event_queue[0],
        Event {
            message: Message::Window(WindowEvent::MouseMove(number(15.0), number(25.0))),
            target: button,
            propagation: Propagation::Up,
            consumed: false,
        }
    );
}

#[test]
fn input_is_routed_as_by_the_world() {
    let mut app = app();
    let field = app.context.create(Entity::root());
    app.context.focused = field;
    app.handle(PlatformEvent::KeyboardInput(Code { value: 5 }, Key { value: 6 }, MouseButtonState::Pressed));
    app.handle(PlatformEvent::ReceivedCharacter('z'));
    app.handle(PlatformEvent::MouseInput(MouseButton::Right, MouseButtonState::Released));
    app.handle(PlatformEvent::ModifiersChanged { shift: true, alt: true, ctrl: false, logo: false });
    let queue: Vec<Event> = app.context.event_queue.iter().copied().collect();
    assert_eq!(queue.len(), 3);
    assert_eq!(queue[0].message, Message::Window(WindowEvent::KeyDown(Code { value: 5 }, Key { value: 6 })));
    assert_eq!(queue[0].target, field);
    assert_eq!(queue[1].message, Message::Window(WindowEvent::CharInput('z')));
    assert_eq!(queue[1].target, field);
    assert_eq!(queue[2].message, Message::Window(WindowEvent::MouseUp(MouseButton::Right)));
    assert_eq!(queue[2].target, Entity::root());
    assert_eq!(app.context.modifiers, Modifiers { shift: true, alt: true, ctrl: false, logo: false });
}

#[test]
fn a_resize_reaches_the_cache_before_the_next_frame() {
    let mut app = app();
    app.context.environment.needs_rebuild = false;
    let reply = app.handle(PlatformEvent::Resized(number(320.0), number(240.0)));
    assert_eq!(reply.task, Task::ResizeSurface);
    assert_eq!(app.context.cache.get_width(Entity::root()), number(320.0));
    assert_eq!(app.context.cache.get_height(Entity::root()), number(240.0));
    assert_eq!(
        app.context.cache.get_clip_region(Entity::root()),
        BoundingBox::sized(number(320.0), number(240.0))
    );
    assert!(app.context.style.needs_restyle && app.context.style.needs_relayout && app.context.style.needs_redraw);
}

#[test]
fn events_without_meaning_change_nothing() {
    let mut app = app();
    for event in [
        PlatformEvent::Other,
        PlatformEvent::MainEventsCleared,
        PlatformEvent::RedrawRequested,
        PlatformEvent::CloseRequested,
    ] {
        app.handle(event);
    }
    assert_eq!(app.context.event_queue.len(), 0);
    assert!(app.context.environment.needs_rebuild);
    assert!(!app.context.style.needs_redraw);
    assert_eq!(app.context.tree.len(), 1);
}
