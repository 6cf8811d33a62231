//! The application: the world, how its window is to be, and what the
//! runtime answers to each event of the platform.

use vstd::prelude::*;
use crate::context::{is_initial, Context, World};
use crate::entity::Entity;
use crate::event::{Code, Event, Key, MouseButton, MouseButtonState};
use crate::geometry::Scalar;
use crate::input::{Modifiers, MouseState};
use crate::style::Color;
use crate::window::{after_mouse_input, after_resize, event_for, key_message, keyboard_event};
use crate::event::{Propagation, WindowEvent};

verus! {

/// The size of a window, in pixels.
#[derive(Clone, Copy, Debug, PartialEq, Eq, Structural)]
pub struct WindowSize {
    pub width: u32,
    pub height: u32,
}

/// How the window of an application is to be.
pub struct WindowDescription {
    pub title: String,
    pub inner_size: WindowSize,
}

impl WindowDescription {
    /// A window of 800 by 600 pixels without a title.
    pub fn new() -> (d: WindowDescription)
        ensures
            d.title@ == Seq::<char>::empty(),
            d.inner_size == (WindowSize { width: 800, height: 600 }),
    {
        WindowDescription { title: String::new(), inner_size: WindowSize { width: 800, height: 600 } }
    }

    /// The same window under the title `title`.
    pub fn with_title(self, title: &str) -> (d: WindowDescription)
        ensures
            d.title@ == title@,
            d.inner_size == self.inner_size,
    {
        WindowDescription { title: title.to_owned(), inner_size: self.inner_size }
    }

    /// The same window at `width` by `height` pixels.
    pub fn with_inner_size(self, width: u32, height: u32) -> (d: WindowDescription)
        ensures
            d.title == self.title,
            d.inner_size == (WindowSize { width, height }),
    {
        WindowDescription { title: self.title, inner_size: WindowSize { width, height } }
    }
}

/// What the loop of the platform does once an event is handled.
#[derive(Clone, Copy, Debug, PartialEq, Eq, Structural)]
pub enum ControlFlow {
    /// Go round again at once.
    Poll,
    /// Sleep until the next event.
    Wait,
    /// Leave the loop.
    Exit,
}

/// What the platform tells the application.
#[derive(Clone, Copy, Debug, PartialEq, Eq, Structural)]
pub enum PlatformEvent {
    /// An event that was sent into the loop from outside it.
    User(Event),
    /// Every event that waited has been handed over.
    MainEventsCleared,
    /// The window has to be painted.
    RedrawRequested,
    /// The user asked for the window to close.
    CloseRequested,
    /// The pointer moved to the given position.
    CursorMoved(Scalar, Scalar),
    MouseInput(MouseButton, MouseButtonState),
    KeyboardInput(Code, Key, MouseButtonState),
    ReceivedCharacter(char),
    /// The window took the given size.
    Resized(Scalar, Scalar),
    ModifiersChanged { shift: bool, alt: bool, ctrl: bool, logo: bool },
    /// Anything else: the runtime has no use for it.
    Other,
}

/// What the runtime leaves to the host after an event of the platform.
#[derive(Clone, Copy, Debug, PartialEq, Eq, Structural)]
pub enum Task {
    Nothing,
    /// Walk through the phases of a frame.
    Frame,
    /// Paint the window: clear it, then draw the entities of the draw list.
    Draw,
    /// Run the hover pass for the new position of the pointer, then have the
    /// move queued.
    Hover,
    /// Give the drawing surface the new size of the window.
    ResizeSurface,
}

/// The answer of the runtime to an event of the platform.
#[derive(Clone, Copy, Debug, PartialEq, Eq, Structural)]
pub struct Reply {
    pub control_flow: ControlFlow,
    pub task: Task,
}

/// What the runtime leaves to the host after `event`.
pub open spec fn task_for(event: PlatformEvent) -> Task {
    match event {
        PlatformEvent::MainEventsCleared => Task::Frame,
        PlatformEvent::RedrawRequested => Task::Draw,
        PlatformEvent::CursorMoved(_, _) => Task::Hover,
        PlatformEvent::Resized(_, _) => Task::ResizeSurface,
        _ => Task::Nothing,
    }
}

/// What the loop does after `event`: it leaves when the window is to close;
/// else it polls or waits, as the application chose.
pub open spec fn control_flow_for(event: PlatformEvent, should_poll: bool) -> ControlFlow {
    if event == PlatformEvent::CloseRequested {
        ControlFlow::Exit
    } else if should_poll {
        ControlFlow::Poll
    } else {
        ControlFlow::Wait
    }
}

/// The world after `event` was taken in.
pub open spec fn world_after_event(w: World, event: PlatformEvent) -> World {
    match event {
        PlatformEvent::User(e) => World { queue: w.queue.push(e), ..w },
        PlatformEvent::CursorMoved(x, y) => World { mouse: MouseState { cursorx: x, cursory: y, ..w.mouse }, ..w },
        PlatformEvent::MouseInput(button, state) => after_mouse_input(w, button, state),
        PlatformEvent::KeyboardInput(code, key, state) => World {
            queue: w.queue.push(keyboard_event(w, key_message(code, key, state))),
            ..w
        },
        PlatformEvent::ReceivedCharacter(c) => World {
            queue: w.queue.push(event_for(WindowEvent::CharInput(c), w.focused, Propagation::Up)),
            ..w
        },
        PlatformEvent::Resized(width, height) => after_resize(w, width, height),
        PlatformEvent::ModifiersChanged { shift, alt, ctrl, logo } => World {
            modifiers: Modifiers { shift, ctrl, alt, logo },
            ..w
        },
        _ => w,
    }
}

/// An application before it runs.
pub struct Application {
    pub context: Context,
    pub window_description: WindowDescription,
    /// Whether the loop goes round without waiting for events.
    pub should_poll: bool,
    /// Whether a callback runs at the end of every frame.
    pub idle: bool,
}

impl Application {
    /// An application with the world at its start, which waits for events
    /// and has no idle callback.
    pub fn new(window_description: WindowDescription) -> (app: Application)
        ensures
            is_initial(app.context@),
            app.window_description == window_description,
            !app.should_poll,
            !app.idle,
    {
        Application { context: Context::new(), window_description, should_poll: false, idle: false }
    }

    /// The same application, with a loop that goes round without waiting.
    pub fn should_poll(self) -> (app: Application)
        ensures
            app.should_poll,
            app.context == self.context,
            app.window_description == self.window_description,
            app.idle == self.idle,
    {
        let mut app = self;
        app.should_poll = true;
        app
    }

    /// The same application, with a callback at the end of every frame. The
    /// callback itself stays with the host, which runs it when a frame asks
    /// for it.
    pub fn on_idle(self) -> (app: Application)
        ensures
            app.idle,
            app.context == self.context,
            app.window_description == self.window_description,
            app.should_poll == self.should_poll,
    {
        let mut app = self;
        app.idle = true;
        app
    }

    /// The same application, with `color` declared as the background of the
    /// window.
    pub fn background_color(self, color: Color) -> (app: Application)
        ensures
            app.context@ == (World {
                background_color: self.context@.background_color.insert(0u32, color),
                ..self.context@
            }),
            app.window_description == self.window_description,
            app.should_poll == self.should_poll,
            app.idle == self.idle,
    {
        let mut app = self;
        let _ = app.context.style.background_color.insert(Entity::root(), color);
        app
    }

    /// The same application, with texts shown in the language `id`.
    pub fn locale(self, id: &str) -> (app: Application)
        ensures
            app.context@ == (World { locale: id@, ..self.context@ }),
            app.window_description == self.window_description,
            app.should_poll == self.should_poll,
            app.idle == self.idle,
    {
        let mut app = self;
        app.context.environment.locale = id.to_owned();
        app
    }

    /// Takes in an event of the platform and says what the loop and the
    /// host are to do next.
    pub fn handle(&mut self, event: PlatformEvent) -> (reply: Reply)
        ensures
            reply.control_flow == control_flow_for(event, old(self).should_poll),
            reply.task == task_for(event),
            final(self).context@ == world_after_event(old(self).context@, event),
            final(self).window_description == old(self).window_description,
            final(self).should_poll == old(self).should_poll,
            final(self).idle == old(self).idle,
    {
        self.context.handle(event, self.should_poll)
    }
}

impl Context {
    /// Takes in an event of the platform and says what the loop and the
    /// host are to do next. `should_poll` says whether the loop goes round
    /// without waiting for events.
    pub fn handle(&mut self, event: PlatformEvent, should_poll: bool) -> (reply: Reply)
        ensures
            reply.control_flow == control_flow_for(event, should_poll),
            reply.task == task_for(event),
            final(self)@ == world_after_event(old(self)@, event),
    {
        let mut control_flow = if should_poll {
            ControlFlow::Poll
        } else {
            ControlFlow::Wait
        };
        let mut task = Task::Nothing;
        match event {
            PlatformEvent::User(e) => {
                self.emit(e);
            },
            PlatformEvent::MainEventsCleared => {
                task = Task::Frame;
            },
            PlatformEvent::RedrawRequested => {
                task = Task::Draw;
            },
            PlatformEvent::CloseRequested => {
                control_flow = ControlFlow::Exit;
            },
            PlatformEvent::CursorMoved(x, y) => {
                self.set_cursor(x, y);
                task = Task::Hover;
            },
            PlatformEvent::MouseInput(button, state) => {
                self.mouse_input(button, state);
            },
            PlatformEvent::KeyboardInput(code, key, state) => {
                self.keyboard_input(code, key, state);
            },
            PlatformEvent::ReceivedCharacter(c) => {
                self.received_character(c);
            },
            PlatformEvent::Resized(width, height) => {
                self.resized(width, height);
                task = Task::ResizeSurface;
            },
            PlatformEvent::ModifiersChanged { shift, alt, ctrl, logo } => {
                self.modifiers_changed(shift, alt, ctrl, logo);
            },
            PlatformEvent::Other => {},
        }
        Reply { control_flow, task }
    }
}

} // verus!
