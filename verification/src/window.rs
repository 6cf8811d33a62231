//! What the window tells the runtime, and what the runtime makes of it:
//! which event goes to which entity, and what is cached and flagged.

use vstd::prelude::*;
use crate::cache::{entry_in, written_in, CacheEntry};
use crate::context::{Context, World};
use crate::entity::Entity;
use crate::event::{Code, Event, Key, Message, MouseButton, MouseButtonState, Propagation, WindowEvent};
use crate::geometry::{BoundingBox, Scalar};
use crate::input::{Modifiers, MouseButtonData, MouseState};
use crate::style::{Color, Units};

verus! {

/// The event `message`, aimed at `target`, travelling by `propagation`.
pub open spec fn event_for(message: WindowEvent, target: Entity, propagation: Propagation) -> Event {
    Event { message: Message::Window(message), target, propagation, consumed: false }
}

/// Where an event of the pointer goes: directly to the entity that holds
/// capture, if one does; else upwards from the hovered entity.
pub open spec fn pointer_event(w: World, message: WindowEvent) -> Event {
    if w.captured != Entity::spec_null() {
        event_for(message, w.captured, Propagation::Direct)
    } else {
        event_for(message, w.hovered, Propagation::Up)
    }
}

/// Where an event of the keyboard goes: upwards from the focused entity, if
/// there is one; else upwards from the hovered entity.
pub open spec fn keyboard_event(w: World, message: WindowEvent) -> Event {
    if w.focused != Entity::spec_null() {
        event_for(message, w.focused, Propagation::Up)
    } else {
        event_for(message, w.hovered, Propagation::Up)
    }
}

/// The queue after the pointer moved: the move is queued for the entity that
/// holds capture, or else for the hovered entity unless that is the root.
pub open spec fn queue_after_move(w: World) -> Seq<Event> {
    let message = WindowEvent::MouseMove(w.mouse.cursorx, w.mouse.cursory);
    if w.captured != Entity::spec_null() || w.hovered != Entity::spec_root() {
        w.queue.push(pointer_event(w, message))
    } else {
        w.queue
    }
}

/// What is remembered of the pointer after `button` went down: where the
/// pointer was and what it hovered. Further buttons leave no trace.
pub open spec fn mouse_after_press(w: World, button: MouseButton) -> MouseState {
    let data = MouseButtonData { down_x: w.mouse.cursorx, down_y: w.mouse.cursory, pressed: w.hovered };
    match button {
        MouseButton::Left => MouseState { left: data, ..w.mouse },
        MouseButton::Right => MouseState { right: data, ..w.mouse },
        MouseButton::Middle => MouseState { middle: data, ..w.mouse },
        MouseButton::Other(_) => w.mouse,
    }
}

/// The world after a button of the pointer went down or came up.
pub open spec fn after_mouse_input(w: World, button: MouseButton, state: MouseButtonState) -> World {
    match state {
        MouseButtonState::Pressed => World {
            queue: w.queue.push(pointer_event(w, WindowEvent::MouseDown(button))),
            mouse: mouse_after_press(w, button),
            ..w
        },
        MouseButtonState::Released => World {
            queue: w.queue.push(pointer_event(w, WindowEvent::MouseUp(button))),
            ..w
        },
    }
}

/// The message of a key that went down or came up.
pub open spec fn key_message(code: Code, key: Key, state: MouseButtonState) -> WindowEvent {
    match state {
        MouseButtonState::Pressed => WindowEvent::KeyDown(code, key),
        MouseButtonState::Released => WindowEvent::KeyUp(code, key),
    }
}

/// The cache after the root was given the size `width` by `height`; its clip
/// rectangle is the whole of `clip_width` by `clip_height`.
pub open spec fn cache_after_size(
    cache: Map<u32, CacheEntry>,
    width: Scalar,
    height: Scalar,
    clip_width: Scalar,
    clip_height: Scalar,
) -> Map<u32, CacheEntry> {
    written_in(
        cache,
        Entity::spec_root(),
        CacheEntry {
            width,
            height,
            clip_region: BoundingBox::spec_sized(clip_width, clip_height),
            ..entry_in(cache, Entity::spec_root())
        },
    )
}

/// The world after the window took the size `width` by `height`: the root
/// is declared and cached at that size and clips to it, and style, layout
/// and drawing are all due.
pub open spec fn after_resize(w: World, width: Scalar, height: Scalar) -> World {
    World {
        width: w.width.insert(0u32, Units::Pixels(width)),
        height: w.height.insert(0u32, Units::Pixels(height)),
        cache: cache_after_size(w.cache, width, height, width, height),
        needs_restyle: true,
        needs_relayout: true,
        needs_redraw: true,
        ..w
    }
}

/// The name of the font of text that declares none.
pub open spec fn default_font_name() -> Seq<char> {
    seq!['r', 'o', 'b', 'o', 't', 'o']
}

/// The world after the window was opened: the root is declared and cached
/// at the size that was asked for, and clips to the size that the window
/// really has.
pub open spec fn after_open(
    w: World,
    width: Scalar,
    height: Scalar,
    actual_width: Scalar,
    actual_height: Scalar,
) -> World {
    World {
        default_font: default_font_name(),
        width: w.width.insert(0u32, Units::Pixels(width)),
        height: w.height.insert(0u32, Units::Pixels(height)),
        cache: cache_after_size(w.cache, width, height, actual_width, actual_height),
        ..w
    }
}

impl Context {
    /// Puts `event` at the end of the queue.
    pub fn emit(&mut self, event: Event)
        ensures
            final(self)@ == (World { queue: old(self)@.queue.push(event), ..old(self)@ }),
    {
        self.event_queue.push_back(event);
    }

    /// Gives capture to `entity`: events of the pointer go to it alone.
    pub fn capture(&mut self, entity: Entity)
        ensures
            final(self)@ == (World { captured: entity, ..old(self)@ }),
    {
        self.captured = entity;
    }

    /// Releases capture: events of the pointer go by what is hovered again.
    pub fn release(&mut self)
        ensures
            final(self)@ == (World { captured: Entity::spec_null(), ..old(self)@ }),
    {
        self.captured = Entity::null();
    }

    /// Notes where the pointer is. What it hovers there is for the hover
    /// pass to find out; `mouse_moved` then queues the move.
    pub fn set_cursor(&mut self, x: Scalar, y: Scalar)
        ensures
            final(self)@ == (World { mouse: MouseState { cursorx: x, cursory: y, ..old(self)@.mouse }, ..old(self)@ }),
    {
        self.mouse.cursorx = x;
        self.mouse.cursory = y;
    }

    /// Queues the move of the pointer to where `set_cursor` put it.
    pub fn mouse_moved(&mut self)
        ensures
            final(self)@ == (World { queue: queue_after_move(old(self)@), ..old(self)@ }),
    {
        let message = WindowEvent::MouseMove(self.mouse.cursorx, self.mouse.cursory);
        if self.captured != Entity::null() {
            self.event_queue.push_back(
                Event::new(Message::Window(message)).target(self.captured).propagate(Propagation::Direct),
            );
        } else if self.hovered != Entity::root() {
            self.event_queue.push_back(Event::new(Message::Window(message)).target(self.hovered));
        }
    }

    /// Queues the press or release of a button of the pointer, and
    /// remembers where a press of the left, right or middle button happened.
    pub fn mouse_input(&mut self, button: MouseButton, state: MouseButtonState)
        ensures
            final(self)@ == after_mouse_input(old(self)@, button, state),
    {
        let message = match state {
            MouseButtonState::Pressed => WindowEvent::MouseDown(button),
            MouseButtonState::Released => WindowEvent::MouseUp(button),
        };
        if self.captured != Entity::null() {
            self.event_queue.push_back(
                Event::new(Message::Window(message)).target(self.captured).propagate(Propagation::Direct),
            );
        } else {
            self.event_queue.push_back(Event::new(Message::Window(message)).target(self.hovered));
        }
        match state {
            MouseButtonState::Pressed => {
                let data = MouseButtonData {
                    down_x: self.mouse.cursorx,
                    down_y: self.mouse.cursory,
                    pressed: self.hovered,
                };
                match button {
                    MouseButton::Left => {
                        self.mouse.left = data;
                    },
                    MouseButton::Right => {
                        self.mouse.right = data;
                    },
                    MouseButton::Middle => {
                        self.mouse.middle = data;
                    },
                    MouseButton::Other(_) => {},
                }
            },
            MouseButtonState::Released => {},
        }
    }

    /// Queues the press or release of a key.
    pub fn keyboard_input(&mut self, code: Code, key: Key, state: MouseButtonState)
        ensures
            final(self)@ == (World {
                queue: old(self)@.queue.push(keyboard_event(old(self)@, key_message(code, key, state))),
                ..old(self)@
            }),
    {
        let message = match state {
            MouseButtonState::Pressed => WindowEvent::KeyDown(code, key),
            MouseButtonState::Released => WindowEvent::KeyUp(code, key),
        };
        let target: Entity = if self.focused != Entity::null() {
            self.focused
        } else {
            self.hovered
        };
        self.event_queue.push_back(Event::new(Message::Window(message)).target(target).propagate(Propagation::Up));
    }

    /// Queues a typed character: upwards from the focused entity.
    pub fn received_character(&mut self, character: char)
        ensures
            final(self)@ == (World {
                queue: old(self)@.queue.push(
                    event_for(WindowEvent::CharInput(character), old(self)@.focused, Propagation::Up),
                ),
                ..old(self)@
            }),
    {
        self.event_queue.push_back(
            Event::new(Message::Window(WindowEvent::CharInput(character))).target(self.focused).propagate(
                Propagation::Up,
            ),
        );
    }

    /// Notes which modifier keys are held down.
    pub fn modifiers_changed(&mut self, shift: bool, alt: bool, ctrl: bool, logo: bool)
        ensures
            final(self)@ == (World { modifiers: Modifiers { shift, ctrl, alt, logo }, ..old(self)@ }),
    {
        self.modifiers.shift = shift;
        self.modifiers.alt = alt;
        self.modifiers.ctrl = ctrl;
        self.modifiers.logo = logo;
    }

    /// Takes in the new size of the window.
    pub fn resized(&mut self, width: Scalar, height: Scalar)
        ensures
            final(self)@ == after_resize(old(self)@, width, height),
    {
        let _ = self.style.width.insert(Entity::root(), Units::Pixels(width));
        let _ = self.style.height.insert(Entity::root(), Units::Pixels(height));
        self.set_root_size(width, height, width, height);
        self.style.needs_restyle = true;
        self.style.needs_relayout = true;
        self.style.needs_redraw = true;
    }

    /// Takes in the size that the window was asked to have and the size that
    /// it really has, once it is open.
    pub fn window_opened(&mut self, width: Scalar, height: Scalar, actual_width: Scalar, actual_height: Scalar)
        ensures
            final(self)@ == after_open(old(self)@, width, height, actual_width, actual_height),
    {
        self.style.default_font = "roboto".to_owned();
        proof {
            reveal_strlit("roboto");
            assert(self.style.default_font@ =~= default_font_name());
        }
        let _ = self.style.width.insert(Entity::root(), Units::Pixels(width));
        let _ = self.style.height.insert(Entity::root(), Units::Pixels(height));
        self.set_root_size(width, height, actual_width, actual_height);
    }

    /// Caches the size of the root and the rectangle that it clips to.
    fn set_root_size(&mut self, width: Scalar, height: Scalar, clip_width: Scalar, clip_height: Scalar)
        ensures
            final(self)@ == (World {
                cache: cache_after_size(old(self)@.cache, width, height, clip_width, clip_height),
                ..old(self)@
            }),
    {
        self.cache.set_width(Entity::root(), width);
        self.cache.set_height(Entity::root(), height);
        self.cache.set_clip_region(Entity::root(), BoundingBox::sized(clip_width, clip_height));
        assert(self.cache@ =~= cache_after_size(old(self)@.cache, width, height, clip_width, clip_height));
    }

    /// The colour that the window is cleared to before a frame is drawn: the
    /// background declared for the root, or white.
    pub fn clear_color(&self) -> (c: Color)
        ensures
            c == self.style.background_or(Entity::spec_root(), Color::spec_white()),
    {
        self.style.get_background_or(Entity::root(), Color::white())
    }

    /// The colour that the window is cleared to when it opens: the
    /// background declared for the root, or nothing at all.
    pub fn opening_color(&self) -> (c: Color)
        ensures
            c == self.style.background_or(Entity::spec_root(), Color::spec_transparent()),
    {
        self.style.get_background_or(Entity::root(), Color::transparent())
    }
}

/// While an entity holds capture, a move of the pointer is queued for that
/// entity and travels directly, wherever the pointer is and whatever it
/// hovers: two worlds that agree on who holds capture and on what is queued
/// queue it alike, but for the position that the event reports.
pub proof fn lemma_capture_overrides_hover(a: World, b: World)
    requires
        a.captured != Entity::spec_null(),
        a.captured == b.captured,
        a.queue == b.queue,
    ensures
        queue_after_move(a) == a.queue.push(
            event_for(WindowEvent::MouseMove(a.mouse.cursorx, a.mouse.cursory), a.captured, Propagation::Direct),
        ),
        queue_after_move(b) == b.queue.push(
            event_for(WindowEvent::MouseMove(b.mouse.cursorx, b.mouse.cursory), a.captured, Propagation::Direct),
        ),
        queue_after_move(a).last().target == queue_after_move(b).last().target,
        queue_after_move(a).last().propagation == queue_after_move(b).last().propagation,
{
}

} // verus!
