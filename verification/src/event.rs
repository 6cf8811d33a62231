//! Events: what is sent, to whom, and how it travels through the tree.

use vstd::prelude::*;
use crate::entity::Entity;
use crate::geometry::Scalar;

verus! {

/// The rule that decides which entities along a tree path receive an event.
#[derive(Clone, Copy, Debug, PartialEq, Eq, Structural)]
pub enum Propagation {
    /// Only the target receives the event.
    Direct,
    /// The target receives the event first, then each ancestor up to the root.
    Up,
    /// The root receives the event first, then each entity down to the target.
    Down,
    /// The target receives the event first, then the entities below it in
    /// document order.
    Fallback,
}

/// A button of the pointing device.
#[derive(Clone, Copy, Debug, PartialEq, Eq, Structural)]
pub enum MouseButton {
    Left,
    Right,
    Middle,
    /// A further button, by the platform's number for it.
    Other(u16),
}

/// Whether a button or a key went down or came up.
#[derive(Clone, Copy, Debug, PartialEq, Eq, Structural)]
pub enum MouseButtonState {
    Pressed,
    Released,
}

/// A physical key, by the number the platform adapter gives it.
#[derive(Clone, Copy, Debug, PartialEq, Eq, Structural)]
pub struct Code {
    pub value: u32,
}

/// The meaning of a key under the current layout, by the number the platform
/// adapter gives it.
#[derive(Clone, Copy, Debug, PartialEq, Eq, Structural)]
pub struct Key {
    pub value: u32,
}

/// What the window tells the interface.
#[derive(Clone, Copy, Debug, PartialEq, Eq, Structural)]
pub enum WindowEvent {
    /// The pointer moved to the given position.
    MouseMove(Scalar, Scalar),
    /// A button went down.
    MouseDown(MouseButton),
    /// A button came up.
    MouseUp(MouseButton),
    /// A key went down.
    KeyDown(Code, Key),
    /// A key came up.
    KeyUp(Code, Key),
    /// A character was typed.
    CharInput(char),
    /// The cached geometry of the target differs from that of the frame before.
    GeometryChanged,
}

/// The payload of an event.
#[derive(Clone, Copy, Debug, PartialEq, Eq, Structural)]
pub enum Message {
    /// An event of the window.
    Window(WindowEvent),
    /// An event of the application. The runtime routes it by its ticket and
    /// leaves its meaning to the handlers.
    Custom(u64),
    /// Nothing: such an event only wakes the loop.
    Empty,
}

/// A message on its way to an entity.
#[derive(Clone, Copy, Debug, PartialEq, Eq, Structural)]
pub struct Event {
    pub message: Message,
    pub target: Entity,
    pub propagation: Propagation,
    /// Set by a handler to stop the event from travelling further.
    pub consumed: bool,
}

impl Event {
    /// A new event: aimed at no entity, travelling upwards, not consumed.
    pub open spec fn spec_new(message: Message) -> Event {
        Event { message, target: Entity::spec_null(), propagation: Propagation::Up, consumed: false }
    }

    /// A new event: aimed at no entity, travelling upwards, not consumed.
    #[verifier::when_used_as_spec(spec_new)]
    pub fn new(message: Message) -> (e: Event)
        ensures
            e == Event::spec_new(message),
    {
        Event { message, target: Entity::null(), propagation: Propagation::Up, consumed: false }
    }

    /// The same event, aimed at `entity`.
    pub open spec fn spec_target(self, entity: Entity) -> Event {
        Event { target: entity, ..self }
    }

    /// The same event, aimed at `entity`.
    #[verifier::when_used_as_spec(spec_target)]
    pub fn target(self, entity: Entity) -> (e: Event)
        ensures
            e == self.spec_target(entity),
    {
        Event { target: entity, ..self }
    }

    /// The same event, travelling by `propagation`.
    pub open spec fn spec_propagate(self, propagation: Propagation) -> Event {
        Event { propagation, ..self }
    }

    /// The same event, travelling by `propagation`.
    #[verifier::when_used_as_spec(spec_propagate)]
    pub fn propagate(self, propagation: Propagation) -> (e: Event)
        ensures
            e == self.spec_propagate(propagation),
    {
        Event { propagation, ..self }
    }

    /// Stops the event from travelling further.
    pub fn consume(&mut self)
        ensures
            *final(self) == (Event { consumed: true, ..*old(self) }),
    {
        self.consumed = true;
    }
}

} // verus!
