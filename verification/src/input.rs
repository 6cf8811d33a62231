//! What the runtime remembers of the pointing device and the keyboard.

use vstd::prelude::*;
use crate::entity::Entity;
use crate::geometry::Scalar;

verus! {

/// What is remembered of one button of the pointing device.
#[derive(Clone, Copy, Debug, PartialEq, Eq, Structural)]
pub struct MouseButtonData {
    /// Where the pointer was when the button last went down: across.
    pub down_x: Scalar,
    /// Where the pointer was when the button last went down: downwards.
    pub down_y: Scalar,
    /// The entity under the pointer when the button last went down.
    pub pressed: Entity,
}

impl MouseButtonData {
    /// A button that has not gone down yet.
    pub open spec fn spec_new() -> MouseButtonData {
        MouseButtonData { down_x: Scalar::spec_zero(), down_y: Scalar::spec_zero(), pressed: Entity::spec_null() }
    }

    /// A button that has not gone down yet.
    #[verifier::when_used_as_spec(spec_new)]
    pub fn new() -> (d: MouseButtonData)
        ensures
            d == MouseButtonData::spec_new(),
    {
        MouseButtonData { down_x: Scalar::zero(), down_y: Scalar::zero(), pressed: Entity::null() }
    }
}

/// What is remembered of the pointing device.
#[derive(Clone, Copy, Debug, PartialEq, Eq, Structural)]
pub struct MouseState {
    pub cursorx: Scalar,
    pub cursory: Scalar,
    pub left: MouseButtonData,
    pub right: MouseButtonData,
    pub middle: MouseButtonData,
}

impl MouseState {
    /// The pointer at the origin, no button pressed yet.
    pub open spec fn spec_new() -> MouseState {
        MouseState {
            cursorx: Scalar::spec_zero(),
            cursory: Scalar::spec_zero(),
            left: MouseButtonData::spec_new(),
            right: MouseButtonData::spec_new(),
            middle: MouseButtonData::spec_new(),
        }
    }

    /// The pointer at the origin, no button pressed yet.
    #[verifier::when_used_as_spec(spec_new)]
    pub fn new() -> (m: MouseState)
        ensures
            m == MouseState::spec_new(),
    {
        MouseState {
            cursorx: Scalar::zero(),
            cursory: Scalar::zero(),
            left: MouseButtonData::new(),
            right: MouseButtonData::new(),
            middle: MouseButtonData::new(),
        }
    }
}

/// The modifier keys that are held down.
#[derive(Clone, Copy, Debug, PartialEq, Eq, Structural)]
pub struct Modifiers {
    pub shift: bool,
    pub ctrl: bool,
    pub alt: bool,
    pub logo: bool,
}

impl Modifiers {
    /// No modifier key held down.
    pub open spec fn spec_empty() -> Modifiers {
        Modifiers { shift: false, ctrl: false, alt: false, logo: false }
    }

    /// No modifier key held down.
    #[verifier::when_used_as_spec(spec_empty)]
    pub fn empty() -> (m: Modifiers)
        ensures
            m == Modifiers::spec_empty(),
    {
        Modifiers { shift: false, ctrl: false, alt: false, logo: false }
    }
}

} // verus!
