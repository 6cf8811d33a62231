//! The declared style of each entity, and what has to be recomputed.

use vstd::prelude::*;
use crate::entity::Entity;
use crate::geometry::Scalar;
use crate::storage::SparseSet;

verus! {

/// A length as a style declares it.
#[derive(Clone, Copy, Debug, PartialEq, Eq, Structural)]
pub enum Units {
    /// So many pixels.
    Pixels(Scalar),
    /// So many hundredths of the parent's length.
    Percentage(Scalar),
    /// A share of the space that is left over.
    Stretch(Scalar),
    /// Whatever the content needs.
    Auto,
}

/// A colour: red, green, blue and opacity.
#[derive(Clone, Copy, Debug, PartialEq, Eq, Structural)]
pub struct Color {
    pub r: u8,
    pub g: u8,
    pub b: u8,
    pub a: u8,
}

impl Color {
    /// The colour with the given parts.
    pub fn rgba(r: u8, g: u8, b: u8, a: u8) -> (c: Color)
        ensures
            c == (Color { r, g, b, a }),
    {
        Color { r, g, b, a }
    }

    /// Opaque white.
    pub open spec fn spec_white() -> Color {
        Color { r: 255, g: 255, b: 255, a: 255 }
    }

    /// Opaque white.
    #[verifier::when_used_as_spec(spec_white)]
    pub fn white() -> (c: Color)
        ensures
            c == Color::spec_white(),
    {
        Color { r: 255, g: 255, b: 255, a: 255 }
    }

    /// Black without any opacity: the colour of what has no colour.
    pub open spec fn spec_transparent() -> Color {
        Color { r: 0, g: 0, b: 0, a: 0 }
    }

    /// Black without any opacity: the colour of what has no colour.
    #[verifier::when_used_as_spec(spec_transparent)]
    pub fn transparent() -> (c: Color)
        ensures
            c == Color::spec_transparent(),
    {
        Color { r: 0, g: 0, b: 0, a: 0 }
    }
}

/// The style store: the properties that were declared for each entity, and
/// the flags that say which passes have work to do.
pub struct Style {
    pub width: SparseSet<Units>,
    pub height: SparseSet<Units>,
    pub background_color: SparseSet<Color>,
    /// The name of the font of text that declares none.
    pub default_font: String,
    /// The resolved styles are out of date.
    pub needs_restyle: bool,
    /// The cached positions and sizes are out of date.
    pub needs_relayout: bool,
    /// What is on the screen is out of date.
    pub needs_redraw: bool,
}

impl Style {
    /// A store without declarations, with nothing to recompute.
    pub fn new() -> (s: Style)
        ensures
            s.width@ == Map::<u32, Units>::empty(),
            s.height@ == Map::<u32, Units>::empty(),
            s.background_color@ == Map::<u32, Color>::empty(),
            s.default_font@ == Seq::<char>::empty(),
            !s.needs_restyle,
            !s.needs_relayout,
            !s.needs_redraw,
    {
        Style {
            width: SparseSet::new(),
            height: SparseSet::new(),
            background_color: SparseSet::new(),
            default_font: String::new(),
            needs_restyle: false,
            needs_relayout: false,
            needs_redraw: false,
        }
    }

    /// The background colour declared for `entity`, or `fallback` where none
    /// was declared.
    pub open spec fn background_or(&self, entity: Entity, fallback: Color) -> Color {
        if self.background_color@.contains_key(entity.index) {
            self.background_color@[entity.index]
        } else {
            fallback
        }
    }

    /// The background colour declared for `entity`, or `fallback` where none
    /// was declared.
    pub fn get_background_or(&self, entity: Entity, fallback: Color) -> (c: Color)
        ensures
            c == self.background_or(entity, fallback),
    {
        match self.background_color.get(entity) {
            Some(c) => *c,
            None => fallback,
        }
    }

    /// Forgets every declaration made for `entity`.
    pub fn remove(&mut self, entity: Entity)
        ensures
            final(self).width@ == old(self).width@.remove(entity.index),
            final(self).height@ == old(self).height@.remove(entity.index),
            final(self).background_color@ == old(self).background_color@.remove(entity.index),
            final(self).default_font == old(self).default_font,
            final(self).needs_restyle == old(self).needs_restyle,
            final(self).needs_relayout == old(self).needs_relayout,
            final(self).needs_redraw == old(self).needs_redraw,
    {
        self.width.remove(entity);
        self.height.remove(entity);
        self.background_color.remove(entity);
    }
}


} // verus!
