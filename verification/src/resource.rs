//! Fonts that wait to be loaded, and loading them into the two engines that
//! use them: the renderer and the text engine.

use femtovg::{ErrorKind, FontId, TextContext};
use vstd::prelude::*;

verus! {

/// The font store of an engine.
#[verifier::external_type_specification]
#[verifier::external_body]
pub struct ExTextContext(TextContext);

/// The handle under which an engine keeps a font.
#[verifier::external_type_specification]
#[verifier::external_body]
pub struct ExFontId(FontId);

/// Why an engine refused a font.
#[verifier::external_type_specification]
#[verifier::external_body]
pub struct ExErrorKind(ErrorKind);

/// Whether bytes are a font that an engine takes: whether they parse as the
/// first face of a font file. The parser is that of the font store; what it
/// takes depends on the bytes alone.
pub uninterp spec fn is_font(data: Seq<u8>) -> bool;

/// Hands the bytes of a font to a font store: `TextContext::add_font_mem` of
/// femtovg. The store parses the bytes and, if they are a font, keeps it and
/// returns its handle. Claimed: the store takes the bytes exactly where they
/// are a font, whatever it holds already. Nothing is claimed of which handle
/// it returns: that depends on what the store holds.
#[verifier::external_body]
fn add_font(fonts: &TextContext, data: &Vec<u8>) -> (r: Result<FontId, ErrorKind>)
    ensures
        r is Ok <==> is_font(data@),
{
    fonts.add_font_mem(data.as_slice())
}

/// Compares two font handles: `==` of femtovg's `FontId`, which compares the
/// slot and the version that a handle is made of. Claimed: it holds exactly
/// where the two handles are one value.
#[verifier::external_body]
fn same_font(a: FontId, b: FontId) -> (same: bool)
    ensures
        same == (a == b),
{
    a == b
}

/// A font: its bytes while it waits to be loaded, its handle afterwards.
pub enum FontOrId {
    Font(Vec<u8>),
    Id(FontId),
}

/// A font under its name.
pub struct FontEntry {
    pub name: String,
    pub font: FontOrId,
}

/// Why the fonts could not be loaded. Each reason names the place of the
/// font in the list of the resource manager. Loading ends with the first or
/// the third; the second is for a text engine that takes other bytes than
/// the renderer does.
#[derive(Clone, Copy, Debug, PartialEq, Eq, Structural)]
pub enum FontError {
    /// The renderer refused the font.
    Renderer(usize),
    /// The text engine refused the font.
    TextEngine(usize),
    /// The two engines keep the font under different handles. Text laid out
    /// by the one could not be drawn by the other.
    Mismatch(usize),
}

/// The resources of an application.
pub struct ResourceManager {
    /// The fonts, in the order in which their names were first used.
    pub fonts: Vec<FontEntry>,
}

/// Whether the font at `index` has a handle.
pub open spec fn is_loaded(fonts: Seq<FontEntry>, index: int) -> bool {
    fonts[index].font is Id
}

/// Whether the entry at `index` waits to be loaded and holds bytes that are
/// no font.
pub open spec fn is_broken(fonts: Seq<FontEntry>, index: int) -> bool {
    fonts[index].font matches FontOrId::Font(data) && !is_font(data@)
}

/// The place of the font called `name`, or the number of fonts where there
/// is none of that name.
pub open spec fn place_of(fonts: Seq<FontEntry>, name: Seq<char>) -> int
    decreases fonts.len(),
{
    if fonts.len() == 0 {
        0
    } else if fonts[0].name@ == name {
        0
    } else {
        1 + place_of(fonts.drop_first(), name)
    }
}

/// What becomes of the font at `index` once the renderer was asked to take
/// it: its handle, or the error that names the renderer.
pub fn taken_by_renderer(index: usize, outcome: Result<FontId, ErrorKind>) -> (r: Result<FontId, FontError>)
    ensures
        outcome is Ok ==> r == Ok::<FontId, FontError>(outcome->Ok_0),
        outcome is Err ==> r == Err::<FontId, FontError>(FontError::Renderer(index)),
{
    match outcome {
        Ok(id) => Ok(id),
        Err(_) => Err(FontError::Renderer(index)),
    }
}

/// What becomes of the font at `index`, which the renderer keeps as `id`,
/// once the text engine was asked to take it too: the handle, if the text
/// engine keeps the font under the same one; else the error that says what
/// went wrong.
pub fn taken_by_text_engine(index: usize, id: FontId, outcome: Result<FontId, ErrorKind>) -> (r: Result<
    FontId,
    FontError,
>)
    ensures
        outcome is Err ==> r == Err::<FontId, FontError>(FontError::TextEngine(index)),
        outcome is Ok && outcome->Ok_0 == id ==> r == Ok::<FontId, FontError>(id),
        outcome is Ok && outcome->Ok_0 != id ==> r == Err::<FontId, FontError>(FontError::Mismatch(index)),
{
    match outcome {
        Ok(other) => {
            if same_font(id, other) {
                Ok(id)
            } else {
                Err(FontError::Mismatch(index))
            }
        },
        Err(_) => Err(FontError::TextEngine(index)),
    }
}

impl ResourceManager {
    /// A manager without resources.
    pub fn new() -> (m: ResourceManager)
        ensures
            m.fonts@ == Seq::<FontEntry>::empty(),
    {
        ResourceManager { fonts: Vec::new() }
    }

    /// Puts the bytes of a font under `name`, to be loaded with the next
    /// frame. A font that was there under that name is replaced.
    pub fn add_font_mem(&mut self, name: &str, data: Vec<u8>)
        ensures
            ({
                let place = place_of(old(self).fonts@, name@);
                let entry = final(self).fonts@[place];
                &&& 0 <= place <= old(self).fonts@.len()
                &&& final(self).fonts@.len() == (if place < old(self).fonts@.len() {
                    old(self).fonts@.len()
                } else {
                    old(self).fonts@.len() + 1
                })
                &&& entry.name@ == name@
                &&& entry.font == FontOrId::Font(data)
                &&& forall|i: int|
                    0 <= i < old(self).fonts@.len() && i != place ==> #[trigger] final(self).fonts@[i] == old(
                        self,
                    ).fonts@[i]
            }),
    {
        let owned: String = name.to_owned();
        let mut i: usize = 0;
        assert(self.fonts@.skip(0) =~= self.fonts@);
        while i < self.fonts.len()
            invariant
                i <= self.fonts.len(),
                self.fonts == old(self).fonts,
                owned@ == name@,
                place_of(self.fonts@, name@) == i + place_of(self.fonts@.skip(i as int), name@),
            decreases self.fonts.len() - i,
        {
            proof {
                let rest = self.fonts@.skip(i as int);
                assert(rest[0] == self.fonts@[i as int]);
                assert(rest.drop_first() =~= self.fonts@.skip(i as int + 1));
            }
            if self.fonts[i].name == owned {
                self.fonts.set(i, FontEntry { name: owned, font: FontOrId::Font(data) });
                return ;
            }
            i += 1;
        }
        proof {
            assert(self.fonts@.skip(i as int).len() == 0);
        }
        self.fonts.push(FontEntry { name: owned, font: FontOrId::Font(data) });
    }

    /// Loads every font that waits into both engines and keeps its handle
    /// in place of its bytes. Stops at the first entry whose bytes are no
    /// font, with the error of the renderer, which is asked first; or at the
    /// first font that the two engines keep under different handles. The
    /// fonts before it are loaded by then, that one and those behind it are
    /// as they were. Without such an entry every font is loaded.
    pub fn load_fonts(&mut self, renderer_fonts: &TextContext, text_fonts: &TextContext) -> (r: Result<
        (),
        FontError,
    >)
        ensures
            final(self).fonts@.len() == old(self).fonts@.len(),
            forall|i: int|
                0 <= i < old(self).fonts@.len() ==> (#[trigger] final(self).fonts@[i]).name == old(self).fonts@[i].name,
            forall|i: int|
                0 <= i < old(self).fonts@.len() && is_loaded(old(self).fonts@, i) ==> #[trigger] final(self).fonts@[i]
                    == old(self).fonts@[i],
            r is Ok ==> forall|i: int| 0 <= i < final(self).fonts@.len() ==> #[trigger] is_loaded(final(self).fonts@, i),
            r is Ok ==> forall|i: int| 0 <= i < old(self).fonts@.len() ==> !#[trigger] is_broken(old(self).fonts@, i),
            r is Err ==> {
                let at = match r->Err_0 {
                    FontError::Renderer(i) => i,
                    FontError::TextEngine(i) => i,
                    FontError::Mismatch(i) => i,
                };
                &&& at < old(self).fonts@.len()
                &&& !is_loaded(old(self).fonts@, at as int)
                &&& forall|i: int| 0 <= i < at ==> #[trigger] is_loaded(final(self).fonts@, i)
                &&& forall|i: int|
                    at <= i < old(self).fonts@.len() ==> #[trigger] final(self).fonts@[i] == old(self).fonts@[i]
                &&& forall|i: int| 0 <= i < at ==> !#[trigger] is_broken(old(self).fonts@, i)
                &&& r->Err_0 is Renderer <==> is_broken(old(self).fonts@, at as int)
                &&& r->Err_0 is Mismatch <==> !is_broken(old(self).fonts@, at as int)
            },
    {
        let mut i: usize = 0;
        while i < self.fonts.len()
            invariant
                i <= self.fonts.len(),
                self.fonts@.len() == old(self).fonts@.len(),
                forall|k: int|
                    0 <= k < old(self).fonts@.len() ==> (#[trigger] self.fonts@[k]).name == old(self).fonts@[k].name,
                forall|k: int|
                    0 <= k < old(self).fonts@.len() && is_loaded(old(self).fonts@, k) ==> #[trigger] self.fonts@[k]
                        == old(self).fonts@[k],
                forall|k: int| 0 <= k < i ==> #[trigger] is_loaded(self.fonts@, k),
                forall|k: int| i <= k < old(self).fonts@.len() ==> #[trigger] self.fonts@[k] == old(self).fonts@[k],
                forall|k: int| 0 <= k < i ==> !#[trigger] is_broken(old(self).fonts@, k),
            decreases self.fonts.len() - i,
        {
            let loaded: Option<Result<FontId, FontError>> = match &self.fonts[i].font {
                FontOrId::Font(data) => {
                    match taken_by_renderer(i, add_font(renderer_fonts, data)) {
                        Ok(id) => Some(taken_by_text_engine(i, id, add_font(text_fonts, data))),
                        Err(e) => Some(Err(e)),
                    }
                },
                FontOrId::Id(_) => None,
            };
            let ghost before = self.fonts@;
            match loaded {
                Some(Ok(id)) => {
                    self.fonts[i].font = FontOrId::Id(id);
                    assert(self.fonts@ =~= before.update(
                        i as int,
                        FontEntry { name: before[i as int].name, font: FontOrId::Id(id) },
                    ));
                    assert forall|k: int| 0 <= k < i + 1 implies #[trigger] is_loaded(self.fonts@, k) by {
                        if k < i {
                            assert(is_loaded(before, k));
                        }
                    }
                },
                Some(Err(e)) => {
                    return Err(e);
                },
                None => {
                    assert(is_loaded(self.fonts@, i as int));
                },
            }
            i += 1;
        }
        Ok(())
    }
}

} // verus!
