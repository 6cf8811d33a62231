//! Loading fonts into the font stores of the two engines.

use femtovg::{ErrorKind, TextContext};
use vizia_glutin::resource::{taken_by_renderer, taken_by_text_engine};
use vizia_glutin::{FontError, FontOrId, ResourceManager};

/// A small font with a handful of tables: enough for an engine to take it.
fn small_font() -> Vec<u8> {
    vec![
        0x00, 0x01, 0x00, 0x00, 0x00, 0x07, 0x00, 0x40, 0x00, 0x02, 0x00, 0x30, 0x63, 0x6d, 0x61, 0x70,
        0x00, 0x09, 0x00, 0x76, 0x00, 0x00, 0x01, 0x00, 0x00, 0x00, 0x00, 0x2c, 0x67, 0x6c, 0x79, 0x66,
        0xf1, 0xcb, 0x66, 0x98, 0x00, 0x00, 0x01, 0x34, 0x00, 0x00, 0x00, 0x5c, 0x68, 0x65, 0x61, 0x64,
        0xf2, 0x35, 0xdd, 0xf8, 0x00, 0x00, 0x00, 0x7c, 0x00, 0x00, 0x00, 0x36, 0x68, 0x68, 0x65, 0x61,
        0x06, 0x61, 0x00, 0xca, 0x00, 0x00, 0x00, 0xb4, 0x00, 0x00, 0x00, 0x24, 0x68, 0x6d, 0x74, 0x78,
        0x04, 0x74, 0x00, 0x6a, 0x00, 0x00, 0x00, 0xf8, 0x00, 0x00, 0x00, 0x08, 0x6c, 0x6f, 0x63, 0x61,
        0x00, 0x2e, 0x00, 0x14, 0x00, 0x00, 0x01, 0x2c, 0x00, 0x00, 0x00, 0x06, 0x6d, 0x61, 0x78, 0x70,
        0x00, 0x05, 0x00, 0x0b, 0x00, 0x00, 0x00, 0xd8, 0x00, 0x00, 0x00, 0x20, 0x00, 0x01, 0x00, 0x00,
        0x00, 0x01, 0x00, 0x00, 0xf5, 0x9c, 0x29, 0x44, 0x5f, 0x0f, 0x3c, 0xf5, 0x00, 0x02, 0x03, 0xe8,
        0x00, 0x00, 0x00, 0x00, 0xb4, 0x92, 0xf4, 0x00, 0x00, 0x00, 0x00, 0x00, 0xdc, 0x2f, 0xa6, 0x5c,
        0x00, 0x06, 0x00, 0x00, 0x02, 0x58, 0x02, 0xbc, 0x00, 0x00, 0x00, 0x03, 0x00, 0x02, 0x00, 0x00,
        0x00, 0x00, 0x00, 0x00, 0x00, 0x01, 0x00, 0x00, 0x04, 0x00, 0xfe, 0x70, 0x00, 0x00, 0x02, 0x58,
        0x00, 0x06, 0xff, 0xff, 0x02, 0x58, 0x00, 0x01, 0x00, 0x00, 0x00, 0x00, 0x00, 0x00, 0x00, 0x00,
        0x00, 0x00, 0x00, 0x00, 0x00, 0x00, 0x00, 0x02, 0x00, 0x01, 0x00, 0x00, 0x00, 0x02, 0x00, 0x0b,
        0x00, 0x02, 0x00, 0x00, 0x00, 0x00, 0x00, 0x00, 0x00, 0x00, 0x00, 0x00, 0x00, 0x00, 0x00, 0x00,
        0x00, 0x00, 0x00, 0x00, 0x00, 0x00, 0x00, 0x00, 0x02, 0x58, 0x00, 0x64, 0x02, 0x1c, 0x00, 0x06,
        0x00, 0x00, 0x00, 0x01, 0x00, 0x00, 0x00, 0x03, 0x00, 0x00, 0x00, 0x0c, 0x00, 0x04, 0x00, 0x20,
        0x00, 0x00, 0x00, 0x04, 0x00, 0x04, 0x00, 0x01, 0x00, 0x00, 0x00, 0x41, 0xff, 0xff, 0x00, 0x00,
        0x00, 0x41, 0xff, 0xff, 0xff, 0xc0, 0x00, 0x01, 0x00, 0x00, 0x00, 0x00, 0x00, 0x00, 0x00, 0x14,
        0x00, 0x2e, 0x00, 0x00, 0x00, 0x02, 0x00, 0x64, 0x00, 0x00, 0x02, 0x58, 0x02, 0xbc, 0x00, 0x03,
        0x00, 0x07, 0x00, 0x00, 0x33, 0x11, 0x21, 0x11, 0x25, 0x21, 0x11, 0x21, 0x64, 0x01, 0xf4, 0xfe,
        0x34, 0x01, 0xa4, 0xfe, 0x5c, 0x02, 0xbc, 0xfd, 0x44, 0x28, 0x02, 0x6c, 0x00, 0x02, 0x00, 0x06,
        0x00, 0x00, 0x02, 0x1d, 0x02, 0x90, 0x00, 0x02, 0x00, 0x0a, 0x00, 0x00, 0x13, 0x33, 0x03, 0x01,
        0x13, 0x33, 0x13, 0x23, 0x27, 0x23, 0x07, 0xad, 0xc4, 0x63, 0xfe, 0xf8, 0xda, 0x60, 0xdd, 0x59,
        0x3e, 0xef, 0x42, 0x01, 0x0b, 0x01, 0x40, 0xfd, 0xb5, 0x02, 0x90, 0xfd, 0x70, 0xc8, 0xc8, 0x00,
    ]
}

fn not_a_font() -> Vec<u8> {
    vec![1, 2, 3, 4, 5, 6, 7, 8]
}

#[test]
fn a_new_manager_has_no_fonts() {
    let manager = ResourceManager::new();
    assert_eq!(manager.fonts.len(), 0);
}

#[test]
fn fonts_are_kept_under_their_names_in_order() {
    let mut manager = ResourceManager::new();
    manager.add_font_mem("roboto", vec![1, 2, 3]);
    manager.add_font_mem("icon", vec![4, 5]);
    assert_eq!(manager.fonts.len(), 2);
    assert_eq!(manager.fonts[0].name, "roboto");
    assert_eq!(manager.fonts[1].name, "icon");
    assert!(matches!(&manager.fonts[0].font, FontOrId::Font(bytes) if bytes == &vec![1u8, 2, 3]));
    assert!(matches!(&manager.fonts[1].font, FontOrId::Font(bytes) if bytes == &vec![4u8, 5]));
}

#[test]
fn a_font_under_a_known_name_replaces_the_earlier_one() {
    let mut manager = ResourceManager::new();
    manager.add_font_mem("roboto", vec![1, 2, 3]);
    manager.add_font_mem("icon", vec![4, 5]);
    manager.add_font_mem("roboto", vec![9]);
    assert_eq!(manager.fonts.len(), 2);
    assert_eq!(manager.fonts[0].name, "roboto");
    assert!(matches!(&manager.fonts[0].font, FontOrId::Font(bytes) if bytes == &vec![9u8]));
    assert!(matches!(&manager.fonts[1].font, FontOrId::Font(bytes) if bytes == &vec![4u8, 5]));
}

#[test]
fn loading_gives_every_font_the_handle_that_both_engines_agree_on() {
    let renderer_fonts = TextContext::default();
    let text_fonts = TextContext::default();
    let mut manager = ResourceManager::new();
    manager.add_font_mem("first", small_font());
    manager.add_font_mem("second", small_font());
    assert_eq!(manager.load_fonts(&renderer_fonts, &text_fonts), Ok(()));
    assert_eq!(manager.fonts.len(), 2);
    assert_eq!(manager.fonts[0].name, "first");
    assert_eq!(manager.fonts[1].name, "second");
    let first = match &manager.fonts[0].font {
        FontOrId::Id(id) => *id,
        FontOrId::Font(_) => panic!("the first font was not loaded"),
    };
    let second = match &manager.fonts[1].font {
        FontOrId::Id(id) => *id,
        FontOrId::Font(_) => panic!("the second font was not loaded"),
    };
    assert_ne!(first, second);
    // A third font lands in the next slot of both engines.
    let third_in_renderer = renderer_fonts.add_font_mem(&small_font()).unwrap();
    let third_in_text = text_fonts.add_font_mem(&small_font()).unwrap();
    assert_eq!(third_in_renderer, third_in_text);
    assert_ne!(third_in_renderer, first);
    assert_ne!(third_in_renderer, second);
}

#[test]
fn loading_again_leaves_loaded_fonts_alone() {
    let renderer_fonts = TextContext::default();
    let text_fonts = TextContext::default();
    let mut manager = ResourceManager::new();
    manager.add_font_mem("first", small_font());
    assert_eq!(manager.load_fonts(&renderer_fonts, &text_fonts), Ok(()));
    let before = match &manager.fonts[0].font {
        FontOrId::Id(id) => *id,
        FontOrId::Font(_) => panic!("the font was not loaded"),
    };
    assert_eq!(manager.load_fonts(&renderer_fonts, &text_fonts), Ok(()));
    let after = match &manager.fonts[0].font {
        FontOrId::Id(id) => *id,
        FontOrId::Font(_) => panic!("the font was not loaded"),
    };
    assert_eq!(before, after);
    // Nothing was handed to the engines the second time: the next font of
    // each still lands in the second slot, which differs from the first.
    let next = renderer_fonts.add_font_mem(&small_font()).unwrap();
    assert_eq!(next, text_fonts.add_font_mem(&small_font()).unwrap());
    assert_ne!(next, before);
}

#[test]
fn bytes_that_are_no_font_stop_the_loading_at_the_renderer() {
    let renderer_fonts = TextContext::default();
    let text_fonts = TextContext::default();
    let mut manager = ResourceManager::new();
    manager.add_font_mem("good", small_font());
    manager.add_font_mem("bad", not_a_font());
    manager.add_font_mem("later", small_font());
    assert_eq!(manager.load_fonts(&renderer_fonts, &text_fonts), Err(FontError::Renderer(1)));
    assert!(matches!(&manager.fonts[0].font, FontOrId::Id(_)));
    assert!(matches!(&manager.fonts[1].font, FontOrId::Font(bytes) if bytes == &not_a_font()));
    assert!(matches!(&manager.fonts[2].font, FontOrId::Font(bytes) if bytes == &small_font()));
}

#[test]
fn engines_that_disagree_on_the_handle_stop_the_loading() {
    let renderer_fonts = TextContext::default();
    let text_fonts = TextContext::default();
    // The text engine holds a font already, so its next handle differs from
    // the next one of the renderer.
    text_fonts.add_font_mem(&small_font()).unwrap();
    let mut manager = ResourceManager::new();
    manager.add_font_mem("roboto", small_font());
    assert_eq!(manager.load_fonts(&renderer_fonts, &text_fonts), Err(FontError::Mismatch(0)));
    assert!(matches!(&manager.fonts[0].font, FontOrId::Font(_)));
}

#[test]
fn the_renderer_outcome_keeps_the_handle_or_names_the_renderer() {
    let fonts = TextContext::default();
    let id = fonts.add_font_mem(&small_font()).unwrap();
    assert_eq!(taken_by_renderer(3, Ok(id)), Ok(id));
    assert_eq!(taken_by_renderer(3, Err(ErrorKind::FontParseError)), Err(FontError::Renderer(3)));
}

#[test]
fn the_text_engine_outcome_needs_the_same_handle() {
    let fonts = TextContext::default();
    let first = fonts.add_font_mem(&small_font()).unwrap();
    let second = fonts.add_font_mem(&small_font()).unwrap();
    assert_eq!(taken_by_text_engine(0, first, Ok(first)), Ok(first));
    assert_eq!(taken_by_text_engine(0, first, Ok(second)), Err(FontError::Mismatch(0)));
    assert_eq!(taken_by_text_engine(0, second, Ok(first)), Err(FontError::Mismatch(0)));
    assert_eq!(taken_by_text_engine(7, first, Err(ErrorKind::FontParseError)), Err(FontError::TextEngine(7)));
}
