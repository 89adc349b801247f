//! Conversions from script text to typed values.

use ssb::data::{FontFace, FontStyle, ViewKind};
use ssb::objects::{Blend, Cap, Direction, Join, MaskMode, Numpad, Target, TextureWrapping, WrapStyle};
use ssb::state::{Mode, Section};

#[test]
fn data_convert() {
    assert_eq!(
        ViewKind::from_str("orthogonal").expect("View instance expected!"),
        ViewKind::Orthogonal
    );
    assert_eq!(
        FontStyle::from_str("bold-italic").expect("FontStyle instance expected!"),
        FontStyle::BoldItalic
    );
}

#[test]
fn ssb_convert() {
    assert_eq!(ViewKind::try_from("orthogonal"), Ok(ViewKind::Orthogonal));
    assert_eq!(ViewKind::try_from("perspective"), Ok(ViewKind::Perspective));
    assert_eq!(ViewKind::try_from("fuzzy"), Err(()));
    assert_eq!(FontStyle::try_from("regular"), Ok(FontStyle::Regular));
    assert_eq!(FontStyle::try_from("bold"), Ok(FontStyle::Bold));
    assert_eq!(FontStyle::try_from("italic"), Ok(FontStyle::Italic));
    assert_eq!(FontStyle::try_from("bold-italic"), Ok(FontStyle::BoldItalic));
    assert_eq!(FontStyle::try_from("ultra-bold"), Err(()));
}

#[test]
fn objects_convert() {
    assert_eq!(Numpad::try_from(7u8).expect("Numpad expected!"), Numpad::TopLeft);
    assert_eq!(
        WrapStyle::try_from("character").expect("Wrap style expected!"),
        WrapStyle::Character
    );
    assert_eq!(Direction::try_from("ttb").expect("Direction expected!"), Direction::TopToBottom);
    assert_eq!(Join::try_from("bevel").expect("Join expected!"), Join::Bevel);
    assert_eq!(Cap::try_from("butt").expect("Cap expected!"), Cap::Butt);
    assert_eq!(
        TextureWrapping::try_from("mirror").expect("TextureWrapping expected!"),
        TextureWrapping::Mirror
    );
    assert_eq!(Blend::try_from("invert").expect("Blend expected!"), Blend::Invert);
    assert_eq!(Target::try_from("mask").expect("Target expected!"), Target::Mask);
    assert_eq!(MaskMode::try_from("invert").expect("MaskMode expected!"), MaskMode::Invert);
}

#[test]
fn event_objects_convert() {
    assert_eq!(Numpad::try_from(7u8), Ok(Numpad::TopLeft));
    assert_eq!(WrapStyle::try_from("character"), Ok(WrapStyle::Character));
    assert_eq!(Direction::try_from("ttb"), Ok(Direction::TopToBottom));
    assert_eq!(Join::try_from("bevel"), Ok(Join::Bevel));
    assert_eq!(Cap::try_from("butt"), Ok(Cap::Butt));
    assert_eq!(TextureWrapping::try_from("mirror"), Ok(TextureWrapping::Mirror));
    assert_eq!(Blend::try_from("invert"), Ok(Blend::Invert));
    assert_eq!(Target::try_from("mask"), Ok(Target::Mask));
    assert_eq!(MaskMode::try_from("invert"), Ok(MaskMode::Invert));
}

#[test]
fn tags_convert() {
    assert_eq!(Numpad::try_from(7u8).expect("Numpad expected!"), Numpad::TopLeft);
    assert_eq!(
        WrapStyle::try_from("character").expect("Wrap style expected!"),
        WrapStyle::Character
    );
    assert_eq!(Direction::try_from("ttb").expect("Direction expected!"), Direction::TopToBottom);
    assert_eq!(Join::try_from("bevel").expect("Join expected!"), Join::Bevel);
    assert_eq!(Cap::try_from("butt").expect("Cap expected!"), Cap::Butt);
    assert_eq!(
        TextureWrapping::try_from("mirror").expect("TextureWrapping expected!"),
        TextureWrapping::Mirror
    );
}

#[test]
fn state_convert() {
    assert_eq!(Section::try_from("#EVENTS"), Ok(Section::Events));
    assert_eq!(Section::try_from("#EVENT"), Err(()));
    assert_eq!(Mode::try_from("shape"), Ok(Mode::Shape));
    assert_eq!(Mode::try_from("lines"), Err(()));
}

#[test]
fn font_face_label() {
    let face = FontFace { family: "Arial".to_string(), style: FontStyle::BoldItalic };
    assert_eq!(face.label(), "Arial (bold-italic)");
}

#[test]
fn convert_defaults() {
    assert_eq!(Mode::default(), Mode::Text);
    assert_eq!(ssb::state::ShapeSegmentType::default(), ssb::state::ShapeSegmentType::Move);
}
