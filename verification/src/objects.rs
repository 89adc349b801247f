//! Event objects: the typed form of parsed event data, geometries and
//! style tags.

use vstd::prelude::*;

use crate::chars::str_eq;
use crate::point::{Coordinate, Degree};

verus! {

/// A two-dimensional point of event geometry, in thousandths of a
/// device unit.
#[derive(Debug, PartialEq, Eq, Structural, Clone, Copy)]
pub struct Point2D {
    pub x: Coordinate,
    pub y: Coordinate,
}

/// A three-dimensional point of event geometry.
#[derive(Debug, PartialEq, Eq, Structural, Clone, Copy)]
pub struct Point3D {
    pub x: Coordinate,
    pub y: Coordinate,
    pub z: Coordinate,
}

/// A color triple.
pub type Rgb = [u8; 3];

/// One object of an event: a geometry or a style tag.
#[derive(Debug, PartialEq)]
pub enum EventObject {
    GeometryShape(Vec<ShapeSegment>),
    GeometryPoints(Vec<Point2D>),
    GeometryText(String),
    TagFont(String),
    TagSize(Coordinate),
    TagBold(bool),
    TagItalic(bool),
    TagUnderline(bool),
    TagStrikeout(bool),
    TagPosition(Point3D),
    TagAlignment(Alignment),
    TagMargin(Margin),
    TagWrapStyle(WrapStyle),
    TagDirection(Direction),
    TagSpace(Space),
    TagRotate(Rotate),
    TagScale(Scale),
    TagTranslate(Translate),
    TagShear(Shear),
    TagMatrix(Box<[Degree; 16]>),
    TagBorder(Border),
    TagJoin(Join),
    TagCap(Cap),
    TagTexture(String),
    TagTexFill(Box<TexFill>),
    TagColor(Color),
    TagBorderColor(Color),
    TagAlpha(Alpha),
    TagBorderAlpha(Alpha),
    TagBlur(Blur),
    TagBlend(Blend),
    TagTarget(Target),
    TagMaskMode(MaskMode),
    TagMaskClear,
    TagAnimate(Box<Animate>),
    TagKaraoke(u32),
    TagKaraokeSet(i32),
    TagKaraokeColor(Rgb),
}

/// A segment of event shape geometry.
#[derive(Debug, PartialEq, Clone)]
pub enum ShapeSegment {
    MoveTo(Point2D),
    LineTo(Point2D),
    CurveTo(Point2D, Point2D, Point2D),
    ArcBy(Point2D, Degree),
    Close,
}

/// Text alignment: a numpad position or a free offset.
#[derive(Debug, PartialEq, Clone)]
pub enum Alignment {
    Numpad(Numpad),
    Offset(Point2D),
}

/// Alignment position named by its digit on a numeric keypad.
#[derive(Debug, PartialEq, Eq, Structural, Clone, Copy)]
pub enum Numpad {
    TopLeft,
    TopCenter,
    TopRight,
    MiddleLeft,
    MiddleCenter,
    MiddleRight,
    BottomLeft,
    BottomCenter,
    BottomRight,
}

impl Numpad {
    /// The alignment a keypad digit names.
    pub fn try_from(value: u8) -> (r: Result<Numpad, ()>)
        ensures
            r == Numpad::spec_from(value),
    {
        match value {
            1u8 => Ok(Numpad::BottomLeft),
            2u8 => Ok(Numpad::BottomCenter),
            3u8 => Ok(Numpad::BottomRight),
            4u8 => Ok(Numpad::MiddleLeft),
            5u8 => Ok(Numpad::MiddleCenter),
            6u8 => Ok(Numpad::MiddleRight),
            7u8 => Ok(Numpad::TopLeft),
            8u8 => Ok(Numpad::TopCenter),
            9u8 => Ok(Numpad::TopRight),
            _ => Err(()),
        }
    }

    /// Which alignment, if any, a keypad digit names.
    pub open spec fn spec_from(value: u8) -> Result<Numpad, ()> {
        match value {
            1u8 => Ok(Numpad::BottomLeft),
            2u8 => Ok(Numpad::BottomCenter),
            3u8 => Ok(Numpad::BottomRight),
            4u8 => Ok(Numpad::MiddleLeft),
            5u8 => Ok(Numpad::MiddleCenter),
            6u8 => Ok(Numpad::MiddleRight),
            7u8 => Ok(Numpad::TopLeft),
            8u8 => Ok(Numpad::TopCenter),
            9u8 => Ok(Numpad::TopRight),
            _ => Err(()),
        }
    }
}

/// Margins around the layout area.
#[derive(Debug, PartialEq, Eq, Structural, Clone, Copy)]
pub enum Margin {
    All(Coordinate, Coordinate, Coordinate, Coordinate),
    Top(Coordinate),
    Right(Coordinate),
    Bottom(Coordinate),
    Left(Coordinate),
}

/// How text wraps at the layout bounds.
#[derive(Debug, PartialEq, Eq, Structural, Clone, Copy)]
pub enum WrapStyle {
    Space,
    Character,
    NoWrap,
}

impl WrapStyle {
    /// The wrap style a tag value names.
    pub fn try_from(value: &str) -> (r: Result<WrapStyle, ()>)
        ensures
            r == WrapStyle::spec_from(value@),
    {
        if str_eq(value, "space") {
            Ok(WrapStyle::Space)
        } else if str_eq(value, "character") {
            Ok(WrapStyle::Character)
        } else if str_eq(value, "nowrap") {
            Ok(WrapStyle::NoWrap)
        } else {
            Err(())
        }
    }

    /// Which wrap style, if any, a tag value names.
    pub open spec fn spec_from(value: Seq<char>) -> Result<WrapStyle, ()> {
        if value == "space"@ {
            Ok(WrapStyle::Space)
        } else if value == "character"@ {
            Ok(WrapStyle::Character)
        } else if value == "nowrap"@ {
            Ok(WrapStyle::NoWrap)
        } else {
            Err(())
        }
    }
}

/// Direction text flows in.
#[derive(Debug, PartialEq, Eq, Structural, Clone, Copy)]
pub enum Direction {
    LeftToRight,
    RightToLeft,
    TopToBottom,
    BottomToTop,
}

impl Direction {
    /// The direction a tag value names.
    pub fn try_from(value: &str) -> (r: Result<Direction, ()>)
        ensures
            r == Direction::spec_from(value@),
    {
        if str_eq(value, "ltr") {
            Ok(Direction::LeftToRight)
        } else if str_eq(value, "rtl") {
            Ok(Direction::RightToLeft)
        } else if str_eq(value, "ttb") {
            Ok(Direction::TopToBottom)
        } else if str_eq(value, "btt") {
            Ok(Direction::BottomToTop)
        } else {
            Err(())
        }
    }

    /// Which direction, if any, a tag value names.
    pub open spec fn spec_from(value: Seq<char>) -> Result<Direction, ()> {
        if value == "ltr"@ {
            Ok(Direction::LeftToRight)
        } else if value == "rtl"@ {
            Ok(Direction::RightToLeft)
        } else if value == "ttb"@ {
            Ok(Direction::TopToBottom)
        } else if value == "btt"@ {
            Ok(Direction::BottomToTop)
        } else {
            Err(())
        }
    }
}

/// Extra spacing between glyphs.
#[derive(Debug, PartialEq, Eq, Structural, Clone, Copy)]
pub enum Space {
    All(Coordinate, Coordinate),
    Horizontal(Coordinate),
    Vertical(Coordinate),
}

/// Rotation around the axes, in millionths of a degree.
#[derive(Debug, PartialEq, Eq, Structural, Clone, Copy)]
pub enum Rotate {
    All(Degree, Degree, Degree),
    X(Degree),
    Y(Degree),
    Z(Degree),
}

/// Scaling along the axes, in millionths of a unit factor.
#[derive(Debug, PartialEq, Eq, Structural, Clone, Copy)]
pub enum Scale {
    All(Degree, Degree, Degree),
    X(Degree),
    Y(Degree),
    Z(Degree),
}

/// Translation along the axes.
#[derive(Debug, PartialEq, Eq, Structural, Clone, Copy)]
pub enum Translate {
    All(Coordinate, Coordinate, Coordinate),
    X(Coordinate),
    Y(Coordinate),
    Z(Coordinate),
}

/// Shearing in the plane, in millionths of a unit factor.
#[derive(Debug, PartialEq, Eq, Structural, Clone, Copy)]
pub enum Shear {
    All(Degree, Degree),
    X(Degree),
    Y(Degree),
}

/// Border thickness.
#[derive(Debug, PartialEq, Eq, Structural, Clone, Copy)]
pub enum Border {
    All(Coordinate, Coordinate),
    Horizontal(Coordinate),
    Vertical(Coordinate),
}

/// How border segments join.
#[derive(Debug, PartialEq, Eq, Structural, Clone, Copy)]
pub enum Join {
    Round,
    Bevel,
    Miter,
}

impl Join {
    /// The join style a tag value names.
    pub fn try_from(value: &str) -> (r: Result<Join, ()>)
        ensures
            r == Join::spec_from(value@),
    {
        if str_eq(value, "round") {
            Ok(Join::Round)
        } else if str_eq(value, "bevel") {
            Ok(Join::Bevel)
        } else if str_eq(value, "miter") {
            Ok(Join::Miter)
        } else {
            Err(())
        }
    }

    /// Which join style, if any, a tag value names.
    pub open spec fn spec_from(value: Seq<char>) -> Result<Join, ()> {
        if value == "round"@ {
            Ok(Join::Round)
        } else if value == "bevel"@ {
            Ok(Join::Bevel)
        } else if value == "miter"@ {
            Ok(Join::Miter)
        } else {
            Err(())
        }
    }
}

/// How line ends are capped.
#[derive(Debug, PartialEq, Eq, Structural, Clone, Copy)]
pub enum Cap {
    Round,
    Butt,
    Square,
}

impl Cap {
    /// The cap style a tag value names.
    pub fn try_from(value: &str) -> (r: Result<Cap, ()>)
        ensures
            r == Cap::spec_from(value@),
    {
        if str_eq(value, "round") {
            Ok(Cap::Round)
        } else if str_eq(value, "butt") {
            Ok(Cap::Butt)
        } else if str_eq(value, "square") {
            Ok(Cap::Square)
        } else {
            Err(())
        }
    }

    /// Which cap style, if any, a tag value names.
    pub open spec fn spec_from(value: Seq<char>) -> Result<Cap, ()> {
        if value == "round"@ {
            Ok(Cap::Round)
        } else if value == "butt"@ {
            Ok(Cap::Butt)
        } else if value == "square"@ {
            Ok(Cap::Square)
        } else {
            Err(())
        }
    }
}

/// Texture fill coordinates and wrapping.
#[derive(Debug, PartialEq, Clone)]
pub struct TexFill {
    pub x0: Degree,
    pub y0: Degree,
    pub x1: Degree,
    pub y1: Degree,
    pub wrap: TextureWrapping,
}

/// How a texture repeats outside its bounds.
#[derive(Debug, PartialEq, Eq, Structural, Clone, Copy)]
pub enum TextureWrapping {
    Pad,
    Clamp,
    Repeat,
    Mirror,
}

impl TextureWrapping {
    /// The wrapping a tag value names.
    pub fn try_from(value: &str) -> (r: Result<TextureWrapping, ()>)
        ensures
            r == TextureWrapping::spec_from(value@),
    {
        if str_eq(value, "pad") {
            Ok(TextureWrapping::Pad)
        } else if str_eq(value, "clamp") {
            Ok(TextureWrapping::Clamp)
        } else if str_eq(value, "repeat") {
            Ok(TextureWrapping::Repeat)
        } else if str_eq(value, "mirror") {
            Ok(TextureWrapping::Mirror)
        } else {
            Err(())
        }
    }

    /// Which wrapping, if any, a tag value names.
    pub open spec fn spec_from(value: Seq<char>) -> Result<TextureWrapping, ()> {
        if value == "pad"@ {
            Ok(TextureWrapping::Pad)
        } else if value == "clamp"@ {
            Ok(TextureWrapping::Clamp)
        } else if value == "repeat"@ {
            Ok(TextureWrapping::Repeat)
        } else if value == "mirror"@ {
            Ok(TextureWrapping::Mirror)
        } else {
            Err(())
        }
    }
}

/// Fill color: flat, or interpolated between corners.
#[derive(Debug, PartialEq, Eq, Clone, Copy)]
pub enum Color {
    Mono(Rgb),
    Linear([Rgb; 2]),
    LinearWithStop([Rgb; 3]),
    Corners([Rgb; 4]),
    CornersWithStop([Rgb; 5]),
}

/// Fill opacity: flat, or interpolated between corners.
#[derive(Debug, PartialEq, Eq, Clone, Copy)]
pub enum Alpha {
    Mono(u8),
    Linear([u8; 2]),
    LinearWithStop([u8; 3]),
    Corners([u8; 4]),
    CornersWithStop([u8; 5]),
}

/// Blur radii.
#[derive(Debug, PartialEq, Eq, Structural, Clone, Copy)]
pub enum Blur {
    All(Coordinate, Coordinate),
    Horizontal(Coordinate),
    Vertical(Coordinate),
}

/// How pixels mix with what is under them.
#[derive(Debug, PartialEq, Eq, Structural, Clone, Copy)]
pub enum Blend {
    Add,
    Subtract,
    Multiply,
    Invert,
    Difference,
    Screen,
}

impl Blend {
    /// The blend mode a tag value names.
    pub fn try_from(value: &str) -> (r: Result<Blend, ()>)
        ensures
            r == Blend::spec_from(value@),
    {
        if str_eq(value, "add") {
            Ok(Blend::Add)
        } else if str_eq(value, "subtract") {
            Ok(Blend::Subtract)
        } else if str_eq(value, "multiply") {
            Ok(Blend::Multiply)
        } else if str_eq(value, "invert") {
            Ok(Blend::Invert)
        } else if str_eq(value, "difference") {
            Ok(Blend::Difference)
        } else if str_eq(value, "screen") {
            Ok(Blend::Screen)
        } else {
            Err(())
        }
    }

    /// Which blend mode, if any, a tag value names.
    pub open spec fn spec_from(value: Seq<char>) -> Result<Blend, ()> {
        if value == "add"@ {
            Ok(Blend::Add)
        } else if value == "subtract"@ {
            Ok(Blend::Subtract)
        } else if value == "multiply"@ {
            Ok(Blend::Multiply)
        } else if value == "invert"@ {
            Ok(Blend::Invert)
        } else if value == "difference"@ {
            Ok(Blend::Difference)
        } else if value == "screen"@ {
            Ok(Blend::Screen)
        } else {
            Err(())
        }
    }
}

/// Which plane the event draws on.
#[derive(Debug, PartialEq, Eq, Structural, Clone, Copy)]
pub enum Target {
    Frame,
    Mask,
}

impl Target {
    /// The target a tag value names.
    pub fn try_from(value: &str) -> (r: Result<Target, ()>)
        ensures
            r == Target::spec_from(value@),
    {
        if str_eq(value, "frame") {
            Ok(Target::Frame)
        } else if str_eq(value, "mask") {
            Ok(Target::Mask)
        } else {
            Err(())
        }
    }

    /// Which target, if any, a tag value names.
    pub open spec fn spec_from(value: Seq<char>) -> Result<Target, ()> {
        if value == "frame"@ {
            Ok(Target::Frame)
        } else if value == "mask"@ {
            Ok(Target::Mask)
        } else {
            Err(())
        }
    }
}

/// How the mask plane applies.
#[derive(Debug, PartialEq, Eq, Structural, Clone, Copy)]
pub enum MaskMode {
    Normal,
    Invert,
}

impl MaskMode {
    /// The mask mode a tag value names.
    pub fn try_from(value: &str) -> (r: Result<MaskMode, ()>)
        ensures
            r == MaskMode::spec_from(value@),
    {
        if str_eq(value, "normal") {
            Ok(MaskMode::Normal)
        } else if str_eq(value, "invert") {
            Ok(MaskMode::Invert)
        } else {
            Err(())
        }
    }

    /// Which mask mode, if any, a tag value names.
    pub open spec fn spec_from(value: Seq<char>) -> Result<MaskMode, ()> {
        if value == "normal"@ {
            Ok(MaskMode::Normal)
        } else if value == "invert"@ {
            Ok(MaskMode::Invert)
        } else {
            Err(())
        }
    }
}

/// A tag animation: target time range, interpolation formula, tags.
#[derive(Debug, PartialEq)]
pub struct Animate {
    pub time: Option<(i32, i32)>,
    pub formula: Option<String>,
    pub tags: Vec<EventObject>,
}

} // verus!
