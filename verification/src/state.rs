//! Parser state: script sections and event data modes.

use vstd::prelude::*;

use crate::chars::str_eq;

verus! {

/// Top-level section of a subtitle script.
#[derive(Debug, PartialEq, Eq, Structural, Clone, Copy)]
pub enum Section {
    Info,
    Target,
    Macros,
    Events,
    Resources,
}

impl Section {
    /// The section a header line names.
    pub fn try_from(value: &str) -> (r: Result<Section, ()>)
        ensures
            r == Section::spec_from(value@),
    {
        if str_eq(value, "#INFO") {
            Ok(Section::Info)
        } else if str_eq(value, "#TARGET") {
            Ok(Section::Target)
        } else if str_eq(value, "#MACROS") {
            Ok(Section::Macros)
        } else if str_eq(value, "#EVENTS") {
            Ok(Section::Events)
        } else if str_eq(value, "#RESOURCES") {
            Ok(Section::Resources)
        } else {
            Err(())
        }
    }

    /// Which section, if any, a header names.
    pub open spec fn spec_from(value: Seq<char>) -> Result<Section, ()> {
        if value == "#INFO"@ {
            Ok(Section::Info)
        } else if value == "#TARGET"@ {
            Ok(Section::Target)
        } else if value == "#MACROS"@ {
            Ok(Section::Macros)
        } else if value == "#EVENTS"@ {
            Ok(Section::Events)
        } else if value == "#RESOURCES"@ {
            Ok(Section::Resources)
        } else {
            Err(())
        }
    }
}

/// Geometry mode of event data.
#[derive(Debug, PartialEq, Eq, Structural, Clone, Copy)]
pub enum Mode {
    Text,
    Points,
    Shape,
}

impl Default for Mode {
    fn default() -> (r: Self)
        ensures
            r == Mode::Text,
    {
        Mode::Text
    }
}

impl Mode {
    /// The mode a tag value names.
    pub fn try_from(value: &str) -> (r: Result<Mode, ()>)
        ensures
            r == Mode::spec_from(value@),
    {
        if str_eq(value, "text") {
            Ok(Mode::Text)
        } else if str_eq(value, "points") {
            Ok(Mode::Points)
        } else if str_eq(value, "shape") {
            Ok(Mode::Shape)
        } else {
            Err(())
        }
    }

    /// Which mode, if any, a tag value names.
    pub open spec fn spec_from(value: Seq<char>) -> Result<Mode, ()> {
        if value == "text"@ {
            Ok(Mode::Text)
        } else if value == "points"@ {
            Ok(Mode::Points)
        } else if value == "shape"@ {
            Ok(Mode::Shape)
        } else {
            Err(())
        }
    }
}

/// Kind of the segment a shape token starts.
#[derive(Debug, PartialEq, Eq, Structural, Clone, Copy)]
pub enum ShapeSegmentType {
    Move,
    Line,
    Curve,
    Arc,
}

impl Default for ShapeSegmentType {
    fn default() -> (r: Self)
        ensures
            r == ShapeSegmentType::Move,
    {
        ShapeSegmentType::Move
    }
}

} // verus!
