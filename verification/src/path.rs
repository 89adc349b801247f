//! Path model: a raw path (may contain curves and arcs) and a flattened
//! path (straight segments only), with builder operations.
//!
//! A `Close` is a marker, not a computed edge: the rasterizer, not the
//! builder, treats the gap between the last point and the most recent
//! `MoveTo` point as an implicit closing edge when they differ.

use vstd::prelude::*;

use crate::point::{Degree, Point};

verus! {

/// Segment of a raw path. The start point of a `CurveTo` or `ArcBy` is the
/// implicit current point; an `ArcBy` ends at the current point rotated
/// about the center by the signed sweep angle.
#[derive(Debug, PartialEq, Eq, Structural, Clone, Copy)]
pub enum PathSegment {
    MoveTo(Point),
    LineTo(Point),
    CurveTo(Point, Point, Point),
    ArcBy(Point, Degree),
    Close,
}

/// Segment of a flattened path: the reduced alphabet without curves.
#[derive(Debug, PartialEq, Eq, Structural, Clone, Copy)]
pub enum FlatPathSegment {
    MoveTo(Point),
    LineTo(Point),
    Close,
}

/// A raw path: an ordered sequence of segments; order defines drawing
/// order. Immutable once handed to the flattener.
#[derive(Debug, PartialEq, Clone)]
pub struct Path {
    segments: Vec<PathSegment>,
}

/// A flattened path: an ordered sequence of straight segments. Immutable
/// once handed to the rasterizer.
#[derive(Debug, PartialEq, Clone)]
pub struct FlatPath {
    segments: Vec<FlatPathSegment>,
}

impl View for Path {
    type V = Seq<PathSegment>;

    closed spec fn view(&self) -> Seq<PathSegment> {
        self.segments@
    }
}

impl View for FlatPath {
    type V = Seq<FlatPathSegment>;

    closed spec fn view(&self) -> Seq<FlatPathSegment> {
        self.segments@
    }
}

impl Path {
    /// Fresh empty path.
    pub fn new() -> (r: Path)
        ensures
            r@ == Seq::<PathSegment>::empty(),
    {
        Path { segments: Vec::new() }
    }

    /// Read-only ordered view of the segments.
    pub fn segments(&self) -> (r: &Vec<PathSegment>)
        ensures
            r@ == self@,
    {
        &self.segments
    }

    /// Append a `MoveTo`.
    pub fn move_to(&mut self, point: Point)
        ensures
            final(self)@ == old(self)@.push(PathSegment::MoveTo(point)),
    {
        self.segments.push(PathSegment::MoveTo(point));
    }

    /// Append a `LineTo`.
    pub fn line_to(&mut self, point: Point)
        ensures
            final(self)@ == old(self)@.push(PathSegment::LineTo(point)),
    {
        self.segments.push(PathSegment::LineTo(point));
    }

    /// Append a `CurveTo` (control 1, control 2, end).
    pub fn curve_to(&mut self, control1: Point, control2: Point, end: Point)
        ensures
            final(self)@ == old(self)@.push(PathSegment::CurveTo(control1, control2, end)),
    {
        self.segments.push(PathSegment::CurveTo(control1, control2, end));
    }

    /// Append an `ArcBy` (center, sweep angle in millionths of a degree).
    pub fn arc_by(&mut self, center: Point, angle: Degree)
        ensures
            final(self)@ == old(self)@.push(PathSegment::ArcBy(center, angle)),
    {
        self.segments.push(PathSegment::ArcBy(center, angle));
    }

    /// Append a `Close` marker.
    pub fn close(&mut self)
        ensures
            final(self)@ == old(self)@.push(PathSegment::Close),
    {
        self.segments.push(PathSegment::Close);
    }
}

impl FlatPath {
    /// Fresh empty path.
    pub fn new() -> (r: FlatPath)
        ensures
            r@ == Seq::<FlatPathSegment>::empty(),
    {
        FlatPath { segments: Vec::new() }
    }

    /// Read-only ordered view of the segments.
    pub fn segments(&self) -> (r: &Vec<FlatPathSegment>)
        ensures
            r@ == self@,
    {
        &self.segments
    }

    /// Append a `MoveTo`.
    pub fn move_to(&mut self, point: Point)
        ensures
            final(self)@ == old(self)@.push(FlatPathSegment::MoveTo(point)),
    {
        self.segments.push(FlatPathSegment::MoveTo(point));
    }

    /// Append a `LineTo`.
    pub fn line_to(&mut self, point: Point)
        ensures
            final(self)@ == old(self)@.push(FlatPathSegment::LineTo(point)),
    {
        self.segments.push(FlatPathSegment::LineTo(point));
    }

    /// Append a `Close` marker.
    pub fn close(&mut self)
        ensures
            final(self)@ == old(self)@.push(FlatPathSegment::Close),
    {
        self.segments.push(FlatPathSegment::Close);
    }
}

/// The point named by a flat segment; the origin for `Close`.
pub open spec fn flat_segment_point(seg: FlatPathSegment) -> Point {
    match seg {
        FlatPathSegment::MoveTo(p) => p,
        FlatPathSegment::LineTo(p) => p,
        FlatPathSegment::Close => Point { x: 0, y: 0 },
    }
}

/// Every point of the flattened path lies within the accepted
/// coordinate range (the upstream-validation precondition of the
/// rasterizer).
pub open spec fn flat_path_ok(segs: Seq<FlatPathSegment>) -> bool {
    forall|i: int| 0 <= i < segs.len() ==> #[trigger] flat_segment_point(segs[i]).ok()
}

} // verus!
