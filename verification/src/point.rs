//! Points of path segments and their fixed-point coordinate arithmetic.

use vstd::prelude::*;

verus! {

/// A path coordinate, in thousandths of a device unit.
pub type Coordinate = i32;

/// An angle, in millionths of a degree.
pub type Degree = i64;

/// Largest coordinate magnitude the geometry pipeline accepts
/// (one million device units); inputs must be validated upstream,
/// as non-finite or oversized values would be here.
pub const COORD_LIMIT: i32 = 1_000_000_000;

/// A coordinate within the accepted range.
pub open spec fn coord_ok(c: Coordinate) -> bool {
    -COORD_LIMIT <= c && c <= COORD_LIMIT
}

/// Point of a path segment.
#[derive(Debug, PartialEq, Eq, Structural, Clone, Copy)]
pub struct Point {
    pub x: Coordinate,
    pub y: Coordinate,
}

/// Magnitude of an integer.
pub open spec fn abs_int(v: int) -> int {
    if v < 0 {
        -v
    } else {
        v
    }
}

/// Quotient of `a` by `b`, rounded toward zero as machine division does.
pub open spec fn trunc_div(a: int, b: int) -> int
    recommends
        b > 0,
{
    if a >= 0 {
        a / b
    } else {
        -((-a) / b)
    }
}

impl Point {
    /// Both coordinates within the accepted range.
    pub open spec fn ok(self) -> bool {
        coord_ok(self.x) && coord_ok(self.y)
    }

    /// The default "current point" before any `MoveTo`.
    pub fn origin() -> (r: Point)
        ensures
            r == (Point { x: 0, y: 0 }),
    {
        Point { x: 0, y: 0 }
    }

    /// Componentwise sum.
    pub fn add(self, other: Point) -> (r: Point)
        requires
            i32::MIN <= self.x + other.x <= i32::MAX,
            i32::MIN <= self.y + other.y <= i32::MAX,
        ensures
            r.x == self.x + other.x,
            r.y == self.y + other.y,
    {
        Point { x: self.x + other.x, y: self.y + other.y }
    }

    /// Componentwise sum, in place.
    pub fn add_assign(&mut self, other: Point)
        requires
            i32::MIN <= old(self).x + other.x <= i32::MAX,
            i32::MIN <= old(self).y + other.y <= i32::MAX,
        ensures
            final(self).x == old(self).x + other.x,
            final(self).y == old(self).y + other.y,
    {
        self.x = self.x + other.x;
        self.y = self.y + other.y;
    }

    /// Componentwise difference.
    pub fn sub(self, other: Point) -> (r: Point)
        requires
            i32::MIN <= self.x - other.x <= i32::MAX,
            i32::MIN <= self.y - other.y <= i32::MAX,
        ensures
            r.x == self.x - other.x,
            r.y == self.y - other.y,
    {
        Point { x: self.x - other.x, y: self.y - other.y }
    }

    /// Scale by a fixed-point factor (thousandths), truncating toward zero.
    pub fn mul(self, factor: Coordinate) -> (r: Point)
        requires
            i32::MIN * 1000 <= self.x * factor <= i32::MAX * 1000,
            i32::MIN * 1000 <= self.y * factor <= i32::MAX * 1000,
        ensures
            r.x == trunc_div(self.x * factor, 1000),
            r.y == trunc_div(self.y * factor, 1000),
    {
        Point {
            x: ((self.x as i64 * factor as i64) / 1000) as i32,
            y: ((self.y as i64 * factor as i64) / 1000) as i32,
        }
    }

    /// Euclidean length (the distance metric driving arc subdivision),
    /// rounded down to whole thousandths.
    pub fn len(&self) -> (r: Coordinate)
        requires
            self.ok(),
        ensures
            0 <= r,
            r * r <= self.x * self.x + self.y * self.y,
            (r + 1) * (r + 1) > self.x * self.x + self.y * self.y,
    {
        assert(0 <= self.x * self.x <= 1_000_000_000_000_000_000 && 0 <= self.y * self.y
            <= 1_000_000_000_000_000_000) by (nonlinear_arith)
            requires
                -1_000_000_000 <= self.x <= 1_000_000_000,
                -1_000_000_000 <= self.y <= 1_000_000_000,
        ;
        let xx = self.x as i64 * self.x as i64;
        let yy = self.y as i64 * self.y as i64;
        let r = isqrt_u64((xx + yy) as u64);
        assert(r <= 1_500_000_000) by (nonlinear_arith)
            requires
                r * r <= 2_000_000_000_000_000_000,
        ;
        r as i32
    }

    /// Manhattan length (the cheap flatness proxy for curves).
    pub fn grid_len(&self) -> (r: Coordinate)
        requires
            self.ok(),
        ensures
            r == abs_int(self.x as int) + abs_int(self.y as int),
    {
        let ax: i32 = if self.x < 0 {
            -self.x
        } else {
            self.x
        };
        let ay: i32 = if self.y < 0 {
            -self.y
        } else {
            self.y
        };
        ax + ay
    }
}

/// Integer square root, rounded down.
pub fn isqrt_u64(v: u64) -> (r: u64)
    requires
        v < 9_000_000_000_000_000_000,
    ensures
        r * r <= v,
        (r + 1) * (r + 1) > v,
{
    let mut lo: u64 = 0;
    let mut hi: u64 = 3_000_000_000;
    assert((hi + 1) * (hi + 1) > v) by (nonlinear_arith)
        requires
            v < 9_000_000_000_000_000_000,
            hi == 3_000_000_000,
    ;
    while lo < hi
        invariant
            lo <= hi,
            hi <= 3_000_000_000,
            lo * lo <= v,
            (hi + 1) * (hi + 1) > v,
        decreases hi - lo,
    {
        let mid = (lo + hi + 1) / 2;
        assert(mid * mid <= 9_000_000_000_000_000_000) by (nonlinear_arith)
            requires
                mid <= 3_000_000_000,
        ;
        if mid * mid <= v {
            lo = mid;
        } else {
            hi = mid - 1;
        }
    }
    lo
}

} // verus!
