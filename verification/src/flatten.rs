//! Flattening engine: lowers curve and arc segments into polylines within
//! a bounded geometric deviation, passing straight segments through.
//!
//! A cubic curve is subdivided adaptively at the parametric midpoint (De
//! Casteljau's construction) until the control polygon is flat enough:
//! the sum of its three leg lengths exceeds the chord length by less than
//! [`CURVE_DEVIATION_LENGTH`], with lengths measured by the cheap L1
//! proxy. The subdivision runs iteratively over an explicit work stack,
//! and a maximum split depth guards against pathological control points.

use vstd::prelude::*;

use crate::path::{flat_path_ok, FlatPath, FlatPathSegment, Path, PathSegment};
use crate::point::{abs_int, trunc_div, Point};

verus! {

/// Flatness threshold for curve subdivision, in thousandths of a device
/// unit: a control polygon whose legs exceed its chord by less than this
/// is taken as a straight line.
pub const CURVE_DEVIATION_LENGTH: i64 = 250;

/// Upper bound on chord length when subdividing an arc, in thousandths of
/// a device unit.
pub const ARC_LINE_LENGTH: i64 = 750;

/// Safety bound on curve split depth: a few dozen halvings collapse any
/// representable control polygon below the flatness threshold, so the
/// bound never binds on valid input, but it makes termination manifest.
pub const CURVE_MAX_DEPTH: u8 = 64;

/// A cubic Bezier control polygon: start, two controls, end.
#[derive(Debug, PartialEq, Eq, Structural, Clone, Copy)]
pub struct Curve {
    pub p0: Point,
    pub p1: Point,
    pub p2: Point,
    pub p3: Point,
}

impl Curve {
    /// All four points within the accepted coordinate range.
    pub open spec fn ok(self) -> bool {
        self.p0.ok() && self.p1.ok() && self.p2.ok() && self.p3.ok()
    }
}

/// L1 distance between two points.
pub open spec fn grid_dist(a: Point, b: Point) -> int {
    abs_int(b.x - a.x) + abs_int(b.y - a.y)
}

/// The control polygon is flat enough to stand for its chord.
pub open spec fn curve_flat(c: Curve) -> bool {
    grid_dist(c.p0, c.p1) + grid_dist(c.p1, c.p2) + grid_dist(c.p2, c.p3) < grid_dist(c.p0, c.p3)
        + CURVE_DEVIATION_LENGTH
}

/// Midpoint of two coordinates, the halving truncated toward zero.
pub open spec fn mid_coord(a: int, b: int) -> int {
    a + trunc_div(b - a, 2)
}

/// Midpoint of two points.
pub open spec fn mid_point(a: Point, b: Point) -> Point {
    Point { x: mid_coord(a.x as int, b.x as int) as i32, y: mid_coord(a.y as int, b.y as int) as i32 }
}

/// Left half of a curve split at the parametric midpoint.
#[verifier::opaque]
pub open spec fn curve_left(c: Curve) -> Curve {
    let p01 = mid_point(c.p0, c.p1);
    let p12 = mid_point(c.p1, c.p2);
    let p23 = mid_point(c.p2, c.p3);
    let p012 = mid_point(p01, p12);
    let p123 = mid_point(p12, p23);
    let p1234 = mid_point(p012, p123);
    Curve { p0: c.p0, p1: p01, p2: p012, p3: p1234 }
}

/// Right half of a curve split at the parametric midpoint.
#[verifier::opaque]
pub open spec fn curve_right(c: Curve) -> Curve {
    let p01 = mid_point(c.p0, c.p1);
    let p12 = mid_point(c.p1, c.p2);
    let p23 = mid_point(c.p2, c.p3);
    let p012 = mid_point(p01, p12);
    let p123 = mid_point(p12, p23);
    let p1234 = mid_point(p012, p123);
    Curve { p0: p1234, p1: p123, p2: p23, p3: c.p3 }
}

/// The polyline a curve flattens to, start point excluded: a flat (or
/// depth-exhausted) curve contributes its endpoint; anything else is the
/// concatenation of its two halves' polylines.
pub open spec fn curve_points(c: Curve, depth: nat) -> Seq<Point>
    decreases depth,
{
    if curve_flat(c) || depth == 0 {
        seq![c.p3]
    } else {
        curve_points(curve_left(c), (depth - 1) as nat) + curve_points(
            curve_right(c),
            (depth - 1) as nat,
        )
    }
}

/// The midpoint lies between its endpoints.
proof fn lemma_mid_coord_between(a: int, b: int)
    ensures
        a <= b ==> a <= mid_coord(a, b) <= b,
        b <= a ==> b <= mid_coord(a, b) <= a,
{
    let d = b - a;
    if d >= 0 {
        vstd::arithmetic::div_mod::lemma_div_pos_is_pos(d, 2);
        vstd::arithmetic::div_mod::lemma_div_nonincreasing(d, 2);
    } else {
        vstd::arithmetic::div_mod::lemma_div_pos_is_pos(-d, 2);
        vstd::arithmetic::div_mod::lemma_div_nonincreasing(-d, 2);
    }
}

/// Splitting preserves the accepted coordinate range.
proof fn lemma_split_ok(c: Curve)
    requires
        c.ok(),
    ensures
        curve_left(c).ok(),
        curve_right(c).ok(),
{
    reveal(curve_left);
    reveal(curve_right);
    lemma_mid_coord_between(c.p0.x as int, c.p1.x as int);
    lemma_mid_coord_between(c.p0.y as int, c.p1.y as int);
    lemma_mid_coord_between(c.p1.x as int, c.p2.x as int);
    lemma_mid_coord_between(c.p1.y as int, c.p2.y as int);
    lemma_mid_coord_between(c.p2.x as int, c.p3.x as int);
    lemma_mid_coord_between(c.p2.y as int, c.p3.y as int);
    let p01 = mid_point(c.p0, c.p1);
    let p12 = mid_point(c.p1, c.p2);
    let p23 = mid_point(c.p2, c.p3);
    lemma_mid_coord_between(p01.x as int, p12.x as int);
    lemma_mid_coord_between(p01.y as int, p12.y as int);
    lemma_mid_coord_between(p12.x as int, p23.x as int);
    lemma_mid_coord_between(p12.y as int, p23.y as int);
    let p012 = mid_point(p01, p12);
    let p123 = mid_point(p12, p23);
    lemma_mid_coord_between(p012.x as int, p123.x as int);
    lemma_mid_coord_between(p012.y as int, p123.y as int);
}

/// A curve's polyline is non-empty, ends at the curve's endpoint, and
/// stays within the accepted coordinate range.
#[verifier::rlimit(100)]
proof fn lemma_curve_points_shape(c: Curve, depth: nat)
    requires
        c.ok(),
    ensures
        curve_points(c, depth).len() >= 1,
        curve_points(c, depth).last() == c.p3,
        forall|i: int|
            0 <= i < curve_points(c, depth).len() ==> (#[trigger] curve_points(c, depth)[i]).ok(),
    decreases depth,
{
    if curve_flat(c) || depth == 0 {
    } else {
        lemma_split_ok(c);
        lemma_curve_points_shape(curve_left(c), (depth - 1) as nat);
        lemma_curve_points_shape(curve_right(c), (depth - 1) as nat);
        assert(curve_right(c).p3 == c.p3) by {
            reveal(curve_right);
        }
    }
}

/// Powers of three, the termination measure of the subdivision stack.
pub open spec fn pow3(n: nat) -> nat
    decreases n,
{
    if n == 0 {
        1
    } else {
        3 * pow3((n - 1) as nat)
    }
}

proof fn lemma_pow3_pos(n: nat)
    ensures
        pow3(n) >= 1,
    decreases n,
{
    if n > 0 {
        lemma_pow3_pos((n - 1) as nat);
    }
}

/// The points still owed by the pending curves, top of stack first.
pub open spec fn stack_points(st: Seq<(Curve, u8)>) -> Seq<Point>
    decreases st.len(),
{
    if st.len() == 0 {
        Seq::empty()
    } else {
        curve_points(st.last().0, st.last().1 as nat) + stack_points(st.drop_last())
    }
}

/// Termination measure of the pending work.
pub open spec fn stack_measure(st: Seq<(Curve, u8)>) -> nat
    decreases st.len(),
{
    if st.len() == 0 {
        0
    } else {
        pow3(st.last().1 as nat) + stack_measure(st.drop_last())
    }
}

/// All pending curves lie within the accepted coordinate range.
pub open spec fn stack_ok(st: Seq<(Curve, u8)>) -> bool {
    forall|i: int| 0 <= i < st.len() ==> (#[trigger] st[i]).0.ok()
}

/// Whether the control polygon is flat enough to emit as a line.
fn is_curve_flat(c: &Curve) -> (r: bool)
    requires
        c.ok(),
    ensures
        r == curve_flat(*c),
{
    let l01 = abs_i64(c.p1.x as i64 - c.p0.x as i64) + abs_i64(c.p1.y as i64 - c.p0.y as i64);
    let l12 = abs_i64(c.p2.x as i64 - c.p1.x as i64) + abs_i64(c.p2.y as i64 - c.p1.y as i64);
    let l23 = abs_i64(c.p3.x as i64 - c.p2.x as i64) + abs_i64(c.p3.y as i64 - c.p2.y as i64);
    let l03 = abs_i64(c.p3.x as i64 - c.p0.x as i64) + abs_i64(c.p3.y as i64 - c.p0.y as i64);
    l01 + l12 + l23 < l03 + CURVE_DEVIATION_LENGTH
}

/// Magnitude of a machine integer.
fn abs_i64(v: i64) -> (r: i64)
    requires
        v > i64::MIN,
    ensures
        r == abs_int(v as int),
{
    if v < 0 {
        -v
    } else {
        v
    }
}

/// Midpoint of two coordinates.
fn mid_coord_exec(a: i32, b: i32) -> (r: i32)
    ensures
        r as int == mid_coord(a as int, b as int),
        a <= b ==> a <= r <= b,
        b <= a ==> b <= r <= a,
{
    proof {
        lemma_mid_coord_between(a as int, b as int);
    }
    (a as i64 + (b as i64 - a as i64) / 2) as i32
}

/// Midpoint of two points.
fn mid_point_exec(a: Point, b: Point) -> (r: Point)
    ensures
        r == mid_point(a, b),
{
    Point { x: mid_coord_exec(a.x, b.x), y: mid_coord_exec(a.y, b.y) }
}

/// Split a curve at the parametric midpoint by De Casteljau's
/// construction (four weighted lerps).
fn split_curve_mid(c: Curve) -> (r: (Curve, Curve))
    ensures
        r.0 == curve_left(c),
        r.1 == curve_right(c),
{
    proof {
        reveal(curve_left);
        reveal(curve_right);
    }
    let p01 = mid_point_exec(c.p0, c.p1);
    let p12 = mid_point_exec(c.p1, c.p2);
    let p23 = mid_point_exec(c.p2, c.p3);
    let p012 = mid_point_exec(p01, p12);
    let p123 = mid_point_exec(p12, p23);
    let p1234 = mid_point_exec(p012, p123);
    (Curve { p0: c.p0, p1: p01, p2: p012, p3: p1234 }, Curve { p0: p1234, p1: p123, p2: p23, p3: c.p3 })
}

/// Flatten a cubic Bezier curve to a polyline by adaptive midpoint
/// subdivision over an explicit work stack. The result always starts at
/// the exact start point and ends at the exact end point; a curve that is
/// already flat yields exactly the two endpoints.
#[verifier::rlimit(100)]
pub fn flatten_curve(
    start_point: Point,
    control_point1: Point,
    control_point2: Point,
    end_point: Point,
) -> (points: Vec<Point>)
    requires
        start_point.ok(),
        control_point1.ok(),
        control_point2.ok(),
        end_point.ok(),
    ensures
        points@ == seq![start_point] + curve_points(
            Curve { p0: start_point, p1: control_point1, p2: control_point2, p3: end_point },
            CURVE_MAX_DEPTH as nat,
        ),
        points@.len() >= 2,
        points@[0] == start_point,
        points@.last() == end_point,
        forall|i: int| 0 <= i < points@.len() ==> (#[trigger] points@[i]).ok(),
        curve_flat(
            Curve { p0: start_point, p1: control_point1, p2: control_point2, p3: end_point },
        ) ==> points@ == seq![start_point, end_point],
{
    let c0 = Curve { p0: start_point, p1: control_point1, p2: control_point2, p3: end_point };
    let mut points: Vec<Point> = Vec::new();
    points.push(start_point);
    let mut curves: Vec<(Curve, u8)> = Vec::new();
    curves.push((c0, CURVE_MAX_DEPTH));
    proof {
        assert(curves@.drop_last() =~= Seq::<(Curve, u8)>::empty());
        assert(stack_points(curves@.drop_last()) =~= Seq::<Point>::empty());
        assert(stack_points(curves@) =~= curve_points(c0, CURVE_MAX_DEPTH as nat) + stack_points(
            curves@.drop_last(),
        ));
        assert(points@ + stack_points(curves@) =~= seq![start_point] + curve_points(
            c0,
            CURVE_MAX_DEPTH as nat,
        ));
        lemma_curve_points_shape(c0, CURVE_MAX_DEPTH as nat);
    }
    while curves.len() > 0
        invariant
            start_point.ok(),
            c0 == (Curve { p0: start_point, p1: control_point1, p2: control_point2, p3: end_point }),
            stack_ok(curves@),
            points@ + stack_points(curves@) == seq![start_point] + curve_points(
                c0,
                CURVE_MAX_DEPTH as nat,
            ),
            forall|i: int| 0 <= i < points@.len() ==> (#[trigger] points@[i]).ok(),
            points@.len() >= 1,
        decreases stack_measure(curves@),
    {
        let ghost pre = curves@;
        let (cur, depth) = curves.pop().unwrap();
        proof {
            assert(pre.last() == (cur, depth));
            assert(curves@ =~= pre.drop_last());
            lemma_pow3_pos(depth as nat);
            assert(stack_points(pre) == curve_points(cur, depth as nat) + stack_points(curves@));
            assert(stack_measure(pre) == pow3(depth as nat) + stack_measure(curves@));
        }
        if is_curve_flat(&cur) || depth == 0 {
            points.push(cur.p3);
            proof {
                assert(curve_points(cur, depth as nat) =~= seq![cur.p3]);
                assert(points@ + stack_points(curves@) =~= (points@.drop_last() + stack_points(
                    pre,
                )));
            }
        } else {
            let (c1, c2) = split_curve_mid(cur);
            proof {
                lemma_split_ok(cur);
            }
            let ghost mid0 = curves@;
            curves.push((c2, depth - 1));
            let ghost mid1 = curves@;
            curves.push((c1, depth - 1));
            proof {
                assert(mid1.drop_last() =~= mid0);
                assert(curves@.drop_last() =~= mid1);
                assert(mid1.last() == (c2, (depth - 1) as u8));
                assert(curves@.last() == (c1, (depth - 1) as u8));
                assert(stack_points(mid1) == curve_points(c2, (depth - 1) as nat) + stack_points(
                    mid0,
                ));
                assert(stack_points(curves@) == curve_points(c1, (depth - 1) as nat)
                    + stack_points(mid1));
                assert(curve_points(cur, depth as nat) == curve_points(c1, (depth - 1) as nat)
                    + curve_points(c2, (depth - 1) as nat));
                assert(points@ + stack_points(curves@) =~= points@ + stack_points(pre));
                assert(stack_measure(mid1) == pow3((depth - 1) as nat) + stack_measure(mid0));
                assert(stack_measure(curves@) == pow3((depth - 1) as nat) + stack_measure(mid1));
                assert(pow3(depth as nat) == 3 * pow3((depth - 1) as nat));
            }
        }
    }
    proof {
        assert(stack_points(curves@) =~= Seq::<Point>::empty());
        assert(points@ =~= seq![start_point] + curve_points(c0, CURVE_MAX_DEPTH as nat));
        lemma_curve_points_shape(c0, CURVE_MAX_DEPTH as nat);
        assert(points@.last() == curve_points(c0, CURVE_MAX_DEPTH as nat).last());
        if curve_flat(c0) {
            assert(curve_points(c0, CURVE_MAX_DEPTH as nat) =~= seq![end_point]);
            assert(points@ =~= seq![start_point, end_point]);
        }
    }
    points
}

// ------------------------------------------------------------------
// Arc flattening.
//
// Angles are handled in fixed point throughout: an input angle in
// millionths of a degree is converted to radians at a scale of 10^12,
// and the repeated rotation accumulates in a 128-bit vector at the same
// scale (the higher-precision intermediate), narrowing to path
// coordinates only at each emitted point.
// ------------------------------------------------------------------
/// Largest sweep magnitude accepted, in millionths of a degree (ten full
/// turns): it keeps the subdivision count within memory reach.
pub const ANGLE_LIMIT: i64 = 3_600_000_000;

/// Pi at a scale of 10^15.
pub const PI_E15: i128 = 3_141_592_653_589_793;

/// Pi at a scale of 10^12.
pub const PI_E12: i128 = 3_141_592_653_590;

/// Two pi at a scale of 10^12.
pub const TWO_PI_E12: i128 = 6_283_185_307_180;

/// An angle reduced into `(-pi, pi]` at a scale of 10^12.
pub open spec fn sc_reduce(x: int) -> int {
    let m = x % (TWO_PI_E12 as int);
    if m > PI_E12 as int {
        m - TWO_PI_E12 as int
    } else {
        m
    }
}

/// Taylor term `k` of the sine series at a scale of 10^12 (`m2` is the
/// squared reduced angle at the same scale); each term is computed from
/// the previous with truncating division, mirroring the machine.
pub open spec fn sin_term(m: int, m2: int, k: nat) -> int
    decreases k,
{
    if k == 0 {
        m
    } else {
        trunc_div(-sin_term(m, m2, (k - 1) as nat) * m2, (2 * k as int) * (2 * k as int + 1) * 1_000_000_000_000)
    }
}

/// Partial sum of the sine series through term `k`.
pub open spec fn sin_sum(m: int, m2: int, k: nat) -> int
    decreases k,
{
    if k == 0 {
        sin_term(m, m2, 0)
    } else {
        sin_sum(m, m2, (k - 1) as nat) + sin_term(m, m2, k)
    }
}

/// Taylor term `k` of the cosine series at a scale of 10^12.
pub open spec fn cos_term(m: int, m2: int, k: nat) -> int
    decreases k,
{
    if k == 0 {
        1_000_000_000_000
    } else {
        trunc_div(-cos_term(m, m2, (k - 1) as nat) * m2, (2 * k as int - 1) * (2 * k as int) * 1_000_000_000_000)
    }
}

/// Partial sum of the cosine series through term `k`.
pub open spec fn cos_sum(m: int, m2: int, k: nat) -> int
    decreases k,
{
    if k == 0 {
        cos_term(m, m2, 0)
    } else {
        cos_sum(m, m2, (k - 1) as nat) + cos_term(m, m2, k)
    }
}

/// A value clamped into the unit interval at a scale of 10^12.
pub open spec fn clamp_unit_e12(x: int) -> int {
    if x < -1_000_000_000_000 {
        -1_000_000_000_000
    } else if x > 1_000_000_000_000 {
        1_000_000_000_000
    } else {
        x
    }
}

/// The sine and cosine approximation the arc rotation uses: range
/// reduction, eight Taylor terms each, and a clamp into the unit range.
pub open spec fn spec_sin_cos(x: int) -> (int, int) {
    let m = sc_reduce(x);
    let m2 = trunc_div(m * m, 1_000_000_000_000);
    (clamp_unit_e12(sin_sum(m, m2, 8)), clamp_unit_e12(cos_sum(m, m2, 8)))
}

/// Truncating division bound: the quotient magnitude never exceeds that
/// of the numerator bound divided by the denominator.
proof fn lemma_trunc_div_bound(a: int, d: int, m: int)
    requires
        d > 0,
        0 <= m,
        -m <= a <= m,
    ensures
        -(m / d) <= trunc_div(a, d) <= m / d,
{
    if a >= 0 {
        vstd::arithmetic::div_mod::lemma_div_is_ordered(a, m, d);
        vstd::arithmetic::div_mod::lemma_div_pos_is_pos(a, d);
    } else {
        vstd::arithmetic::div_mod::lemma_div_is_ordered(-a, m, d);
        vstd::arithmetic::div_mod::lemma_div_pos_is_pos(-a, d);
    }
}

/// Truncating division of 128-bit values.
fn trunc_div_i128(a: i128, d: i128) -> (r: i128)
    requires
        d > 0,
    ensures
        r as int == trunc_div(a as int, d as int),
{
    a / d
}

/// Sine and cosine of an angle in radians at a scale of 10^12.
fn sin_cos_e12(x: i128) -> (r: (i128, i128))
    ensures
        r.0 as int == spec_sin_cos(x as int).0,
        r.1 as int == spec_sin_cos(x as int).1,
        -1_000_000_000_000 <= r.0 <= 1_000_000_000_000,
        -1_000_000_000_000 <= r.1 <= 1_000_000_000_000,
{
    let mut m = x % TWO_PI_E12;
    if m < 0 {
        m += TWO_PI_E12;
    }
    if m > PI_E12 {
        m -= TWO_PI_E12;
    }
    assert(m == sc_reduce(x as int));
    assert(-PI_E12 < m <= PI_E12);
    assert(0 <= m as int * m as int <= 10_000_000_000_000_000_000_000_000) by (nonlinear_arith)
        requires
            -3_141_592_653_590 <= m <= 3_141_592_653_590,
    ;
    let m2_raw = m * m;
    let m2 = trunc_div_i128(m2_raw, 1_000_000_000_000);
    assert(0 <= m2 as int <= 10_000_000_000_000) by {
        assert(0 <= m * m <= 10_000_000_000_000_000_000_000_000) by (nonlinear_arith)
            requires
                -3_141_592_653_590 <= m <= 3_141_592_653_590,
        ;
        lemma_trunc_div_bound(m2_raw as int, 1_000_000_000_000, 10_000_000_000_000_000_000_000_000);
        vstd::arithmetic::div_mod::lemma_div_pos_is_pos(m2_raw as int, 1_000_000_000_000);
    }
    let mut st: i128 = m;
    let mut ssum: i128 = m;
    let mut ct: i128 = 1_000_000_000_000;
    let mut csum: i128 = 1_000_000_000_000;
    let mut k: u32 = 1;
    while k <= 8
        invariant
            1 <= k <= 9,
            0 <= m2 as int <= 10_000_000_000_000,
            -3_141_592_653_590 <= m <= 3_141_592_653_590,
            st as int == sin_term(m as int, m2 as int, (k - 1) as nat),
            ssum as int == sin_sum(m as int, m2 as int, (k - 1) as nat),
            ct as int == cos_term(m as int, m2 as int, (k - 1) as nat),
            csum as int == cos_sum(m as int, m2 as int, (k - 1) as nat),
            k == 1 ==> -3_200_000_000_000 <= st <= 3_200_000_000_000,
            k > 1 ==> -6_000_000_000_000 <= st <= 6_000_000_000_000,
            k == 1 ==> -1_000_000_000_000 <= ct <= 1_000_000_000_000,
            k > 1 ==> -6_000_000_000_000 <= ct <= 6_000_000_000_000,
            -7_000_000_000_000 * k as int <= ssum <= 7_000_000_000_000 * k as int,
            -7_000_000_000_000 * k as int <= csum <= 7_000_000_000_000 * k as int,
        decreases 9 - k,
    {
        assert(0 < (2 * k as int) * (2 * k as int + 1) <= 400 && 0 < (2 * k as int - 1) * (2
            * k as int) <= 400) by (nonlinear_arith)
            requires
                1 <= k <= 9,
        ;
        let sdenom: i128 = (2 * k as i128) * (2 * k as i128 + 1) * 1_000_000_000_000;
        let cdenom: i128 = (2 * k as i128 - 1) * (2 * k as i128) * 1_000_000_000_000;
        assert(-60_000_000_000_000_000_000_000_000 <= -st as int * m2 as int
            <= 60_000_000_000_000_000_000_000_000 && -60_000_000_000_000_000_000_000_000 <= -ct
            as int * m2 as int <= 60_000_000_000_000_000_000_000_000) by (nonlinear_arith)
            requires
                -6_000_000_000_000 <= st <= 6_000_000_000_000,
                -6_000_000_000_000 <= ct <= 6_000_000_000_000,
                0 <= m2 as int <= 10_000_000_000_000,
        ;
        let new_st = trunc_div_i128(-st * m2, sdenom);
        let new_ct = trunc_div_i128(-ct * m2, cdenom);
        proof {
            if k == 1 {
                assert(sdenom == 6_000_000_000_000 && cdenom == 2_000_000_000_000)
                    by (nonlinear_arith)
                    requires
                        k == 1,
                        sdenom == (2 * k as i128) * (2 * k as i128 + 1) * 1_000_000_000_000,
                        cdenom == (2 * k as i128 - 1) * (2 * k as i128) * 1_000_000_000_000,
                ;
                assert(-32_000_000_000_000_000_000_000_000 <= -st as int * m2 as int
                    <= 32_000_000_000_000_000_000_000_000) by (nonlinear_arith)
                    requires
                        -3_200_000_000_000 <= st <= 3_200_000_000_000,
                        0 <= m2 as int <= 10_000_000_000_000,
                ;
                lemma_trunc_div_bound(
                    -st as int * m2 as int,
                    sdenom as int,
                    32_000_000_000_000_000_000_000_000,
                );
                assert(-10_000_000_000_000_000_000_000_000 <= -ct as int * m2 as int
                    <= 10_000_000_000_000_000_000_000_000) by (nonlinear_arith)
                    requires
                        -1_000_000_000_000 <= ct <= 1_000_000_000_000,
                        0 <= m2 as int <= 10_000_000_000_000,
                ;
                lemma_trunc_div_bound(
                    -ct as int * m2 as int,
                    cdenom as int,
                    10_000_000_000_000_000_000_000_000,
                );
            } else {
                assert(sdenom >= 20_000_000_000_000 && cdenom >= 12_000_000_000_000)
                    by (nonlinear_arith)
                    requires
                        2 <= k <= 9,
                        sdenom == (2 * k as i128) * (2 * k as i128 + 1) * 1_000_000_000_000,
                        cdenom == (2 * k as i128 - 1) * (2 * k as i128) * 1_000_000_000_000,
                ;
                lemma_trunc_div_bound(
                    -st as int * m2 as int,
                    sdenom as int,
                    60_000_000_000_000_000_000_000_000,
                );
                vstd::arithmetic::div_mod::lemma_div_is_ordered_by_denominator(
                    60_000_000_000_000_000_000_000_000,
                    20_000_000_000_000,
                    sdenom as int,
                );
                lemma_trunc_div_bound(
                    -ct as int * m2 as int,
                    cdenom as int,
                    60_000_000_000_000_000_000_000_000,
                );
                vstd::arithmetic::div_mod::lemma_div_is_ordered_by_denominator(
                    60_000_000_000_000_000_000_000_000,
                    12_000_000_000_000,
                    cdenom as int,
                );
            }
        }
        assert(-6_000_000_000_000 <= new_st <= 6_000_000_000_000);
        assert(-6_000_000_000_000 <= new_ct <= 6_000_000_000_000);
        st = new_st;
        ct = new_ct;
        ssum = ssum + st;
        csum = csum + ct;
        k += 1;
    }
    let s = if ssum < -1_000_000_000_000 {
        -1_000_000_000_000
    } else if ssum > 1_000_000_000_000 {
        1_000_000_000_000
    } else {
        ssum
    };
    let c = if csum < -1_000_000_000_000 {
        -1_000_000_000_000
    } else if csum > 1_000_000_000_000 {
        1_000_000_000_000
    } else {
        csum
    };
    (s, c)
}

/// Cap on the magnitude of the wide rotation vector; far beyond any
/// reachable geometry, it only keeps the arithmetic within bounds.
pub const VEC_CAP: i128 = 10_000_000_000_000_000_000;

/// Floor of the square root (zero for negatives).
pub open spec fn sqrt_floor(n: int) -> int
    decreases n,
{
    if n <= 0 {
        0
    } else {
        let p = sqrt_floor(n - 1);
        if (p + 1) * (p + 1) <= n {
            p + 1
        } else {
            p
        }
    }
}

proof fn lemma_sqrt_floor_bounds(n: int)
    requires
        n >= 0,
    ensures
        sqrt_floor(n) >= 0,
        sqrt_floor(n) * sqrt_floor(n) <= n,
        n < (sqrt_floor(n) + 1) * (sqrt_floor(n) + 1),
    decreases n,
{
    if n <= 0 {
    } else {
        lemma_sqrt_floor_bounds(n - 1);
        let p = sqrt_floor(n - 1);
        if (p + 1) * (p + 1) <= n {
            assert(sqrt_floor(n) == p + 1);
            assert((p + 1) * (p + 1) < (p + 2) * (p + 2)) by (nonlinear_arith)
                requires
                    p >= 0,
            ;
            assert(n <= (p + 1) * (p + 1));
        } else {
            assert(sqrt_floor(n) == p);
        }
    }
}

proof fn lemma_sqrt_floor_unique(n: int, r: int)
    requires
        0 <= r,
        r * r <= n,
        n < (r + 1) * (r + 1),
    ensures
        r == sqrt_floor(n),
{
    lemma_sqrt_floor_bounds(n);
    let s = sqrt_floor(n);
    if r < s {
        assert((r + 1) * (r + 1) <= s * s) by (nonlinear_arith)
            requires
                0 <= r,
                r + 1 <= s,
        ;
    } else if s < r {
        assert((s + 1) * (s + 1) <= r * r) by (nonlinear_arith)
            requires
                0 <= s,
                s + 1 <= r,
        ;
    }
}

/// An angle's magnitude converted from millionths of a degree to radians
/// at a scale of 10^12.
pub open spec fn arc_rad_e12(angle: int) -> int {
    abs_int(angle) * PI_E15 / 180_000_000_000
}

/// Euclidean distance from start to center, in whole thousandths.
pub open spec fn arc_radius(start: Point, center: Point) -> int {
    sqrt_floor(
        (start.x - center.x) * (start.x - center.x) + (start.y - center.y) * (start.y - center.y),
    )
}

/// Number of chords the arc is subdivided into:
/// `ceil(|angle in radians| * radius / ARC_LINE_LENGTH)`.
pub open spec fn arc_lines_count(start: Point, center: Point, angle: int) -> int {
    (arc_rad_e12(angle) * arc_radius(start, center) + ARC_LINE_LENGTH * 1_000_000_000_000 - 1) / (
    ARC_LINE_LENGTH * 1_000_000_000_000)
}

/// Signed rotation step per chord, radians at a scale of 10^12.
pub open spec fn arc_step_e12(start: Point, center: Point, angle: int) -> int {
    let r = arc_rad_e12(angle);
    let signed = if angle < 0 {
        -r
    } else {
        r
    };
    trunc_div(signed, arc_lines_count(start, center, angle))
}

/// A wide coordinate clamped into the rotation cap.
pub open spec fn clamp_wide(x: int) -> int {
    if x < -VEC_CAP {
        -VEC_CAP as int
    } else if x > VEC_CAP {
        VEC_CAP as int
    } else {
        x
    }
}

/// One rotation of the wide vector by the sine and cosine pair.
pub open spec fn rot_step(v: (int, int), s: int, c: int) -> (int, int) {
    (
        clamp_wide(trunc_div(v.0 * c - v.1 * s, 1_000_000_000_000)),
        clamp_wide(trunc_div(v.0 * s + v.1 * c, 1_000_000_000_000)),
    )
}

/// The wide start-to-center vector after `i` rotation steps.
pub open spec fn arc_vec(start: Point, center: Point, angle: int, i: nat) -> (int, int)
    decreases i,
{
    if i == 0 {
        (
            (start.x - center.x) * 1_000_000_000,
            (start.y - center.y) * 1_000_000_000,
        )
    } else {
        let sc = spec_sin_cos(arc_step_e12(start, center, angle));
        rot_step(arc_vec(start, center, angle, (i - 1) as nat), sc.0, sc.1)
    }
}

/// A wide coordinate narrowed back to thousandths, rounding half away
/// from zero.
pub open spec fn narrow_e9(x: int) -> int {
    if x >= 0 {
        (x + 500_000_000) / 1_000_000_000
    } else {
        -((-x + 500_000_000) / 1_000_000_000)
    }
}

/// A coordinate clamped into the accepted range.
pub open spec fn clamp_coordinate(x: int) -> int {
    if x < -(crate::point::COORD_LIMIT as int) {
        -(crate::point::COORD_LIMIT as int)
    } else if x > crate::point::COORD_LIMIT as int {
        crate::point::COORD_LIMIT as int
    } else {
        x
    }
}

/// The `i`-th emitted arc point: the center plus the narrowed rotated
/// vector, clamped into the accepted coordinate range.
pub open spec fn arc_point_at(start: Point, center: Point, angle: int, i: nat) -> Point {
    let v = arc_vec(start, center, angle, i);
    Point {
        x: clamp_coordinate(center.x + narrow_e9(v.0)) as i32,
        y: clamp_coordinate(center.y + narrow_e9(v.1)) as i32,
    }
}

/// Narrow a wide coordinate to thousandths.
fn narrow_e9_exec(x: i128) -> (r: i64)
    requires
        -VEC_CAP <= x <= VEC_CAP,
    ensures
        r as int == narrow_e9(x as int),
        -11_000_000_000 <= r <= 11_000_000_000,
{
    if x >= 0 {
        proof {
            vstd::arithmetic::div_mod::lemma_div_pos_is_pos(x as int + 500_000_000, 1_000_000_000);
            vstd::arithmetic::div_mod::lemma_div_is_ordered(
                x as int + 500_000_000,
                VEC_CAP as int + 500_000_000,
                1_000_000_000,
            );
        }
        ((x + 500_000_000) / 1_000_000_000) as i64
    } else {
        proof {
            vstd::arithmetic::div_mod::lemma_div_pos_is_pos(-x as int + 500_000_000, 1_000_000_000);
            vstd::arithmetic::div_mod::lemma_div_is_ordered(
                -x as int + 500_000_000,
                VEC_CAP as int + 500_000_000,
                1_000_000_000,
            );
        }
        (-((-x + 500_000_000) / 1_000_000_000)) as i64
    }
}

/// Clamp a coordinate into the accepted range.
fn clamp_coordinate_exec(x: i64) -> (r: i32)
    ensures
        r as int == clamp_coordinate(x as int),
        r as int == clamp_coordinate(r as int),
{
    if x < -1_000_000_000 {
        -1_000_000_000
    } else if x > 1_000_000_000 {
        1_000_000_000
    } else {
        x as i32
    }
}

/// Flatten a circular arc to a polyline: from the exact start point, the
/// start-to-center vector is rotated `n` times by `angle / n`, where `n`
/// is the chord-based step count, accumulating in a wide intermediate and
/// narrowing only at each emitted point. If the start coincides with the
/// center, or the sweep is zero, the result is just the start point.
#[verifier::rlimit(100)]
pub fn flatten_arc(start_point: Point, center_point: Point, angle: crate::point::Degree) -> (points:
    Vec<Point>)
    requires
        start_point.ok(),
        center_point.ok(),
        -ANGLE_LIMIT <= angle <= ANGLE_LIMIT,
    ensures
        points@.len() >= 1,
        points@[0] == start_point,
        forall|i: int| 0 <= i < points@.len() ==> (#[trigger] points@[i]).ok(),
        (start_point == center_point || angle == 0) <==> points@ == seq![start_point],
        !(start_point == center_point || angle == 0) ==> points@.len() == 1 + arc_lines_count(
            start_point,
            center_point,
            angle as int,
        ),
        !(start_point == center_point || angle == 0) ==> forall|i: int|
            1 <= i < points@.len() ==> points@[i] == arc_point_at(
                start_point,
                center_point,
                angle as int,
                i as nat,
            ),
{
    if (start_point.x == center_point.x && start_point.y == center_point.y) || angle == 0 {
        let mut points: Vec<Point> = Vec::new();
        points.push(start_point);
        proof {
            assert(points@ =~= seq![start_point]);
        }
        return points;
    }
    let vx = start_point.x as i64 - center_point.x as i64;
    let vy = start_point.y as i64 - center_point.y as i64;
    assert(1 <= vx * vx + vy * vy <= 8_000_000_000_000_000_000 && vx * vx >= 0 && vy * vy >= 0)
        by (nonlinear_arith)
        requires
            -2_000_000_000 <= vx <= 2_000_000_000,
            -2_000_000_000 <= vy <= 2_000_000_000,
            vx != 0 || vy != 0,
    ;
    let rr = (vx * vx + vy * vy) as u64;
    let radius = crate::point::isqrt_u64(rr);
    proof {
        lemma_sqrt_floor_unique(rr as int, radius as int);
        if radius == 0 {
            assert((radius as int + 1) * (radius as int + 1) == 1) by (nonlinear_arith)
                requires
                    radius as int == 0,
            ;
        }
        assert(radius >= 1);
        assert(radius <= 3_000_000_000) by (nonlinear_arith)
            requires
                radius as int * radius as int <= 8_000_000_000_000_000_000,
                radius >= 0,
        ;
    }
    let a_abs: i128 = if angle < 0 {
        -(angle as i128)
    } else {
        angle as i128
    };
    let rad: i128 = a_abs * PI_E15 / 180_000_000_000;
    proof {
        assert(PI_E15 <= a_abs * PI_E15 <= 12_000_000_000_000_000_000_000_000_000) by (
        nonlinear_arith)
            requires
                1 <= a_abs <= 3_600_000_000,
        ;
        vstd::arithmetic::div_mod::lemma_div_is_ordered(
            PI_E15 as int,
            a_abs as int * PI_E15 as int,
            180_000_000_000,
        );
        vstd::arithmetic::div_mod::lemma_div_is_ordered(
            a_abs as int * PI_E15 as int,
            12_000_000_000_000_000_000_000_000_000,
            180_000_000_000,
        );
        vstd::arithmetic::div_mod::lemma_div_pos_is_pos(a_abs as int * PI_E15 as int, 180_000_000_000);
    }
    assert(17453 <= rad <= 66_666_666_666_666_667);
    assert(rad == arc_rad_e12(angle as int));
    assert(1 <= rad as int * radius as int <= 300_000_000_000_000_000_000_000_000) by (
    nonlinear_arith)
        requires
            1 <= rad <= 66_666_666_666_666_667,
            1 <= radius as int <= 3_000_000_000,
    ;
    let x = rad * radius as i128;
    let n128 = (x + 749_999_999_999_999) / 750_000_000_000_000;
    proof {
        vstd::arithmetic::div_mod::lemma_div_is_ordered(
            750_000_000_000_000,
            x as int + 749_999_999_999_999,
            750_000_000_000_000,
        );
        vstd::arithmetic::div_mod::lemma_div_is_ordered(
            x as int + 749_999_999_999_999,
            300_000_750_000_000_000_000_000_000,
            750_000_000_000_000,
        );
        assert(750_000_000_000_000int / 750_000_000_000_000int == 1);
    }
    assert(1 <= n128 <= 1_000_000_000_000);
    assert(n128 == arc_lines_count(start_point, center_point, angle as int));
    let signed_rad = if angle < 0 {
        -rad
    } else {
        rad
    };
    let step = trunc_div_i128(signed_rad, n128);
    assert(step as int == arc_step_e12(start_point, center_point, angle as int));
    let (s, c) = sin_cos_e12(step);
    let mut pvx: i128 = vx as i128 * 1_000_000_000;
    let mut pvy: i128 = vy as i128 * 1_000_000_000;
    let mut points: Vec<Point> = Vec::new();
    points.push(start_point);
    let mut i: u64 = 0;
    let n = n128 as u64;
    proof {
        assert((pvx as int, pvy as int) == arc_vec(start_point, center_point, angle as int, 0));
    }
    while i < n
        invariant
            start_point.ok(),
            center_point.ok(),
            -ANGLE_LIMIT <= angle <= ANGLE_LIMIT,
            0 <= i <= n,
            n as int == arc_lines_count(start_point, center_point, angle as int),
            s as int == spec_sin_cos(arc_step_e12(start_point, center_point, angle as int)).0,
            c as int == spec_sin_cos(arc_step_e12(start_point, center_point, angle as int)).1,
            -1_000_000_000_000 <= s <= 1_000_000_000_000,
            -1_000_000_000_000 <= c <= 1_000_000_000_000,
            (pvx as int, pvy as int) == arc_vec(start_point, center_point, angle as int, i as nat),
            -VEC_CAP <= pvx <= VEC_CAP,
            -VEC_CAP <= pvy <= VEC_CAP,
            points@.len() == 1 + i,
            points@[0] == start_point,
            forall|j: int|
                1 <= j <= i ==> points@[j] == arc_point_at(
                    start_point,
                    center_point,
                    angle as int,
                    j as nat,
                ),
            forall|j: int| 0 <= j < points@.len() ==> (#[trigger] points@[j]).ok(),
        decreases n - i,
    {
        assert(-10_000_000_000_000_000_000_000_000_000_000 <= pvx as int * c as int
            <= 10_000_000_000_000_000_000_000_000_000_000
            && -10_000_000_000_000_000_000_000_000_000_000 <= pvy as int * s as int
            <= 10_000_000_000_000_000_000_000_000_000_000
            && -10_000_000_000_000_000_000_000_000_000_000 <= pvx as int * s as int
            <= 10_000_000_000_000_000_000_000_000_000_000
            && -10_000_000_000_000_000_000_000_000_000_000 <= pvy as int * c as int
            <= 10_000_000_000_000_000_000_000_000_000_000) by (nonlinear_arith)
            requires
                -VEC_CAP <= pvx <= VEC_CAP,
                -VEC_CAP <= pvy <= VEC_CAP,
                -1_000_000_000_000 <= s <= 1_000_000_000_000,
                -1_000_000_000_000 <= c <= 1_000_000_000_000,
                VEC_CAP == 10_000_000_000_000_000_000,
        ;
        let nx_raw = pvx * c - pvy * s;
        let ny_raw = pvx * s + pvy * c;
        let nx0 = trunc_div_i128(nx_raw, 1_000_000_000_000);
        let ny0 = trunc_div_i128(ny_raw, 1_000_000_000_000);
        let nx = if nx0 < -VEC_CAP {
            -VEC_CAP
        } else if nx0 > VEC_CAP {
            VEC_CAP
        } else {
            nx0
        };
        let ny = if ny0 < -VEC_CAP {
            -VEC_CAP
        } else if ny0 > VEC_CAP {
            VEC_CAP
        } else {
            ny0
        };
        pvx = nx;
        pvy = ny;
        let px = clamp_coordinate_exec(center_point.x as i64 + narrow_e9_exec(pvx));
        let py = clamp_coordinate_exec(center_point.y as i64 + narrow_e9_exec(pvy));
        let p = Point { x: px, y: py };
        points.push(p);
        i = i + 1;
        proof {
            assert((pvx as int, pvy as int) == arc_vec(
                start_point,
                center_point,
                angle as int,
                i as nat,
            ));
            assert(points@[i as int] == arc_point_at(
                start_point,
                center_point,
                angle as int,
                i as nat,
            ));
        }
    }
    proof {
        assert(points@.len() >= 2);
        assert(!(points@ == seq![start_point]));
    }
    points
}

/// Points an arc contributes after its start point: one per chord.
pub open spec fn arc_tail(start: Point, center: Point, angle: int) -> Seq<Point> {
    if start == center || angle == 0 {
        Seq::empty()
    } else {
        Seq::new(
            arc_lines_count(start, center, angle) as nat,
            |i: int| arc_point_at(start, center, angle, (i + 1) as nat),
        )
    }
}

/// Where the pen rests after an arc.
pub open spec fn arc_end(start: Point, center: Point, angle: int) -> Point {
    if arc_tail(start, center, angle).len() == 0 {
        start
    } else {
        arc_tail(start, center, angle).last()
    }
}

/// A segment of the raw path with acceptable geometry.
pub open spec fn raw_seg_ok(seg: PathSegment) -> bool {
    match seg {
        PathSegment::MoveTo(p) => p.ok(),
        PathSegment::LineTo(p) => p.ok(),
        PathSegment::CurveTo(c1, c2, e) => c1.ok() && c2.ok() && e.ok(),
        PathSegment::ArcBy(center, angle) => center.ok() && -ANGLE_LIMIT <= angle <= ANGLE_LIMIT,
        PathSegment::Close => true,
    }
}

/// Every segment of the raw path has acceptable geometry (the
/// upstream-validation precondition of the flattener).
pub open spec fn raw_path_ok(segs: Seq<PathSegment>) -> bool {
    forall|i: int| 0 <= i < segs.len() ==> raw_seg_ok(#[trigger] segs[i])
}

/// A raw path with no curve or arc segments.
pub open spec fn path_is_flat(segs: Seq<PathSegment>) -> bool {
    forall|i: int|
        0 <= i < segs.len() ==> !((#[trigger] segs[i]) is CurveTo) && !(segs[i] is ArcBy)
}

/// The straight-segment image of a raw segment that is already flat.
pub open spec fn flat_image_seg(seg: PathSegment) -> FlatPathSegment {
    match seg {
        PathSegment::MoveTo(p) => FlatPathSegment::MoveTo(p),
        PathSegment::LineTo(p) => FlatPathSegment::LineTo(p),
        _ => FlatPathSegment::Close,
    }
}

/// What the flattener produces from segment `i` on, given the current
/// point: straight segments pass through unchanged; a curve or arc
/// becomes one `LineTo` per polyline point after its start.
pub open spec fn flatten_from(segs: Seq<PathSegment>, i: int, cur: Point) -> Seq<FlatPathSegment>
    decreases segs.len() - i,
{
    if i < 0 || i >= segs.len() {
        Seq::empty()
    } else {
        match segs[i] {
            PathSegment::MoveTo(p) => seq![FlatPathSegment::MoveTo(p)] + flatten_from(
                segs,
                i + 1,
                p,
            ),
            PathSegment::LineTo(p) => seq![FlatPathSegment::LineTo(p)] + flatten_from(
                segs,
                i + 1,
                p,
            ),
            PathSegment::Close => seq![FlatPathSegment::Close] + flatten_from(
                segs,
                i + 1,
                Point { x: 0, y: 0 },
            ),
            PathSegment::CurveTo(c1, c2, e) => curve_points(
                Curve { p0: cur, p1: c1, p2: c2, p3: e },
                CURVE_MAX_DEPTH as nat,
            ).map_values(|p: Point| FlatPathSegment::LineTo(p)) + flatten_from(segs, i + 1, e),
            PathSegment::ArcBy(center, angle) => arc_tail(cur, center, angle as int).map_values(
                |p: Point| FlatPathSegment::LineTo(p),
            ) + flatten_from(segs, i + 1, arc_end(cur, center, angle as int)),
        }
    }
}

/// The flattening of a whole raw path.
pub open spec fn spec_flatten(segs: Seq<PathSegment>) -> Seq<FlatPathSegment> {
    flatten_from(segs, 0, Point { x: 0, y: 0 })
}

/// Flattening an already-flat path is the identity on its segments.
proof fn lemma_flatten_flat_from(segs: Seq<PathSegment>, i: int, cur: Point)
    requires
        0 <= i <= segs.len(),
        path_is_flat(segs),
    ensures
        flatten_from(segs, i, cur) =~= Seq::new(
            (segs.len() - i) as nat,
            |j: int| flat_image_seg(segs[i + j]),
        ),
    decreases segs.len() - i,
{
    if i < segs.len() {
        match segs[i] {
            PathSegment::MoveTo(p) => lemma_flatten_flat_from(segs, i + 1, p),
            PathSegment::LineTo(p) => lemma_flatten_flat_from(segs, i + 1, p),
            PathSegment::Close => lemma_flatten_flat_from(segs, i + 1, Point { x: 0, y: 0 }),
            _ => {
                assert(false);
            },
        }
    }
}

/// Lower a raw path to a flattened path: straight segments pass through
/// unchanged, curves and arcs become polylines. Flattening a path that is
/// already flat reproduces its segment sequence exactly.
#[verifier::rlimit(100)]
pub fn flatten_path(path: &Path) -> (r: FlatPath)
    requires
        raw_path_ok(path@),
    ensures
        r@ == spec_flatten(path@),
        flat_path_ok(r@),
        path_is_flat(path@) ==> r@ == Seq::new(
            path@.len(),
            |j: int| flat_image_seg(path@[j]),
        ),
{
    let segs = path.segments();
    let mut out = FlatPath::new();
    let mut cur = Point::origin();
    let mut i: usize = 0;
    while i < segs.len()
        invariant
            raw_path_ok(path@),
            segs@ == path@,
            0 <= i <= segs.len(),
            cur.ok(),
            spec_flatten(path@) == out@ + flatten_from(path@, i as int, cur),
            flat_path_ok(out@),
        decreases segs.len() - i,
    {
        let ghost pre = out@;
        let seg = segs[i];
        match seg {
            PathSegment::MoveTo(p) => {
                out.move_to(p);
                cur = p;
                proof {
                    assert(out@ =~= pre + seq![FlatPathSegment::MoveTo(p)]);
                }
            },
            PathSegment::LineTo(p) => {
                out.line_to(p);
                cur = p;
                proof {
                    assert(out@ =~= pre + seq![FlatPathSegment::LineTo(p)]);
                }
            },
            PathSegment::Close => {
                out.close();
                cur = Point::origin();
                proof {
                    assert(out@ =~= pre + seq![FlatPathSegment::Close]);
                }
            },
            PathSegment::CurveTo(c1, c2, e) => {
                let pts = flatten_curve(cur, c1, c2, e);
                let ghost tail = curve_points(
                    Curve { p0: cur, p1: c1, p2: c2, p3: e },
                    CURVE_MAX_DEPTH as nat,
                );
                let mut j: usize = 1;
                while j < pts.len()
                    invariant
                        1 <= j <= pts@.len(),
                        pts@ == seq![cur].add(tail),
                        forall|t: int| 0 <= t < pts@.len() ==> (#[trigger] pts@[t]).ok(),
                        out@ == pre + tail.take(j - 1).map_values(
                            |p: Point| FlatPathSegment::LineTo(p),
                        ),
                        flat_path_ok(out@),
                    decreases pts@.len() - j,
                {
                    out.line_to(pts[j]);
                    proof {
                        assert(out@ =~= pre + tail.take(j as int).map_values(
                            |p: Point| FlatPathSegment::LineTo(p),
                        ));
                    }
                    j = j + 1;
                }
                cur = e;
                proof {
                    assert(tail.take(pts@.len() - 1) =~= tail);
                    assert(out@ =~= pre + tail.map_values(|p: Point| FlatPathSegment::LineTo(p)));
                }
            },
            PathSegment::ArcBy(center, angle) => {
                let pts = flatten_arc(cur, center, angle);
                let ghost tail = arc_tail(cur, center, angle as int);
                proof {
                    assert(pts@.skip(1) =~= tail);
                }
                let mut j: usize = 1;
                while j < pts.len()
                    invariant
                        1 <= j <= pts@.len(),
                        pts@.skip(1) == tail,
                        pts@.len() == 1 + tail.len(),
                        pts@[0] == cur,
                        forall|t: int| 0 <= t < pts@.len() ==> (#[trigger] pts@[t]).ok(),
                        out@ == pre + tail.take(j - 1).map_values(
                            |p: Point| FlatPathSegment::LineTo(p),
                        ),
                        flat_path_ok(out@),
                    decreases pts@.len() - j,
                {
                    out.line_to(pts[j]);
                    proof {
                        assert(out@ =~= pre + tail.take(j as int).map_values(
                            |p: Point| FlatPathSegment::LineTo(p),
                        ));
                    }
                    j = j + 1;
                }
                let last = pts[pts.len() - 1];
                proof {
                    assert(tail.take(pts@.len() - 1) =~= tail);
                    assert(out@ =~= pre + tail.map_values(|p: Point| FlatPathSegment::LineTo(p)));
                    if tail.len() == 0 {
                        assert(pts@.last() == cur);
                    } else {
                        assert(pts@.last() == tail.last());
                    }
                    assert(pts@.last() == arc_end(cur, center, angle as int));
                }
                cur = last;
            },
        }
        i = i + 1;
    }
    proof {
        assert(flatten_from(path@, i as int, cur) =~= Seq::<FlatPathSegment>::empty());
        assert(out@ =~= spec_flatten(path@));
        if path_is_flat(path@) {
            lemma_flatten_flat_from(path@, 0, Point { x: 0, y: 0 });
        }
    }
    out
}

} // verus!
