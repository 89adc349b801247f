//! Scanline rasterizer: converts a flattened path into a sparse per-row
//! set of non-overlapping horizontal pixel ranges, clipped to an integer
//! viewport, under the even-odd fill rule with pixel-center sampling.
//!
//! Rows are sampled at half-integer centers `k + 0.5`; every surviving
//! edge contributes one exact rational x stop per sampled row. Per row the
//! stops are sorted and paired; the first stop of a pair rounds half down,
//! the second rounds half up ("ordinary" rounding), both clamped into
//! `[0, width]`; a range may not begin before the previous range ended,
//! so the ranges of a row never overlap; empty ranges and empty rows are
//! pruned.
//!
//! All stop arithmetic is exact: a stop is a rational number in device
//! units, held as a 128-bit numerator and positive denominator.

use vstd::prelude::*;

use crate::path::{flat_path_ok, FlatPath, FlatPathSegment};
use crate::point::Point;

verus! {

/// An exact x stop in device units: the rational `num / den`, `den > 0`.
#[derive(Debug, Clone, Copy)]
pub struct Rat {
    pub num: i128,
    pub den: i128,
}

impl View for Rat {
    type V = (int, int);

    open spec fn view(&self) -> (int, int) {
        (self.num as int, self.den as int)
    }
}

/// A half-open horizontal run of pixels `[start, end)` on one row.
#[derive(Debug, PartialEq, Eq, Structural, Clone, Copy)]
pub struct PixelRange {
    pub start: u16,
    pub end: u16,
}

/// Bounds under which all stop arithmetic stays within `i128`.
pub open spec fn rat_wf(q: (int, int)) -> bool {
    &&& 0 < q.1 <= 10_000_000_000_000
    &&& -10_000_000_000_000_000_000 <= q.0 <= 10_000_000_000_000_000_000
}

/// Ordering of stops by rational value.
pub open spec fn rat_le(a: (int, int), b: (int, int)) -> bool {
    a.0 * b.1 <= b.0 * a.1
}

/// The sequence of rational views of a stop vector.
pub open spec fn rats_view(s: Seq<Rat>) -> Seq<(int, int)> {
    s.map_values(|q: Rat| q@)
}

/// The sequence of integer views of a range vector.
pub open spec fn ranges_view(s: Seq<PixelRange>) -> Seq<(int, int)> {
    s.map_values(|pr: PixelRange| (pr.start as int, pr.end as int))
}

/// Round a whole-thousandths value half down to whole units: a fractional
/// part of at most one half rounds down, more rounds up (and any value
/// below zero rounds down, as narrowing a negative keeps its whole part;
/// such rows are clamped away regardless).
pub open spec fn round_half_down_milli(v: int) -> int {
    if v < 0 {
        v / 1000
    } else if v % 1000 <= 500 {
        v / 1000
    } else {
        v / 1000 + 1
    }
}

/// An edge counts only if it is not horizontal and its vertical extent
/// meets the viewport rows.
pub open spec fn edge_kept(e: (Point, Point), h: int) -> bool {
    &&& e.0.y != e.1.y
    &&& !(e.0.y < 0 && e.1.y < 0)
    &&& !(e.0.y >= h * 1000 && e.1.y >= h * 1000)
}

/// Edges of the flattened path from segment `i` on, given the current
/// point and the last move point, keeping only edges that count.
/// A `LineTo` yields an edge from the current point; a `Close` yields the
/// edge back to the last move point only if the two differ, and resets
/// both points to the origin; a `MoveTo` only moves both points.
pub open spec fn kept_edges_from(
    segs: Seq<FlatPathSegment>,
    i: int,
    last: Point,
    mv: Point,
    h: int,
) -> Seq<(Point, Point)>
    decreases segs.len() - i,
{
    if i < 0 || i >= segs.len() {
        Seq::empty()
    } else {
        match segs[i] {
            FlatPathSegment::MoveTo(p) => kept_edges_from(segs, i + 1, p, p, h),
            FlatPathSegment::LineTo(p) => (if edge_kept((last, p), h) {
                seq![(last, p)]
            } else {
                Seq::empty()
            }) + kept_edges_from(segs, i + 1, p, mv, h),
            FlatPathSegment::Close => (if last != mv && edge_kept((last, mv), h) {
                seq![(last, mv)]
            } else {
                Seq::empty()
            }) + kept_edges_from(segs, i + 1, Point { x: 0, y: 0 }, Point { x: 0, y: 0 }, h),
        }
    }
}

/// All surviving edges of the flattened path.
pub open spec fn kept_edges(segs: Seq<FlatPathSegment>, h: int) -> Seq<(Point, Point)> {
    kept_edges_from(segs, 0, Point { x: 0, y: 0 }, Point { x: 0, y: 0 }, h)
}

/// First viewport row whose center the edge crosses.
pub open spec fn edge_row_lo(e: (Point, Point)) -> int {
    let lo_y = if e.0.y <= e.1.y {
        e.0.y
    } else {
        e.1.y
    };
    let first = round_half_down_milli(lo_y as int);
    if first >= 0 {
        first
    } else {
        0
    }
}

/// Last viewport row whose center the edge crosses.
pub open spec fn edge_row_hi(e: (Point, Point), h: int) -> int {
    let hi_y = if e.0.y <= e.1.y {
        e.1.y
    } else {
        e.0.y
    };
    let last = round_half_down_milli(hi_y as int) - 1;
    if last <= h - 1 {
        last
    } else {
        h - 1
    }
}

/// The exact x stop of an edge at the center of row `k`, in device units.
/// For a vertical edge it is the shared x; otherwise it is linear
/// interpolation at `y = k + 1/2` along the edge's slope.
pub open spec fn edge_stop(e: (Point, Point), k: int) -> (int, int) {
    if e.0.x == e.1.x {
        (e.0.x as int, 1000)
    } else {
        let dx = e.1.x - e.0.x;
        let dy = e.1.y - e.0.y;
        let n = e.0.x * dy + (1000 * k + 500 - e.0.y) * dx;
        let d = 1000 * dy;
        if d > 0 {
            (n as int, d as int)
        } else {
            (-n as int, -d as int)
        }
    }
}

/// The stop the edge contributes to row `k`, if that row is in its span.
pub open spec fn edge_contrib(e: (Point, Point), k: int, h: int) -> Seq<(int, int)> {
    if edge_row_lo(e) <= k <= edge_row_hi(e, h) {
        seq![edge_stop(e, k)]
    } else {
        Seq::empty()
    }
}

/// All stops of row `k`, in edge order.
pub open spec fn row_stops(edges: Seq<(Point, Point)>, k: int, h: int) -> Seq<(int, int)>
    decreases edges.len(),
{
    if edges.len() == 0 {
        Seq::empty()
    } else {
        row_stops(edges.drop_last(), k, h) + edge_contrib(edges.last(), k, h)
    }
}

/// Index in the sorted sequence `s` before which `x` belongs: the first
/// position holding a stop strictly greater than `x`.
pub open spec fn insert_pos(s: Seq<(int, int)>, x: (int, int)) -> int
    decreases s.len(),
{
    if s.len() == 0 {
        0
    } else if !rat_le(s[0], x) {
        0
    } else {
        1 + insert_pos(s.drop_first(), x)
    }
}

/// `s` with `x` inserted after every stop less than or equal to it.
pub open spec fn insert_sorted(s: Seq<(int, int)>, x: (int, int)) -> Seq<(int, int)> {
    let p = insert_pos(s, x);
    s.take(p) + seq![x] + s.skip(p)
}

/// The stops sorted ascending by value, stably, by repeated insertion.
pub open spec fn sort_stops_spec(s: Seq<(int, int)>) -> Seq<(int, int)>
    decreases s.len(),
{
    if s.len() == 0 {
        Seq::empty()
    } else {
        insert_sorted(sort_stops_spec(s.drop_last()), s.last())
    }
}

/// Round a stop half down to a pixel column and clamp into `[0, w]`.
pub open spec fn stop_floor_px(q: (int, int), w: int) -> int {
    let t = (2 * q.0 + q.1 - 1) / (2 * q.1);
    if t <= 0 {
        0
    } else if t >= w {
        w
    } else {
        t
    }
}

/// Round a stop half up to a pixel column and clamp into `[0, w]`.
pub open spec fn stop_round_px(q: (int, int), w: int) -> int {
    let t = (2 * q.0 + q.1) / (2 * q.1);
    if t <= 0 {
        0
    } else if t >= w {
        w
    } else {
        t
    }
}

/// Pair consecutive sorted stops into half-open pixel ranges, dropping an
/// odd trailing stop and any range that is empty after rounding and
/// clamping. The first of a pair rounds half down (toward the interior),
/// the second rounds half up; a range may not begin before the previous
/// range ended (`floor`), so the emitted ranges never overlap, and equal
/// stops become zero-width or adjacent ranges.
pub open spec fn pair_ranges_from(stops: Seq<(int, int)>, w: int, floor: int) -> Seq<(int, int)>
    decreases stops.len(),
{
    if stops.len() < 2 {
        Seq::empty()
    } else {
        let a0 = stop_floor_px(stops[0], w);
        let a = if a0 < floor {
            floor
        } else {
            a0
        };
        let b = stop_round_px(stops[1], w);
        if a < b {
            seq![(a, b)] + pair_ranges_from(stops.skip(2), w, b)
        } else {
            pair_ranges_from(stops.skip(2), w, floor)
        }
    }
}

/// The pairing of a whole row, starting at the viewport's left edge.
pub open spec fn pair_ranges(stops: Seq<(int, int)>, w: int) -> Seq<(int, int)> {
    pair_ranges_from(stops, w, 0)
}

/// Every range of a pairing lies within `[floor, w]`, is non-empty, and
/// begins no earlier than the previous range ended: the ranges are
/// ordered and non-overlapping.
proof fn lemma_pair_ranges_chained(stops: Seq<(int, int)>, w: int, floor: int)
    requires
        0 <= floor <= w,
    ensures
        forall|t: int|
            0 <= t < pair_ranges_from(stops, w, floor).len() ==> floor <= (
            #[trigger] pair_ranges_from(stops, w, floor)[t]).0
                < pair_ranges_from(stops, w, floor)[t].1 <= w,
        forall|t: int|
            0 <= t && t + 1 < pair_ranges_from(stops, w, floor).len() ==> (
            #[trigger] pair_ranges_from(stops, w, floor)[t]).1 <= pair_ranges_from(
                stops,
                w,
                floor,
            )[t + 1].0,
    decreases stops.len(),
{
    if stops.len() < 2 {
    } else {
        let a0 = stop_floor_px(stops[0], w);
        let a = if a0 < floor {
            floor
        } else {
            a0
        };
        let b = stop_round_px(stops[1], w);
        let res = pair_ranges_from(stops, w, floor);
        if a < b {
            lemma_pair_ranges_chained(stops.skip(2), w, b);
            let tail = pair_ranges_from(stops.skip(2), w, b);
            assert(res == seq![(a, b)] + tail);
            assert forall|t: int| 0 <= t < res.len() implies floor <= (#[trigger] res[t]).0
                < res[t].1 <= w by {
                if t > 0 {
                    assert(res[t] == tail[t - 1]);
                }
            }
            assert forall|t: int| 0 <= t && t + 1 < res.len() implies (#[trigger] res[t]).1
                <= res[t + 1].0 by {
                if t == 0 {
                    assert(res[1] == tail[0]);
                } else {
                    assert(res[t] == tail[t - 1]);
                    assert(res[t + 1] == tail[t]);
                }
            }
        } else {
            lemma_pair_ranges_chained(stops.skip(2), w, floor);
            assert(res == pair_ranges_from(stops.skip(2), w, floor));
        }
    }
}

/// The fill ranges of row `k`.
pub open spec fn spec_row_ranges(segs: Seq<FlatPathSegment>, k: int, w: int, h: int) -> Seq<
    (int, int),
> {
    pair_ranges(sort_stops_spec(row_stops(kept_edges(segs, h), k, h)), w)
}

/// The sparse scanline map from row `k` on: rows in ascending order, each
/// present exactly when it has at least one non-empty range.
pub open spec fn spec_rows_from(segs: Seq<FlatPathSegment>, k: int, w: int, h: int) -> Seq<
    (int, Seq<(int, int)>),
>
    decreases h - k,
{
    if k < 0 || k >= h {
        Seq::empty()
    } else {
        let rr = spec_row_ranges(segs, k, w, h);
        (if rr.len() > 0 {
            seq![(k, rr)]
        } else {
            Seq::empty()
        }) + spec_rows_from(segs, k + 1, w, h)
    }
}

/// The complete sparse scanline map of a flattened path.
pub open spec fn spec_scanlines(segs: Seq<FlatPathSegment>, w: int, h: int) -> Seq<
    (int, Seq<(int, int)>),
> {
    spec_rows_from(segs, 0, w, h)
}

/// Walk the path once and collect the surviving edges.
pub(crate) fn collect_edges(path: &FlatPath, area_height: u16) -> (edges: Vec<(Point, Point)>)
    requires
        flat_path_ok(path@),
    ensures
        edges@ == kept_edges(path@, area_height as int),
        forall|i: int| 0 <= i < edges@.len() ==> (#[trigger] edges@[i]).0.ok() && edges@[i].1.ok(),
        forall|i: int|
            0 <= i < edges@.len() ==> edge_kept(#[trigger] edges@[i], area_height as int),
{
    let segs = path.segments();
    let mut edges: Vec<(Point, Point)> = Vec::new();
    let mut last_point = Point::origin();
    let mut last_move = Point::origin();
    let h = area_height as i64;
    let mut i: usize = 0;
    while i < segs.len()
        invariant
            flat_path_ok(path@),
            segs@ == path@,
            0 <= i <= segs.len(),
            last_point.ok(),
            last_move.ok(),
            kept_edges(path@, area_height as int) == edges@ + kept_edges_from(
                path@,
                i as int,
                last_point,
                last_move,
                area_height as int,
            ),
            forall|j: int|
                0 <= j < edges@.len() ==> (#[trigger] edges@[j]).0.ok() && edges@[j].1.ok(),
            forall|j: int|
                0 <= j < edges@.len() ==> edge_kept(#[trigger] edges@[j], area_height as int),
        decreases segs.len() - i,
    {
        let seg = segs[i];
        match seg {
            FlatPathSegment::MoveTo(p) => {
                assert(crate::path::flat_segment_point(path@[i as int]) == p);
                last_move = p;
                last_point = p;
            },
            FlatPathSegment::LineTo(p) => {
                assert(crate::path::flat_segment_point(path@[i as int]) == p);
                let e = (last_point, p);
                if keep_edge(&e, area_height) {
                    edges.push(e);
                }
                last_point = p;
            },
            FlatPathSegment::Close => {
                let e = (last_point, last_move);
                if !(last_point.x == last_move.x && last_point.y == last_move.y) && keep_edge(
                    &e,
                    area_height,
                ) {
                    edges.push(e);
                }
                last_point = Point::origin();
                last_move = Point::origin();
            },
        }
        i = i + 1;
    }
    edges
}

/// Whether an edge survives the filters of `edge_kept`.
pub(crate) fn keep_edge(e: &(Point, Point), area_height: u16) -> (r: bool)
    ensures
        r == edge_kept(*e, area_height as int),
{
    let h_milli = area_height as i64 * 1000;
    e.0.y != e.1.y && !(e.0.y < 0 && e.1.y < 0) && !(e.0.y as i64 >= h_milli && e.1.y as i64
        >= h_milli)
}

/// Round a whole-thousandths value half down to whole units.
pub(crate) fn round_half_down_units(v: i32) -> (r: i64)
    ensures
        r == round_half_down_milli(v as int),
{
    let q = v as i64 / 1000;
    let m = v as i64 % 1000;
    if v < 0 {
        if m == 0 {
            q
        } else {
            q - 1
        }
    } else if m <= 500 {
        q
    } else {
        q + 1
    }
}

/// The inclusive row span an edge contributes stops to.
pub(crate) fn edge_rows(e: &(Point, Point), area_height: u16) -> (r: (i64, i64))
    ensures
        r.0 == edge_row_lo(*e),
        r.1 == edge_row_hi(*e, area_height as int),
        r.0 >= 0,
        r.1 < area_height as int,
{
    let lo_y = if e.0.y <= e.1.y {
        e.0.y
    } else {
        e.1.y
    };
    let hi_y = if e.0.y <= e.1.y {
        e.1.y
    } else {
        e.0.y
    };
    let first = round_half_down_units(lo_y);
    let last = round_half_down_units(hi_y) - 1;
    let lo = if first >= 0 {
        first
    } else {
        0
    };
    let hi = if last <= area_height as i64 - 1 {
        last
    } else {
        area_height as i64 - 1
    };
    (lo, hi)
}

/// The exact stop of an edge at the center of row `k`.
pub(crate) fn edge_stop_at(e: &(Point, Point), k: i64) -> (q: Rat)
    requires
        e.0.ok(),
        e.1.ok(),
        e.0.y != e.1.y,
        0 <= k < 65536,
    ensures
        q@ == edge_stop(*e, k as int),
        rat_wf(q@),
{
    if e.0.x == e.1.x {
        Rat { num: e.0.x as i128, den: 1000 }
    } else {
        let dx = e.1.x as i64 - e.0.x as i64;
        let dy = e.1.y as i64 - e.0.y as i64;
        let mid_y = 1000 * k + 500 - e.0.y as i64;
        assert(-2_200_000_000_000_000_000 <= e.0.x as i64 as i128 * dy as i128
            <= 2_200_000_000_000_000_000) by (nonlinear_arith)
            requires
                -1_000_000_000 <= e.0.x as i64 <= 1_000_000_000,
                -2_200_000_000 <= dy as i128 <= 2_200_000_000,
        ;
        assert(-4_400_000_000_000_000_000 <= mid_y as i128 * dx as i128
            <= 4_400_000_000_000_000_000) by (nonlinear_arith)
            requires
                -2_000_000_000 <= mid_y <= 2_000_000_000,
                -2_200_000_000 <= dx as i128 <= 2_200_000_000,
        ;
        let n: i128 = e.0.x as i128 * dy as i128 + mid_y as i128 * dx as i128;
        let d: i128 = 1000 * dy as i128;
        if d > 0 {
            Rat { num: n, den: d }
        } else {
            Rat { num: -n, den: -d }
        }
    }
}

/// Ordering test used by the stop sort.
pub(crate) fn rat_le_exec(a: &Rat, b: &Rat) -> (r: bool)
    requires
        rat_wf(a@),
        rat_wf(b@),
    ensures
        r == rat_le(a@, b@),
{
    assert(-1_000_000_000_000_000_000_000_000_000_000_000 <= a.num as int * b.den as int
        <= 1_000_000_000_000_000_000_000_000_000_000_000 && -1_000_000_000_000_000_000_000_000_000_000_000
        <= b.num as int * a.den as int <= 1_000_000_000_000_000_000_000_000_000_000_000)
        by (nonlinear_arith)
        requires
            rat_wf(a@),
            rat_wf(b@),
    ;
    a.num * b.den <= b.num * a.den
}

/// `j` is where the scan of `insert_pos` stops, so they agree.
proof fn lemma_insert_pos_agrees(s: Seq<(int, int)>, x: (int, int), j: int)
    requires
        0 <= j <= s.len(),
        forall|i: int| 0 <= i < j ==> rat_le(#[trigger] s[i], x),
        j == s.len() || !rat_le(s[j], x),
    ensures
        insert_pos(s, x) == j,
    decreases s.len(),
{
    if s.len() == 0 {
    } else if j == 0 {
    } else {
        assert(rat_le(s[0], x));
        lemma_insert_pos_agrees(s.drop_first(), x, j - 1);
    }
}

/// Sort the stops of one row ascending by value, stably.
pub(crate) fn sort_row_stops(v: &Vec<Rat>) -> (out: Vec<Rat>)
    requires
        forall|i: int| 0 <= i < v@.len() ==> rat_wf((#[trigger] v@[i])@),
    ensures
        rats_view(out@) == sort_stops_spec(rats_view(v@)),
        forall|i: int| 0 <= i < out@.len() ==> rat_wf((#[trigger] out@[i])@),
{
    let mut out: Vec<Rat> = Vec::new();
    let mut i: usize = 0;
    while i < v.len()
        invariant
            0 <= i <= v@.len(),
            forall|t: int| 0 <= t < v@.len() ==> rat_wf((#[trigger] v@[t])@),
            forall|t: int| 0 <= t < out@.len() ==> rat_wf((#[trigger] out@[t])@),
            rats_view(out@) == sort_stops_spec(rats_view(v@).take(i as int)),
        decreases v@.len() - i,
    {
        let x = v[i];
        let mut j: usize = 0;
        while j < out.len() && rat_le_exec(&out[j], &x)
            invariant
                0 <= j <= out@.len(),
                forall|t: int| 0 <= t < out@.len() ==> rat_wf((#[trigger] out@[t])@),
                rat_wf(x@),
                forall|t: int| 0 <= t < j ==> rat_le((#[trigger] out@[t])@, x@),
            decreases out@.len() - j,
        {
            j = j + 1;
        }
        proof {
            lemma_insert_pos_agrees(rats_view(out@), x@, j as int);
        }
        let ghost prev = rats_view(out@);
        out.insert(j, x);
        proof {
            let p = insert_pos(prev, x@);
            assert(rats_view(out@) =~= prev.take(p) + seq![x@] + prev.skip(p));
            assert(rats_view(v@).take(i as int + 1).drop_last() =~= rats_view(v@).take(i as int));
            assert(rats_view(v@).take(i as int + 1).last() == x@);
        }
        i = i + 1;
    }
    proof {
        assert(rats_view(v@).take(v@.len() as int) =~= rats_view(v@));
    }
    out
}

/// Round a stop half down to a pixel column, clamped into the viewport.
pub(crate) fn stop_floor_px_exec(q: &Rat, area_width: u16) -> (r: u16)
    requires
        rat_wf(q@),
    ensures
        r as int == stop_floor_px(q@, area_width as int),
        r <= area_width,
{
    if q.num <= 0 {
        assert(2 * q.num as int + q.den as int - 1 < 2 * q.den as int);
        assert((2 * q.num as int + q.den as int - 1) / (2 * q.den as int) <= 0) by {
            vstd::arithmetic::div_mod::lemma_div_is_ordered(
                2 * q.num as int + q.den as int - 1,
                2 * q.den as int - 1,
                2 * q.den as int,
            );
            vstd::arithmetic::div_mod::lemma_basic_div(2 * q.den as int - 1, 2 * q.den as int);
        }
        0
    } else {
        let t = (2 * q.num + q.den - 1) / (2 * q.den);
        assert(t == (2 * q.num as int + q.den as int - 1) / (2 * q.den as int));
        if t >= area_width as i128 {
            area_width
        } else {
            assert(t >= 0) by {
                vstd::arithmetic::div_mod::lemma_div_pos_is_pos(
                    2 * q.num as int + q.den as int - 1,
                    2 * q.den as int,
                );
            }
            t as u16
        }
    }
}

/// Round a stop half up to a pixel column, clamped into the viewport.
pub(crate) fn stop_round_px_exec(q: &Rat, area_width: u16) -> (r: u16)
    requires
        rat_wf(q@),
    ensures
        r as int == stop_round_px(q@, area_width as int),
        r <= area_width,
{
    if q.num <= 0 {
        assert((2 * q.num as int + q.den as int) < 2 * q.den as int);
        assert((2 * q.num as int + q.den as int) / (2 * q.den as int) <= 0) by {
            vstd::arithmetic::div_mod::lemma_div_is_ordered(
                2 * q.num as int + q.den as int,
                2 * q.den as int - 1,
                2 * q.den as int,
            );
            vstd::arithmetic::div_mod::lemma_basic_div(2 * q.den as int - 1, 2 * q.den as int);
        }
        0
    } else {
        let t = (2 * q.num + q.den) / (2 * q.den);
        assert(t == (2 * q.num as int + q.den as int) / (2 * q.den as int));
        if t >= area_width as i128 {
            area_width
        } else {
            assert(t >= 0) by {
                vstd::arithmetic::div_mod::lemma_div_pos_is_pos(
                    2 * q.num as int + q.den as int,
                    2 * q.den as int,
                );
            }
            t as u16
        }
    }
}

/// Pair sorted stops into trimmed pixel ranges.
pub(crate) fn pair_trim(stops: &Vec<Rat>, area_width: u16) -> (out: Vec<PixelRange>)
    requires
        forall|i: int| 0 <= i < stops@.len() ==> rat_wf((#[trigger] stops@[i])@),
    ensures
        ranges_view(out@) == pair_ranges(rats_view(stops@), area_width as int),
        forall|i: int|
            0 <= i < out@.len() ==> 0 <= (#[trigger] out@[i]).start < out@[i].end
                <= area_width,
        forall|i: int|
            0 <= i && i + 1 < out@.len() ==> (#[trigger] out@[i]).end <= out@[i + 1].start,
{
    let mut out: Vec<PixelRange> = Vec::new();
    let total = stops.len() / 2;
    let mut p: usize = 0;
    let mut floor: u16 = 0;
    proof {
        assert(rats_view(stops@).skip(0) =~= rats_view(stops@));
        assert(ranges_view(out@) =~= Seq::<(int, int)>::empty());
    }
    while p < total
        invariant
            forall|t: int| 0 <= t < stops@.len() ==> rat_wf((#[trigger] stops@[t])@),
            0 <= p <= total,
            total == stops@.len() / 2,
            stops@.len() <= usize::MAX,
            floor <= area_width,
            pair_ranges(rats_view(stops@), area_width as int) == ranges_view(out@)
                + pair_ranges_from(
                rats_view(stops@).skip(2 * p as int),
                area_width as int,
                floor as int,
            ),
            forall|t: int|
                0 <= t < out@.len() ==> 0 <= (#[trigger] out@[t]).start < out@[t].end
                    <= area_width,
            forall|t: int|
                0 <= t && t + 1 < out@.len() ==> (#[trigger] out@[t]).end <= out@[t + 1].start,
            out@.len() > 0 ==> out@.last().end <= floor,
        decreases total - p,
    {
        proof {
            vstd::arithmetic::div_mod::lemma_fundamental_div_mod(stops@.len() as int, 2);
            vstd::arithmetic::div_mod::lemma_mod_bound(stops@.len() as int, 2);
        }
        let i = 2 * p;
        let a0 = stop_floor_px_exec(&stops[i], area_width);
        let a = if a0 < floor {
            floor
        } else {
            a0
        };
        let b = stop_round_px_exec(&stops[i + 1], area_width);
        let ghost rest = rats_view(stops@).skip(i as int);
        proof {
            assert(rest[0] == rats_view(stops@)[i as int]);
            assert(rest[1] == rats_view(stops@)[i as int + 1]);
            assert(rest.skip(2) =~= rats_view(stops@).skip(i as int + 2));
        }
        if a < b {
            out.push(PixelRange { start: a, end: b });
            floor = b;
            proof {
                assert(ranges_view(out@) =~= ranges_view(out@.drop_last()) + seq![
                    (a as int, b as int),
                ]);
            }
        }
        p = p + 1;
    }
    proof {
        assert(rats_view(stops@).skip(2 * p as int).len() < 2);
        assert(pair_ranges_from(
            rats_view(stops@).skip(2 * p as int),
            area_width as int,
            floor as int,
        ) =~= Seq::<(int, int)>::empty());
        assert(ranges_view(out@) + Seq::<(int, int)>::empty() =~= ranges_view(out@));
    }
    out
}

/// The sequence of (row, ranges) views of a scanline map.
pub open spec fn rows_view(r: Seq<(u16, Vec<PixelRange>)>) -> Seq<(int, Seq<(int, int)>)> {
    r.map_values(|row: (u16, Vec<PixelRange>)| (row.0 as int, ranges_view(row.1@)))
}

/// Rasterize a flattened path against a `width x height` viewport into a
/// sparse scanline map: rows in ascending order, each with its ordered
/// non-overlapping fill ranges, rows without coverage absent. Every range
/// lies within `[0, width]` and is non-empty. A `0 x 0` viewport yields an
/// empty map.
pub fn scanlines_from_path(path: &FlatPath, area_width: u16, area_height: u16) -> (r: Vec<
    (u16, Vec<PixelRange>),
>)
    requires
        flat_path_ok(path@),
    ensures
        rows_view(r@) == spec_scanlines(path@, area_width as int, area_height as int),
        forall|i: int, j: int| 0 <= i < j < r@.len() ==> (#[trigger] r@[i]).0 < (#[trigger] r@[j]).0,
        forall|i: int| 0 <= i < r@.len() ==> (#[trigger] r@[i]).0 < area_height,
        forall|i: int| 0 <= i < r@.len() ==> (#[trigger] r@[i]).1@.len() > 0,
        forall|i: int, j: int|
            0 <= i < r@.len() && 0 <= j < (#[trigger] r@[i]).1@.len() ==> 0 <= (
            #[trigger] r@[i].1@[j]).start < r@[i].1@[j].end <= area_width,
        forall|i: int, j: int|
            #![trigger r@[i].1@[j]]
            0 <= i < r@.len() && 0 <= j && j + 1 < r@[i].1@.len() ==> r@[i].1@[j].end <= r@[i].1@[
                j + 1].start,
{
    let w = area_width;
    let h = area_height;
    let edges = collect_edges(path, h);
    let mut result: Vec<(u16, Vec<PixelRange>)> = Vec::new();
    let mut k: usize = 0;
    proof {
        assert(rows_view(result@) =~= Seq::<(int, Seq<(int, int)>)>::empty());
    }
    while k < h as usize
        invariant
            flat_path_ok(path@),
            0 <= k <= h as int,
            edges@ == kept_edges(path@, h as int),
            forall|t: int|
                0 <= t < edges@.len() ==> (#[trigger] edges@[t]).0.ok() && edges@[t].1.ok(),
            forall|t: int| 0 <= t < edges@.len() ==> edge_kept(#[trigger] edges@[t], h as int),
            spec_scanlines(path@, w as int, h as int) == rows_view(result@) + spec_rows_from(
                path@,
                k as int,
                w as int,
                h as int,
            ),
            forall|i: int, j: int|
                0 <= i < j < result@.len() ==> (#[trigger] result@[i]).0 < (
                #[trigger] result@[j]).0,
            forall|i: int| 0 <= i < result@.len() ==> (#[trigger] result@[i]).0 < k,
            forall|i: int| 0 <= i < result@.len() ==> (#[trigger] result@[i]).1@.len() > 0,
            forall|i: int, j: int|
                0 <= i < result@.len() && 0 <= j < (#[trigger] result@[i]).1@.len() ==> 0 <= (
                #[trigger] result@[i].1@[j]).start < result@[i].1@[j].end <= w,
            forall|i: int, j: int|
                #![trigger result@[i].1@[j]]
                0 <= i < result@.len() && 0 <= j && j + 1 < result@[i].1@.len() ==> result@[i].1@[
                    j].end <= result@[i].1@[j + 1].start,
        decreases h as int - k,
    {
        let mut stops: Vec<Rat> = Vec::new();
        let mut j: usize = 0;
        proof {
            assert(edges@.take(0) =~= Seq::<(Point, Point)>::empty());
            assert(rats_view(stops@) =~= Seq::<(int, int)>::empty());
        }
        while j < edges.len()
            invariant
                0 <= j <= edges@.len(),
                0 <= k < 65536,
                forall|t: int|
                    0 <= t < edges@.len() ==> (#[trigger] edges@[t]).0.ok() && edges@[t].1.ok(),
                forall|t: int| 0 <= t < edges@.len() ==> edge_kept(#[trigger] edges@[t], h as int),
                rats_view(stops@) == row_stops(edges@.take(j as int), k as int, h as int),
                forall|t: int| 0 <= t < stops@.len() ==> rat_wf((#[trigger] stops@[t])@),
            decreases edges@.len() - j,
        {
            let e = edges[j];
            let rows = edge_rows(&e, h);
            let ghost old_stops = rats_view(stops@);
            if rows.0 <= k as i64 && k as i64 <= rows.1 {
                let q = edge_stop_at(&e, k as i64);
                stops.push(q);
                proof {
                    assert(rats_view(stops@) =~= old_stops + seq![q@]);
                }
            }
            proof {
                assert(edges@.take(j as int + 1).drop_last() =~= edges@.take(j as int));
                assert(edges@.take(j as int + 1).last() == edges@[j as int]);
                if !(edge_row_lo(edges@[j as int]) <= k as int <= edge_row_hi(
                    edges@[j as int],
                    h as int,
                )) {
                    assert(rats_view(stops@) =~= old_stops + Seq::<(int, int)>::empty());
                }
            }
            j = j + 1;
        }
        proof {
            assert(edges@.take(edges@.len() as int) =~= edges@);
        }
        let sorted = sort_row_stops(&stops);
        let ranges = pair_trim(&sorted, w);
        proof {
            assert(ranges_view(ranges@) == spec_row_ranges(path@, k as int, w as int, h as int));
        }
        let ghost old_rows = rows_view(result@);
        if ranges.len() > 0 {
            result.push((k as u16, ranges));
            proof {
                assert(rows_view(result@) =~= old_rows + seq![
                    (k as int, ranges_view(ranges@)),
                ]);
            }
        } else {
            proof {
                assert(ranges_view(ranges@) =~= Seq::<(int, int)>::empty());
                assert(ranges_view(ranges@).len() == 0);
                assert(rows_view(result@) =~= old_rows + Seq::<(int, Seq<(int, int)>)>::empty());
            }
        }
        k = k + 1;
    }
    proof {
        assert(spec_rows_from(path@, k as int, w as int, h as int) =~= Seq::<
            (int, Seq<(int, int)>),
        >::empty());
        assert(rows_view(result@) + Seq::<(int, Seq<(int, int)>)>::empty() =~= rows_view(
            result@,
        ));
    }
    result
}

} // verus!
