//! Scanline rasterizer, stop-column interface: instead of paired,
//! pruned ranges it returns each covered row's ordered stop columns,
//! clamping every stop into the viewport and keeping an unpaired
//! trailing stop. The ranges-based interface in the sibling module is
//! the primary one; this one serves callers that pair stops themselves.

use vstd::prelude::*;

use crate::path::{flat_path_ok, FlatPath};
use crate::point::Point;
use crate::scanlines::{
    edge_kept, edge_row_hi, edge_row_lo, edge_stop, kept_edges, rat_wf, rats_view, row_stops,
    sort_stops_spec, stop_floor_px, stop_round_px, Rat,
};

verus! {

/// A sorted stop list mapped to pixel columns: a stop left of the
/// viewport clamps to zero and one right of it clamps to the width;
/// otherwise odd stops (first of a pair) round half down and even stops
/// round half up.
pub open spec fn trimmed_stops(stops: Seq<(int, int)>, w: int) -> Seq<int> {
    Seq::new(
        stops.len(),
        |i: int|
            if stops[i].0 < 0 {
                0
            } else if stops[i].0 > w * stops[i].1 {
                w
            } else if i % 2 == 0 {
                stop_floor_px(stops[i], w)
            } else {
                stop_round_px(stops[i], w)
            },
    )
}

/// The ordered stop map from row `k` on: rows in ascending order, each
/// present exactly when at least one edge crosses it.
pub open spec fn spec_stop_rows_from(
    segs: Seq<crate::path::FlatPathSegment>,
    k: int,
    w: int,
    h: int,
) -> Seq<(int, Seq<int>)>
    decreases h - k,
{
    if k < 0 || k >= h {
        Seq::empty()
    } else {
        let stops = row_stops(kept_edges(segs, h), k, h);
        (if stops.len() > 0 {
            seq![(k, trimmed_stops(sort_stops_spec(stops), w))]
        } else {
            Seq::empty()
        }) + spec_stop_rows_from(segs, k + 1, w, h)
    }
}

/// The complete ordered stop map of a flattened path.
pub open spec fn spec_stop_rows(
    segs: Seq<crate::path::FlatPathSegment>,
    w: int,
    h: int,
) -> Seq<(int, Seq<int>)> {
    spec_stop_rows_from(segs, 0, w, h)
}

/// The sequence of integer views of a stop column vector.
pub open spec fn cols_view(s: Seq<u16>) -> Seq<int> {
    s.map_values(|x: u16| x as int)
}

/// The sequence of (row, stop column) views of a stop map.
pub open spec fn stop_rows_view(r: Seq<(u16, Vec<u16>)>) -> Seq<(int, Seq<int>)> {
    r.map_values(|row: (u16, Vec<u16>)| (row.0 as int, cols_view(row.1@)))
}

/// Map one sorted stop list to its pixel columns.
fn trim_stops(stops: &Vec<Rat>, area_width: u16) -> (out: Vec<u16>)
    requires
        forall|i: int| 0 <= i < stops@.len() ==> rat_wf((#[trigger] stops@[i])@),
    ensures
        cols_view(out@) == trimmed_stops(rats_view(stops@), area_width as int),
{
    let mut out: Vec<u16> = Vec::new();
    let mut i: usize = 0;
    while i < stops.len()
        invariant
            0 <= i <= stops@.len(),
            forall|t: int| 0 <= t < stops@.len() ==> rat_wf((#[trigger] stops@[t])@),
            cols_view(out@) == trimmed_stops(
                rats_view(stops@),
                area_width as int,
            ).take(i as int),
        decreases stops@.len() - i,
    {
        let q = &stops[i];
        let px: u16 = if q.num < 0 {
            0
        } else {
            assert(area_width as int * q.den as int <= 1_000_000_000_000_000_000_000_000_000_000)
                by (nonlinear_arith)
                requires
                    rat_wf(q@),
                    area_width <= 65535,
            ;
            if q.num > area_width as i128 * q.den {
                area_width
            } else if i % 2 == 0 {
                crate::scanlines::stop_floor_px_exec(q, area_width)
            } else {
                crate::scanlines::stop_round_px_exec(q, area_width)
            }
        };
        proof {
            assert(rats_view(stops@)[i as int] == stops@[i as int]@);
            assert(px as int == trimmed_stops(rats_view(stops@), area_width as int)[i as int]);
        }
        let ghost pre_out = out@;
        proof {
            assert(cols_view(pre_out).len() == i as int);
            assert(pre_out.len() == i as int);
        }
        out.push(px);
        proof {
            let tv = trimmed_stops(rats_view(stops@), area_width as int);
            assert(out@ == pre_out.push(px));
            assert(out@.len() == i as int + 1);
            assert forall|t: int| 0 <= t < i + 1 implies cols_view(out@)[t] == tv.take(
                i as int + 1,
            )[t] by {
                assert(cols_view(out@)[t] == out@[t] as int);
                if t < i {
                    assert(out@[t] == pre_out[t]);
                    assert(cols_view(pre_out)[t] == pre_out[t] as int);
                    assert(cols_view(pre_out)[t] == tv.take(i as int)[t]);
                } else {
                    assert(out@[t] == px);
                }
            }
            assert(cols_view(out@) =~= tv.take(i as int + 1));
        }
        i = i + 1;
    }
    proof {
        assert(trimmed_stops(rats_view(stops@), area_width as int).take(stops@.len() as int)
            =~= trimmed_stops(rats_view(stops@), area_width as int));
    }
    out
}

/// Rasterize a flattened path into each covered row's ordered, clamped
/// stop columns, rows ascending.
pub fn scanlines_from_path(path: &FlatPath, area_width: u16, area_height: u16) -> (r: Vec<
    (u16, Vec<u16>),
>)
    requires
        flat_path_ok(path@),
    ensures
        stop_rows_view(r@) == spec_stop_rows(path@, area_width as int, area_height as int),
        forall|i: int, j: int| 0 <= i < j < r@.len() ==> (#[trigger] r@[i]).0 < (#[trigger] r@[j]).0,
        forall|i: int| 0 <= i < r@.len() ==> (#[trigger] r@[i]).0 < area_height,
        forall|i: int, j: int|
            #![trigger r@[i].1@[j]]
            0 <= i < r@.len() && 0 <= j < r@[i].1@.len() ==> r@[i].1@[j] <= area_width,
{
    let w = area_width;
    let h = area_height;
    let edges = crate::scanlines::collect_edges(path, h);
    let mut result: Vec<(u16, Vec<u16>)> = Vec::new();
    let mut k: usize = 0;
    proof {
        assert(stop_rows_view(result@) =~= Seq::<(int, Seq<int>)>::empty());
    }
    while k < h as usize
        invariant
            flat_path_ok(path@),
            0 <= k <= h as int,
            edges@ == kept_edges(path@, h as int),
            forall|t: int|
                0 <= t < edges@.len() ==> (#[trigger] edges@[t]).0.ok() && edges@[t].1.ok(),
            forall|t: int| 0 <= t < edges@.len() ==> edge_kept(#[trigger] edges@[t], h as int),
            spec_stop_rows(path@, w as int, h as int) == stop_rows_view(result@)
                + spec_stop_rows_from(path@, k as int, w as int, h as int),
            forall|i: int, j: int|
                0 <= i < j < result@.len() ==> (#[trigger] result@[i]).0 < (
                #[trigger] result@[j]).0,
            forall|i: int| 0 <= i < result@.len() ==> (#[trigger] result@[i]).0 < k,
            forall|i: int, j: int|
                #![trigger result@[i].1@[j]]
                0 <= i < result@.len() && 0 <= j < result@[i].1@.len() ==> result@[i].1@[j] <= w,
        decreases h as int - k,
    {
        let mut stops: Vec<Rat> = Vec::new();
        let mut j: usize = 0;
        proof {
            assert(edges@.take(0) =~= Seq::<(Point, Point)>::empty());
            assert(rats_view(stops@) =~= Seq::<(int, int)>::empty());
        }
        while j < edges.len()
            invariant
                0 <= j <= edges@.len(),
                0 <= k < 65536,
                forall|t: int|
                    0 <= t < edges@.len() ==> (#[trigger] edges@[t]).0.ok() && edges@[t].1.ok(),
                forall|t: int| 0 <= t < edges@.len() ==> edge_kept(#[trigger] edges@[t], h as int),
                rats_view(stops@) == row_stops(edges@.take(j as int), k as int, h as int),
                forall|t: int| 0 <= t < stops@.len() ==> rat_wf((#[trigger] stops@[t])@),
            decreases edges@.len() - j,
        {
            let e = edges[j];
            let rows = crate::scanlines::edge_rows(&e, h);
            let ghost old_stops = rats_view(stops@);
            if rows.0 <= k as i64 && k as i64 <= rows.1 {
                let q = crate::scanlines::edge_stop_at(&e, k as i64);
                stops.push(q);
                proof {
                    assert(rats_view(stops@) =~= old_stops + seq![q@]);
                }
            }
            proof {
                assert(edges@.take(j as int + 1).drop_last() =~= edges@.take(j as int));
                assert(edges@.take(j as int + 1).last() == edges@[j as int]);
                if !(edge_row_lo(edges@[j as int]) <= k as int <= edge_row_hi(
                    edges@[j as int],
                    h as int,
                )) {
                    assert(rats_view(stops@) =~= old_stops + Seq::<(int, int)>::empty());
                }
            }
            j = j + 1;
        }
        proof {
            assert(edges@.take(edges@.len() as int) =~= edges@);
        }
        let ghost old_rows = stop_rows_view(result@);
        if stops.len() > 0 {
            let sorted = crate::scanlines::sort_row_stops(&stops);
            let cols = trim_stops(&sorted, w);
            proof {
                assert forall|t: int| 0 <= t < cols@.len() implies #[trigger] cols@[t] <= w by {
                    assert(cols_view(cols@).len() == cols@.len());
                    assert(cols@[t] as int == cols_view(cols@)[t]);
                    assert(cols_view(cols@)[t] == trimmed_stops(rats_view(sorted@), w as int)[t]);
                    assert(trimmed_stops(rats_view(sorted@), w as int)[t] <= w);
                }
            }
            result.push((k as u16, cols));
            proof {
                assert(stop_rows_view(result@) =~= old_rows + seq![
                    (k as int, cols_view(cols@)),
                ]);
            }
        } else {
            proof {
                assert(stop_rows_view(result@) =~= old_rows + Seq::<(int, Seq<int>)>::empty());
            }
        }
        k = k + 1;
    }
    proof {
        assert(spec_stop_rows_from(path@, k as int, w as int, h as int) =~= Seq::<
            (int, Seq<int>),
        >::empty());
        assert(stop_rows_view(result@) + Seq::<(int, Seq<int>)>::empty() =~= stop_rows_view(
            result@,
        ));
    }
    result
}

} // verus!
