//! Flattening of curves and arcs, and the path model.
//! Coordinates are in thousandths of a device unit.

use ssb::flatten::{flatten_arc, flatten_curve, flatten_path};
use ssb::path::{FlatPathSegment, Path};
use ssb::point::Point;

#[test]
fn flat_arc() {
    // Nothing to do
    assert_eq!(
        flatten_arc(Point { x: 42500, y: 33000 }, Point { x: 42500, y: 33000 }, 99_000_000),
        vec![Point { x: 42500, y: 33000 }]
    );
    assert_eq!(
        flatten_arc(Point { x: 1000, y: 2000 }, Point { x: 3000, y: 4000 }, 0),
        vec![Point { x: 1000, y: 2000 }]
    );
    // Tiny angle = 2 points = 1 line
    assert_eq!(flatten_arc(Point { x: 0, y: -5000 }, Point { x: 0, y: 0 }, 10).len(), 2);
    // Complex
    let points = flatten_arc(Point { x: 0, y: -4000 }, Point { x: 0, y: -2000 }, -270_000_000);
    assert_eq!(
        points.last(),
        Some(&Point { x: 2000, y: -2000 }),
        "Last point not fitting: {:?}",
        points
    );
}

#[test]
fn flat_curve() {
    // Already flat/line
    assert_eq!(
        flatten_curve(
            Point { x: -2000, y: 7000 },
            Point { x: -1000, y: 7000 },
            Point { x: 0, y: 7000 },
            Point { x: 1000, y: 7000 }
        ),
        vec![Point { x: -2000, y: 7000 }, Point { x: 1000, y: 7000 }]
    );
    // Complex
    let points = flatten_curve(
        Point { x: -5000, y: 0 },
        Point { x: 0, y: -4000 },
        Point { x: 5000, y: 6000 },
        Point { x: 10000, y: 1000 },
    );
    assert!(points.len() > 5, "Not enough points: {:?}", points);
}

#[test]
fn curve_endpoints_exact() {
    let start = Point { x: -123456, y: 654321 };
    let end = Point { x: 98765, y: -43210 };
    let points = flatten_curve(
        start,
        Point { x: 500000, y: 900000 },
        Point { x: -800000, y: -700000 },
        end,
    );
    assert_eq!(points.first(), Some(&start));
    assert_eq!(points.last(), Some(&end));
}

#[test]
fn arc_starts_exact() {
    let start = Point { x: 1234, y: 5678 };
    let points = flatten_arc(start, Point { x: 0, y: 0 }, 45_000_000);
    assert_eq!(points[0], start);
    assert!(points.len() >= 2);
}

#[test]
fn flatten_already_flat_path_is_identity() {
    let mut path = Path::new();
    path.move_to(Point { x: 1000, y: 1000 });
    path.line_to(Point { x: 6000, y: 1000 });
    path.line_to(Point { x: 6000, y: 4000 });
    path.close();
    let flat = flatten_path(&path);
    assert_eq!(
        flat.segments(),
        &vec![
            FlatPathSegment::MoveTo(Point { x: 1000, y: 1000 }),
            FlatPathSegment::LineTo(Point { x: 6000, y: 1000 }),
            FlatPathSegment::LineTo(Point { x: 6000, y: 4000 }),
            FlatPathSegment::Close,
        ]
    );
}

#[test]
fn flatten_path_lowers_curves() {
    let mut path = Path::new();
    path.move_to(Point { x: -5000, y: 0 });
    path.curve_to(Point { x: 0, y: -4000 }, Point { x: 5000, y: 6000 }, Point {
        x: 10000,
        y: 1000,
    });
    let flat = flatten_path(&path);
    let segs = flat.segments();
    assert!(segs.len() > 5);
    assert_eq!(segs[0], FlatPathSegment::MoveTo(Point { x: -5000, y: 0 }));
    for seg in segs.iter().skip(1) {
        assert!(matches!(seg, FlatPathSegment::LineTo(_)));
    }
    assert_eq!(*segs.last().unwrap(), FlatPathSegment::LineTo(Point { x: 10000, y: 1000 }));
}

#[test]
fn point_metrics() {
    let p = Point { x: 3000, y: 4000 };
    assert_eq!(p.len(), 5000);
    assert_eq!(p.grid_len(), 7000);
    let q = Point { x: -3000, y: 4000 };
    assert_eq!(q.grid_len(), 7000);
    assert_eq!(Point::origin(), Point { x: 0, y: 0 });
    assert_eq!(p.add(q), Point { x: 0, y: 8000 });
    assert_eq!(p.sub(q), Point { x: 6000, y: 0 });
    assert_eq!(p.mul(500), Point { x: 1500, y: 2000 });
}
