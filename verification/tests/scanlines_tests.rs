//! Rasterization into paired, pruned pixel ranges.
//! Coordinates are in thousandths of a device unit.

use ssb::path::FlatPath;
use ssb::point::Point;
use ssb::scanlines::{scanlines_from_path, PixelRange};

fn pr(start: u16, end: u16) -> PixelRange {
    PixelRange { start, end }
}

#[test]
fn scanlines_scanlines_quad_trimmed() {
    // Path
    let mut path = FlatPath::new();
    path.move_to(Point { x: 1000, y: 1000 });
    path.line_to(Point { x: 6000, y: 1000 });
    path.line_to(Point { x: 6000, y: 4000 });
    path.line_to(Point { x: 1000, y: 4000 });
    path.close();
    // Test
    assert_eq!(
        scanlines_from_path(&path, 5, 5),
        vec![(1, vec![pr(1, 5)]), (2, vec![pr(1, 5)]), (3, vec![pr(1, 5)])]
    );
}

#[test]
fn scanlines_scanlines_unclosed() {
    // Path
    let mut path = FlatPath::new();
    path.move_to(Point { x: 1000, y: 0 });
    path.line_to(Point { x: 1000, y: 3000 });
    path.line_to(Point { x: 4000, y: 3000 });
    // Test
    assert_eq!(scanlines_from_path(&path, 4, 3), vec![]);
}

#[test]
fn scanlines_scanlines_hole() {
    // Path
    let mut path = FlatPath::new();
    path.move_to(Point { x: 0, y: 0 });
    path.line_to(Point { x: 9000, y: 0 });
    path.line_to(Point { x: 9000, y: 10000 });
    path.line_to(Point { x: 0, y: 10000 });
    path.close();
    path.move_to(Point { x: 2000, y: 2000 });
    path.line_to(Point { x: 2000, y: 5000 });
    path.line_to(Point { x: 7000, y: 5000 });
    path.line_to(Point { x: 7000, y: 2000 });
    path.close();
    // Test
    assert_eq!(
        scanlines_from_path(&path, 10, 10),
        vec![
            (0, vec![pr(0, 9)]),
            (1, vec![pr(0, 9)]),
            (2, vec![pr(0, 2), pr(7, 9)]),
            (3, vec![pr(0, 2), pr(7, 9)]),
            (4, vec![pr(0, 2), pr(7, 9)]),
            (5, vec![pr(0, 9)]),
            (6, vec![pr(0, 9)]),
            (7, vec![pr(0, 9)]),
            (8, vec![pr(0, 9)]),
            (9, vec![pr(0, 9)]),
        ]
    );
}

#[test]
fn scanlines_scanlines_subpixels() {
    // Path
    let mut path = FlatPath::new();
    path.move_to(Point { x: 1000, y: 1000 });
    path.line_to(Point { x: 4500, y: 1000 });
    path.line_to(Point { x: 6000, y: 1700 });
    path.line_to(Point { x: 8000, y: 1000 });
    path.line_to(Point { x: 9500, y: 1000 });
    path.line_to(Point { x: 9500, y: 7000 });
    path.line_to(Point { x: 2000, y: 7000 });
    path.close();
    // Test
    assert_eq!(
        scanlines_from_path(&path, 10, 10),
        vec![
            (1, vec![pr(1, 6), pr(7, 10)]),
            (2, vec![pr(1, 10)]),
            (3, vec![pr(1, 10)]),
            (4, vec![pr(2, 10)]),
            (5, vec![pr(2, 10)]),
            (6, vec![pr(2, 10)]),
        ]
    );
}

#[test]
fn scanlines_empty_viewport() {
    let mut path = FlatPath::new();
    path.move_to(Point { x: 0, y: 0 });
    path.line_to(Point { x: 5000, y: 5000 });
    path.close();
    assert_eq!(scanlines_from_path(&path, 0, 0), vec![]);
}

#[test]
fn scanlines_clamped_to_viewport() {
    // A closed triangle reaching far outside the viewport.
    let mut path = FlatPath::new();
    path.move_to(Point { x: -3000, y: -1000 });
    path.line_to(Point { x: 9000, y: 2000 });
    path.line_to(Point { x: -3000, y: 5000 });
    path.close();
    let rows = scanlines_from_path(&path, 4, 4);
    assert!(!rows.is_empty());
    for (row, ranges) in rows {
        assert!(row < 4);
        assert!(!ranges.is_empty());
        for r in ranges {
            assert!(r.start < r.end);
            assert!(r.end <= 4);
        }
    }
}
