//! Rasterization into ordered, clamped stop columns (the interface
//! that keeps unpaired stops).
//! Coordinates are in thousandths of a device unit.

use ssb::path::FlatPath;
use ssb::point::Point;
use ssb::scanline::scanlines_from_path;

#[test]
fn scanline_scanlines_quad_trimmed() {
    // Path
    let mut path = FlatPath::new();
    path.move_to(Point { x: 1000, y: 1000 });
    path.line_to(Point { x: 6000, y: 1000 });
    path.line_to(Point { x: 6000, y: 4000 });
    path.line_to(Point { x: 1000, y: 4000 });
    path.close();
    // Test
    assert_eq!(
        scanlines_from_path(&path, 5, 5),
        vec![(1, vec![1, 5]), (2, vec![1, 5]), (3, vec![1, 5])]
    );
}

#[test]
fn scanline_scanlines_unclosed() {
    // Path
    let mut path = FlatPath::new();
    path.move_to(Point { x: 1000, y: 0 });
    path.line_to(Point { x: 1000, y: 3000 });
    path.line_to(Point { x: 4000, y: 3000 });
    // Test
    assert_eq!(
        scanlines_from_path(&path, 4, 3),
        vec![(0, vec![1]), (1, vec![1]), (2, vec![1])]
    );
}

#[test]
fn scanline_scanlines_hole() {
    // Path
    let mut path = FlatPath::new();
    path.move_to(Point { x: 0, y: 0 });
    path.line_to(Point { x: 9000, y: 0 });
    path.line_to(Point { x: 9000, y: 10000 });
    path.line_to(Point { x: 0, y: 10000 });
    path.close();
    path.move_to(Point { x: 2000, y: 2000 });
    path.line_to(Point { x: 2000, y: 5000 });
    path.line_to(Point { x: 7000, y: 5000 });
    path.line_to(Point { x: 7000, y: 2000 });
    path.close();
    // Test
    assert_eq!(
        scanlines_from_path(&path, 10, 10),
        vec![
            (0, vec![0, 9]),
            (1, vec![0, 9]),
            (2, vec![0, 2, 7, 9]),
            (3, vec![0, 2, 7, 9]),
            (4, vec![0, 2, 7, 9]),
            (5, vec![0, 9]),
            (6, vec![0, 9]),
            (7, vec![0, 9]),
            (8, vec![0, 9]),
            (9, vec![0, 9]),
        ]
    );
}

#[test]
fn scanline_scanlines_subpixels() {
    // Path
    let mut path = FlatPath::new();
    path.move_to(Point { x: 1000, y: 1000 });
    path.line_to(Point { x: 4500, y: 1000 });
    path.line_to(Point { x: 6000, y: 1700 });
    path.line_to(Point { x: 8000, y: 1000 });
    path.line_to(Point { x: 9500, y: 1000 });
    path.line_to(Point { x: 9500, y: 7000 });
    path.line_to(Point { x: 2000, y: 7000 });
    path.close();
    // Test
    assert_eq!(
        scanlines_from_path(&path, 10, 10),
        vec![
            (1, vec![1, 6, 7, 10]),
            (2, vec![1, 10]),
            (3, vec![1, 10]),
            (4, vec![2, 10]),
            (5, vec![2, 10]),
            (6, vec![2, 10]),
        ]
    );
}
