use fso_los::fixed::{Fixed, Ratio};
use fso_los::ray::Ray2;
use fso_los::separate_traversal::{
    XBoundaryCrossing, XBoundaryTraversal, YBoundaryCrossing, YBoundaryTraversal,
};
use fso_los::separate_pixel_traversal::{XPixelTraversal, YPixelTraversal};

fn fixed(value: f64) -> Fixed {
    Fixed::from_raw((value * 1_000_000.0).round() as i64)
}

fn ray(start_x: f64, start_y: f64, diff_x: f64, diff_y: f64) -> Ray2<Fixed> {
    Ray2 {
        start_x: fixed(start_x),
        start_y: fixed(start_y),
        diff_x: fixed(diff_x),
        diff_y: fixed(diff_y),
    }
}

fn t(value: f64) -> Ratio {
    Ratio::new((value * 1_000_000.0).round() as i64, 1_000_000)
}

#[test]
fn tests_only_x_increasing() {
    let ray = ray(0.0, 0.0, 1.0, 0.0);

    let mut traversal = XBoundaryTraversal::new(ray).unwrap();

    assert_eq!(traversal.next(), Some(XBoundaryCrossing {
        t: t(0.0),
        last_x_index: 0,
        next_x_index: 1,
        y_index: 0,
    }));
    assert_eq!(traversal.next(), Some(XBoundaryCrossing {
        t: t(1.0),
        last_x_index: 1,
        next_x_index: 2,
        y_index: 0,
    }));
    assert_eq!(traversal.next(), Some(XBoundaryCrossing {
        t: t(2.0),
        last_x_index: 2,
        next_x_index: 3,
        y_index: 0,
    }));
}

#[test]
fn x_traversal_needs_x_movement() {
    assert!(XBoundaryTraversal::new(ray(0.5, 0.5, 0.0, 3.0)).is_none());
    assert!(XPixelTraversal::new(ray(0.5, 0.5, 0.0, 3.0)).is_none());
    assert!(YBoundaryTraversal::new(ray(0.5, 0.5, 3.0, 0.0)).is_none());
    assert!(YPixelTraversal::new(ray(0.5, 0.5, 3.0, 0.0)).is_none());
}

#[test]
fn x_traversal_from_inside_a_cell_decreasing() {
    // starts at x = 2.5, moving left by 2 with a slope of one half
    let mut traversal = XBoundaryTraversal::new(ray(2.5, 0.5, -2.0, 1.0)).unwrap();
    // the boundary x = 2 is reached at t = 0.25, where y = 0.75
    assert_eq!(traversal.next(), Some(XBoundaryCrossing {
        t: Ratio::new(1, 4),
        last_x_index: 2,
        next_x_index: 1,
        y_index: 0,
    }));
    // x = 1 at t = 0.75, y = 1.25
    assert_eq!(traversal.next(), Some(XBoundaryCrossing {
        t: Ratio::new(3, 4),
        last_x_index: 1,
        next_x_index: 0,
        y_index: 1,
    }));
    // x = 0 at t = 1.25 (past the end), y = 1.75
    assert_eq!(traversal.next(), Some(XBoundaryCrossing {
        t: Ratio::new(5, 4),
        last_x_index: 0,
        next_x_index: -1,
        y_index: 1,
    }));
}

#[test]
fn x_traversal_truncates_negative_rows_toward_zero() {
    // y = -0.5 at the first boundary: truncated toward zero, that is row 0
    let mut traversal = XBoundaryTraversal::new(ray(0.5, -0.75, 1.0, 0.5)).unwrap();
    assert_eq!(traversal.next(), Some(XBoundaryCrossing {
        t: Ratio::new(1, 2),
        last_x_index: 1,
        next_x_index: 2,
        y_index: 0,
    }));
}

#[test]
fn y_traversal_increasing() {
    let mut traversal = YBoundaryTraversal::new(ray(0.0, 0.0, 0.0, 1.0)).unwrap();
    assert_eq!(traversal.next(), Some(YBoundaryCrossing {
        t: t(0.0),
        x_index: 0,
        last_y_index: 0,
        next_y_index: 1,
    }));
    assert_eq!(traversal.next(), Some(YBoundaryCrossing {
        t: t(1.0),
        x_index: 0,
        last_y_index: 1,
        next_y_index: 2,
    }));
}

#[test]
fn y_traversal_decreasing_with_x_movement() {
    let mut traversal = YBoundaryTraversal::new(ray(0.5, 1.5, 2.0, -1.0)).unwrap();
    // y = 1 at t = 0.5, x = 1.5
    assert_eq!(traversal.next(), Some(YBoundaryCrossing {
        t: Ratio::new(1, 2),
        x_index: 1,
        last_y_index: 1,
        next_y_index: 0,
    }));
    // y = 0 at t = 1.5, x = 3.5
    assert_eq!(traversal.next(), Some(YBoundaryCrossing {
        t: Ratio::new(3, 2),
        x_index: 3,
        last_y_index: 0,
        next_y_index: -1,
    }));
}

#[test]
fn x_pixel_traversal_segments_follow_each_other() {
    let mut traversal = XPixelTraversal::new(ray(0.5, 0.5, 2.0, 0.0)).unwrap();
    let first = traversal.next().unwrap();
    assert_eq!((first.pixel_x, first.pixel_y), (0, 0));
    assert_eq!(first.start_t, Ratio::new(0, 1));
    assert_eq!(first.end_t, Ratio::new(1, 4));
    let second = traversal.next().unwrap();
    assert_eq!((second.pixel_x, second.pixel_y), (2, 0));
    assert_eq!(second.start_t, first.end_t);
    assert_eq!(second.end_t, Ratio::new(3, 4));
}

#[test]
fn y_pixel_traversal_segments_follow_each_other() {
    let mut traversal = YPixelTraversal::new(ray(0.5, 0.5, 0.0, -2.0)).unwrap();
    let first = traversal.next().unwrap();
    assert_eq!((first.pixel_x, first.pixel_y), (0, 0));
    assert_eq!(first.start_t, Ratio::new(0, 1));
    assert_eq!(first.end_t, Ratio::new(1, 4));
    let second = traversal.next().unwrap();
    assert_eq!((second.pixel_x, second.pixel_y), (0, -1));
    assert_eq!(second.start_t, first.end_t);
    assert_eq!(second.end_t, Ratio::new(3, 4));
}

#[test]
fn next_crossing_indices_are_checked_before_stepping() {
    let r = Ray2 {
        start_x: Fixed::from_raw(500_000),
        start_y: Fixed::from_raw(500_000),
        diff_x: Fixed::from_raw(2_000_000),
        diff_y: Fixed::from_raw(0),
    };
    let mut traversal = XBoundaryTraversal::new(r).unwrap();
    for _ in 0..3 {
        assert!(traversal.next_is_representable());
        traversal.next();
    }
    let mut pixels = XPixelTraversal::new(r).unwrap();
    assert!(pixels.next_is_representable());
    let first = pixels.next().unwrap();
    assert_eq!((first.pixel_x, first.pixel_y), (0, 0));
    assert_eq!(first.start_t, Ratio::new(0, 1));
    assert!(pixels.next_is_representable());
}
