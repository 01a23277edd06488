// The traversal of all crossings (`combined_traversal`) reports only the boundaries strictly
// between the start and the end of a ray. An endless variant that also reports a boundary at the
// start (t = 0, 1, 2, ... for the ray (0, 0) + (1, 0)) cannot hold together with
// `tests_edge_case` below: the pixel traversal built on it must end, and its cells must stay
// within 0..2048, which an endless traversal of that ray leaves. So the cases that expect the
// endless variant are not here.
//
// The ray (0, 2048) + (2048, 46852776000) is not tested: its y-difference lies beyond the
// coordinates the traversals accept (`COORD_LIMIT`), its first cell is already row 2048, and it
// crosses about 4.7e10 boundaries.

use fso_los::bounds::Bounds;
use fso_los::in_bounds_combined_traversal::CombinedBoundaryTraversal as InBounds;
use fso_los::boundary_traversal::{BoundaryCrossing, BoundaryTraversal, BoundaryType};
use fso_los::combined_pixel_traversal::CombinedPixelTraversal as XFirstPixelTraversal;
use fso_los::combined_traversal::{
    BoundaryCrossing as XFirstCrossing, CombinedBoundaryTraversal,
};
use fso_los::fixed::{Fixed, Ratio};
use fso_los::pixel_traversal::{CombinedPixelTraversal, PixelSegment};
use fso_los::ray::Ray2;
use fso_los::thin_combined_traversal::ThinCombinedBoundaryTraversal;
use fso_los::traversal::boundary::{
    BoundaryCrossing as SplitCrossing, BoundaryTraversal as SplitTraversal,
    BoundaryType as SplitType,
};

fn fixed(value: f64) -> Fixed {
    Fixed::from_raw((value * 1_000_000.0).round() as i64)
}

fn ray(start_x: f64, start_y: f64, diff_x: f64, diff_y: f64) -> Ray2<Fixed> {
    Ray2 {
        start_x: fixed(start_x),
        start_y: fixed(start_y),
        diff_x: fixed(diff_x),
        diff_y: fixed(diff_y),
    }
}

#[test]
fn tests_edge_case() {
    let ray = ray(0.0, 40.0, 40.0007, -40.0);

    let mut traversal = ThinCombinedBoundaryTraversal::new(ray);
    while let Some(crossing) = traversal.next() {
        println!("{crossing:?}");
    }

    let mut traversal = XFirstPixelTraversal::new(ray);
    while let Some(segment) = traversal.next() {
        assert!(segment.pixel_x >= 0, "{segment:?}");
        assert!(segment.pixel_y >= 0, "{segment:?}");
        assert!(segment.pixel_x < 2048, "{segment:?}");
        assert!(segment.pixel_y < 2048, "{segment:?}");
    }
}

#[test]
fn counted_traversal_reports_every_inner_boundary() {
    let mut traversal = BoundaryTraversal::new(ray(0.5, 0.5, 2.0, 1.0));
    assert_eq!((traversal.pixel_x(), traversal.pixel_y()), (0, 0));
    // x = 1 at t = 1/4, y = 1 at t = 1/2, x = 2 at t = 3/4
    assert_eq!(traversal.next(), Some(BoundaryCrossing {
        boundary_type: BoundaryType::X,
        t: Ratio::new(1, 4),
        pixel_x: 1,
        pixel_y: 0,
    }));
    assert_eq!(traversal.next(), Some(BoundaryCrossing {
        boundary_type: BoundaryType::Y,
        t: Ratio::new(1, 2),
        pixel_x: 1,
        pixel_y: 1,
    }));
    assert_eq!(traversal.next(), Some(BoundaryCrossing {
        boundary_type: BoundaryType::X,
        t: Ratio::new(3, 4),
        pixel_x: 2,
        pixel_y: 1,
    }));
    assert_eq!(traversal.next(), None);
    assert_eq!(traversal.next(), None);
}

#[test]
fn counted_traversal_reports_a_corner_once() {
    let mut traversal = BoundaryTraversal::new(ray(0.5, 0.5, 2.0, 2.0));
    assert_eq!(traversal.next(), Some(BoundaryCrossing {
        boundary_type: BoundaryType::XY,
        t: Ratio::new(1, 4),
        pixel_x: 1,
        pixel_y: 1,
    }));
    assert_eq!(traversal.next(), Some(BoundaryCrossing {
        boundary_type: BoundaryType::XY,
        t: Ratio::new(3, 4),
        pixel_x: 2,
        pixel_y: 2,
    }));
    assert_eq!(traversal.next(), None);
}

#[test]
fn counted_traversal_does_not_report_the_end_point() {
    // the ray ends exactly on x = 3: that boundary is touched, not crossed
    let mut traversal = BoundaryTraversal::new(ray(0.5, 0.5, 2.5, 0.0));
    assert_eq!(traversal.next().map(|c| c.pixel_x), Some(1));
    assert_eq!(traversal.next().map(|c| c.pixel_x), Some(2));
    assert_eq!(traversal.next(), None);
}

#[test]
fn split_counted_traversal_decreasing() {
    let mut traversal = SplitTraversal::new(ray(1.5, 1.5, -1.0, -2.0));
    assert_eq!((traversal.pixel_x(), traversal.pixel_y()), (1, 1));
    // y = 1 at t = 1/4, x = 1 at t = 1/2, y = 0 at t = 3/4
    assert_eq!(traversal.next(), Some(SplitCrossing {
        boundary_type: SplitType::Y,
        t: Ratio::new(1, 4),
        pixel_x: 1,
        pixel_y: 0,
    }));
    assert_eq!(traversal.next(), Some(SplitCrossing {
        boundary_type: SplitType::X,
        t: Ratio::new(1, 2),
        pixel_x: 0,
        pixel_y: 0,
    }));
    assert_eq!(traversal.next(), Some(SplitCrossing {
        boundary_type: SplitType::Y,
        t: Ratio::new(3, 4),
        pixel_x: 0,
        pixel_y: -1,
    }));
    assert_eq!(traversal.next(), None);
}

#[test]
fn split_counted_traversal_corner() {
    let mut traversal = SplitTraversal::new(ray(2.0, 2.0, -2.0, 2.0));
    assert_eq!((traversal.pixel_x(), traversal.pixel_y()), (1, 2));
    assert_eq!(traversal.next(), Some(SplitCrossing {
        boundary_type: SplitType::XY,
        t: Ratio::new(1, 2),
        pixel_x: 0,
        pixel_y: 3,
    }));
    assert_eq!(traversal.next(), None);
}

#[test]
fn x_first_traversal_splits_corners() {
    let mut traversal = CombinedBoundaryTraversal::new(ray(0.0, 0.0, 2.0, 2.0));
    assert_eq!((traversal.pixel_x(), traversal.pixel_y()), (0, 0));
    assert_eq!(traversal.next(), Some(XFirstCrossing::X {
        t: Ratio::new(1, 2),
        last_x_index: 0,
        next_x_index: 1,
        y_index: 0,
    }));
    assert_eq!(traversal.next(), Some(XFirstCrossing::Y {
        t: Ratio::new(1, 2),
        x_index: 1,
        last_y_index: 0,
        next_y_index: 1,
    }));
    assert_eq!(traversal.next(), None);
}

fn collect(mut traversal: CombinedPixelTraversal) -> Vec<PixelSegment> {
    let mut segments = Vec::new();
    while let Some(segment) = traversal.next() {
        segments.push(segment);
    }
    segments
}

#[test]
fn pixel_segments_cover_the_ray() {
    let segments = collect(CombinedPixelTraversal::new(ray(0.5, 0.5, 2.0, 1.0)));
    let cells: Vec<(i32, i32)> = segments.iter().map(|s| (s.pixel_x, s.pixel_y)).collect();
    assert_eq!(cells, vec![(0, 0), (1, 0), (1, 1), (2, 1)]);
    let bounds: Vec<(Ratio, Ratio)> = segments.iter().map(|s| (s.start_t, s.end_t)).collect();
    assert_eq!(bounds, vec![
        (Ratio::new(0, 1), Ratio::new(1, 4)),
        (Ratio::new(1, 4), Ratio::new(1, 2)),
        (Ratio::new(1, 2), Ratio::new(3, 4)),
        (Ratio::new(3, 4), Ratio::new(1, 1)),
    ]);
}

#[test]
fn pixel_traversal_within_one_cell() {
    let segments = collect(CombinedPixelTraversal::new(ray(0.25, 0.25, 0.5, 0.5)));
    assert_eq!(segments.len(), 1);
    assert_eq!((segments[0].pixel_x, segments[0].pixel_y), (0, 0));
    assert_eq!(segments[0].start_t, Ratio::new(0, 1));
    assert_eq!(segments[0].end_t, Ratio::new(1, 1));
}

#[test]
fn x_first_pixel_traversal_has_an_empty_corner_segment() {
    let mut traversal = XFirstPixelTraversal::new(ray(0.0, 0.0, 2.0, 2.0));
    let mut segments = Vec::new();
    while let Some(segment) = traversal.next() {
        segments.push(segment);
    }
    let cells: Vec<(i32, i32)> = segments.iter().map(|s| (s.pixel_x, s.pixel_y)).collect();
    assert_eq!(cells, vec![(0, 0), (1, 0), (1, 1)]);
    assert_eq!(segments[1].start_t, Ratio::new(1, 2));
    assert_eq!(segments[1].end_t, Ratio::new(1, 2));
    assert_eq!(segments[2].end_t, Ratio::new(1, 1));
}

#[test]
fn in_bounds_traversal_starting_inside_is_x_first() {
    let ray = ray(0.5, 0.5, 2.0, 1.0);
    let mut in_bounds = InBounds::new(ray, Bounds::origin_square(4));
    let mut x_first = CombinedBoundaryTraversal::new(ray);
    for _ in 0..4 {
        assert_eq!(in_bounds.next(), x_first.next());
    }
    assert_eq!(in_bounds.next(), None);
}

#[test]
fn in_bounds_traversal_skips_boundaries_before_the_bounds() {
    let mut traversal = InBounds::new(ray(-2.5, 0.5, 5.0, 0.0), Bounds::origin_square(10));
    let expected = [
        (Ratio::new(1, 2), -1, 0),
        (Ratio::new(7, 10), 0, 1),
        (Ratio::new(9, 10), 1, 2),
    ];
    for (t, last_x_index, next_x_index) in expected {
        assert_eq!(traversal.next(), Some(XFirstCrossing::X {
            t,
            last_x_index,
            next_x_index,
            y_index: 0,
        }));
    }
    assert_eq!(traversal.next(), None);
    assert_eq!(traversal.next(), None);
}

#[test]
fn in_bounds_traversal_stops_after_leaving_the_bounds() {
    let mut traversal = InBounds::new(ray(0.5, 0.5, 5.0, 0.0), Bounds::origin_square(3));
    for (t, last_x_index, next_x_index) in [
        (Ratio::new(1, 10), 0, 1),
        (Ratio::new(3, 10), 1, 2),
        (Ratio::new(5, 10), 2, 3),
    ] {
        assert_eq!(traversal.next(), Some(XFirstCrossing::X {
            t,
            last_x_index,
            next_x_index,
            y_index: 0,
        }));
    }
    assert_eq!(traversal.next(), None);
    assert_eq!(traversal.next(), None);
}

#[test]
fn in_bounds_traversal_leaving_at_a_corner_reports_only_the_x_crossing() {
    let mut traversal = InBounds::new(ray(0.5, 0.5, 2.0, 2.0), Bounds::origin_rectangle(2, 5));
    assert_eq!(traversal.next(), Some(XFirstCrossing::X {
        t: Ratio::new(1, 4),
        last_x_index: 0,
        next_x_index: 1,
        y_index: 0,
    }));
    assert_eq!(traversal.next(), Some(XFirstCrossing::Y {
        t: Ratio::new(1, 4),
        x_index: 1,
        last_y_index: 0,
        next_y_index: 1,
    }));
    assert_eq!(traversal.next(), Some(XFirstCrossing::X {
        t: Ratio::new(3, 4),
        last_x_index: 1,
        next_x_index: 2,
        y_index: 1,
    }));
    assert_eq!(traversal.next(), None);
}

#[test]
fn in_bounds_traversal_of_a_ray_missing_the_bounds_reports_nothing() {
    let mut traversal = InBounds::new(ray(0.5, 5.5, 4.0, 0.0), Bounds::origin_square(4));
    assert_eq!(traversal.next(), None);
    let mut traversal = InBounds::new(ray(-3.5, 0.5, 2.0, 0.0), Bounds::origin_square(4));
    assert_eq!(traversal.next(), None);
}

fn point_in_cell(start: (f64, f64), diff: (f64, f64), t: f64, cell: (i32, i32)) -> bool {
    let x = start.0 + t * diff.0;
    let y = start.1 + t * diff.1;
    let eps = 1e-9;
    cell.0 as f64 - eps <= x && x <= cell.0 as f64 + 1.0 + eps
        && cell.1 as f64 - eps <= y && y <= cell.1 as f64 + 1.0 + eps
}

fn ratio_value(t: Ratio) -> f64 {
    t.num as f64 / t.den as f64
}

#[test]
fn pixel_segments_lie_in_their_cells() {
    let (start, diff) = ((0.3, 2.7), (4.6, -2.2));
    let r = ray(start.0, start.1, diff.0, diff.1);
    let segments = collect(CombinedPixelTraversal::new(r));
    assert!(segments.len() > 3);
    for s in &segments {
        let cell = (s.pixel_x, s.pixel_y);
        for t in [ratio_value(s.start_t), ratio_value(s.end_t),
                  (ratio_value(s.start_t) + ratio_value(s.end_t)) / 2.0] {
            assert!(point_in_cell(start, diff, t, cell), "{s:?} at {t}");
        }
    }
    let mut traversal = XFirstPixelTraversal::new(r);
    while let Some(s) = traversal.next() {
        let cell = (s.pixel_x, s.pixel_y);
        let mid = (ratio_value(s.start_t) + ratio_value(s.end_t)) / 2.0;
        assert!(point_in_cell(start, diff, mid, cell), "{s:?}");
    }
}
