use fso_los::fixed::{Fixed, Ratio};
use fso_los::ray::Ray2;
use fso_los::thin_combined_traversal::{BoundaryCrossing, ThinCombinedBoundaryTraversal};

fn fixed(value: f64) -> Fixed {
    Fixed::from_raw((value * 1_000_000.0).round() as i64)
}

fn ray(start_x: f64, start_y: f64, diff_x: f64, diff_y: f64) -> Ray2<Fixed> {
    Ray2 {
        start_x: fixed(start_x),
        start_y: fixed(start_y),
        diff_x: fixed(diff_x),
        diff_y: fixed(diff_y),
    }
}

fn t(value: f64) -> Ratio {
    Ratio::new((value * 1_000_000.0).round() as i64, 1_000_000)
}

#[test]
fn boundary_only_x_increasing() {
    let mut traversal = ThinCombinedBoundaryTraversal::new(ray(0.0, 0.0, 4.0, 0.0));

    assert_eq!(traversal.next(), Some(BoundaryCrossing::X {
        t: t(0.25),
        last_x_index: 0,
        next_x_index: 1,
        y_index: 0,
    }));
    assert_eq!(traversal.next(), Some(BoundaryCrossing::X {
        t: t(0.5),
        last_x_index: 1,
        next_x_index: 2,
        y_index: 0,
    }));
    assert_eq!(traversal.next(), Some(BoundaryCrossing::X {
        t: t(0.75),
        last_x_index: 2,
        next_x_index: 3,
        y_index: 0,
    }));
    assert_eq!(traversal.next(), None);
}

#[test]
fn only_x_increasing_starts_out_of_bounds() {
    let mut traversal = ThinCombinedBoundaryTraversal::new(ray(-1.0, 0.0, 5.0, 0.0));

    assert_eq!(traversal.next(), Some(BoundaryCrossing::X {
        t: t(0.2),
        last_x_index: -1,
        next_x_index: 0,
        y_index: 0,
    }));
    assert_eq!(traversal.next(), Some(BoundaryCrossing::X {
        t: t(0.4),
        last_x_index: 0,
        next_x_index: 1,
        y_index: 0,
    }));
    assert_eq!(traversal.next(), Some(BoundaryCrossing::X {
        t: t(0.6),
        last_x_index: 1,
        next_x_index: 2,
        y_index: 0,
    }));
    assert_eq!(traversal.next(), Some(BoundaryCrossing::X {
        t: t(0.8),
        last_x_index: 2,
        next_x_index: 3,
        y_index: 0,
    }));
    assert_eq!(traversal.next(), None);
}

#[test]
fn tests_only_x_decreasing() {
    let mut traversal = ThinCombinedBoundaryTraversal::new(ray(4.0, 0.0, -4.0, 0.0));

    assert_eq!(traversal.next(), Some(BoundaryCrossing::X {
        t: t(0.25),
        last_x_index: 3,
        next_x_index: 2,
        y_index: 0,
    }));
    assert_eq!(traversal.next(), Some(BoundaryCrossing::X {
        t: t(0.5),
        last_x_index: 2,
        next_x_index: 1,
        y_index: 0,
    }));
    assert_eq!(traversal.next(), Some(BoundaryCrossing::X {
        t: t(0.75),
        last_x_index: 1,
        next_x_index: 0,
        y_index: 0,
    }));
    assert_eq!(traversal.next(), None);
}

#[test]
fn tests_only_y_increasing() {
    let mut traversal = ThinCombinedBoundaryTraversal::new(ray(0.0, 0.0, 0.0, 4.0));

    assert_eq!(traversal.next(), Some(BoundaryCrossing::Y {
        t: t(0.25),
        x_index: 0,
        last_y_index: 0,
        next_y_index: 1,
    }));
    assert_eq!(traversal.next(), Some(BoundaryCrossing::Y {
        t: t(0.5),
        x_index: 0,
        last_y_index: 1,
        next_y_index: 2,
    }));
    assert_eq!(traversal.next(), Some(BoundaryCrossing::Y {
        t: t(0.75),
        x_index: 0,
        last_y_index: 2,
        next_y_index: 3,
    }));
    assert_eq!(traversal.next(), None);
}

#[test]
fn tests_only_y_decreasing() {
    let mut traversal = ThinCombinedBoundaryTraversal::new(ray(0.0, 4.0, 0.0, -4.0));

    assert_eq!(traversal.next(), Some(BoundaryCrossing::Y {
        t: t(0.25),
        x_index: 0,
        last_y_index: 3,
        next_y_index: 2,
    }));
    assert_eq!(traversal.next(), Some(BoundaryCrossing::Y {
        t: t(0.5),
        x_index: 0,
        last_y_index: 2,
        next_y_index: 1,
    }));
    assert_eq!(traversal.next(), Some(BoundaryCrossing::Y {
        t: t(0.75),
        x_index: 0,
        last_y_index: 1,
        next_y_index: 0,
    }));
    assert_eq!(traversal.next(), None);
}

#[test]
fn tests_perfectly_diagonal_increasing() {
    let mut traversal = ThinCombinedBoundaryTraversal::new(ray(0.0, 0.0, 4.0, 4.0));

    assert_eq!(traversal.next(), Some(BoundaryCrossing::XY {
        t: t(0.25),
        last_x_index: 0,
        next_x_index: 1,
        last_y_index: 0,
        next_y_index: 1,
    }));
    assert_eq!(traversal.next(), Some(BoundaryCrossing::XY {
        t: t(0.5),
        last_x_index: 1,
        next_x_index: 2,
        last_y_index: 1,
        next_y_index: 2,
    }));
    assert_eq!(traversal.next(), Some(BoundaryCrossing::XY {
        t: t(0.75),
        last_x_index: 2,
        next_x_index: 3,
        last_y_index: 2,
        next_y_index: 3,
    }));

    assert_eq!(traversal.next(), None);
}

#[test]
fn tests_perfectly_diagonal_decreasing() {
    let mut traversal = ThinCombinedBoundaryTraversal::new(ray(4.0, 4.0, -4.0, -4.0));

    assert_eq!(traversal.next(), Some(BoundaryCrossing::XY {
        t: t(0.25),
        last_x_index: 3,
        next_x_index: 2,
        last_y_index: 3,
        next_y_index: 2,
    }));
    assert_eq!(traversal.next(), Some(BoundaryCrossing::XY {
        t: t(0.5),
        last_x_index: 2,
        next_x_index: 1,
        last_y_index: 2,
        next_y_index: 1,
    }));
    assert_eq!(traversal.next(), Some(BoundaryCrossing::XY {
        t: t(0.75),
        last_x_index: 1,
        next_x_index: 0,
        last_y_index: 1,
        next_y_index: 0,
    }));

    assert_eq!(traversal.next(), None);
}

#[test]
fn tests_half_diagonal_increasing() {
    let mut traversal = ThinCombinedBoundaryTraversal::new(ray(0.0, 0.0, 4.0, 2.0));

    assert_eq!(traversal.next(), Some(BoundaryCrossing::X {
        t: t(0.25),
        last_x_index: 0,
        next_x_index: 1,
        y_index: 0,
    }));
    assert_eq!(traversal.next(), Some(BoundaryCrossing::XY {
        t: t(0.5),
        last_x_index: 1,
        next_x_index: 2,
        last_y_index: 0,
        next_y_index: 1,
    }));
    assert_eq!(traversal.next(), Some(BoundaryCrossing::X {
        t: t(0.75),
        last_x_index: 2,
        next_x_index: 3,
        y_index: 1,
    }));

    assert_eq!(traversal.next(), None);
}

#[test]
fn thin_traversal_stays_before_the_end_threshold() {
    // the last x-boundary, x = 1000000, would be crossed at t = 999999/1000000
    let mut traversal = ThinCombinedBoundaryTraversal::new(ray(0.0, 0.5, 1_000_000.0, 0.0));
    let mut count = 0;
    let mut last = None;
    while let Some(crossing) = traversal.next() {
        count += 1;
        last = Some(crossing);
        if count > 1_000_000 {
            break;
        }
    }
    assert_eq!(count, 999_998);
    assert_eq!(last, Some(BoundaryCrossing::X {
        t: Ratio::new(999_998, 1_000_000),
        last_x_index: 999_997,
        next_x_index: 999_998,
        y_index: 0,
    }));
    assert_eq!(traversal.pixel_x(), 999_998);
    assert_eq!(traversal.pixel_y(), 0);
}

#[test]
fn thin_traversal_of_a_point_reports_nothing() {
    let mut traversal = ThinCombinedBoundaryTraversal::new(ray(2.5, 3.5, 0.0, 0.0));
    assert_eq!(traversal.pixel_x(), 2);
    assert_eq!(traversal.pixel_y(), 3);
    assert_eq!(traversal.next(), None);
    assert_eq!(traversal.next(), None);
}
