//! Traversal of the grid boundaries strictly between the start and the end of a ray, with a
//! separate budget for the crossings of each axis.
use vstd::prelude::*;
use crate::fixed::{Fixed, Ratio};
use crate::grid_steps::{
    TraversalVariables, ray_in_range, strictly_inside, x_at_t_is, y_at_t_is, boundary_between,
    integers_between, lemma_same_t_same_point,
};
use crate::ray::Ray2;

verus! {

/// Which boundaries a crossing crosses: an x-boundary, a y-boundary, or both at a corner.
#[derive(Debug, Copy, Clone, PartialEq, Eq, Structural)]
pub enum BoundaryType {
    X,
    Y,
    XY,
}

/// A boundary crossing: its kind, its ray parameter `t`, and the cell entered.
#[derive(Debug, Copy, Clone, PartialEq)]
pub struct BoundaryCrossing {
    pub boundary_type: BoundaryType,
    pub t: Ratio,
    pub pixel_x: i32,
    pub pixel_y: i32,
}

/// Iterates over every grid boundary that lies strictly between the start and the end of a ray,
/// in order of `t`, reporting a corner as one crossing of both boundaries.
pub struct BoundaryTraversal {
    v: TraversalVariables,
    remaining_x_crossings: usize,
    remaining_y_crossings: usize,
}

impl BoundaryTraversal {
    /// The stepping state.
    pub closed spec fn vars(self) -> TraversalVariables {
        self.v
    }

    /// The number of x-boundary crossings left to report.
    pub closed spec fn remaining_x(self) -> int {
        self.remaining_x_crossings as int
    }

    /// The number of y-boundary crossings left to report.
    pub closed spec fn remaining_y(self) -> int {
        self.remaining_y_crossings as int
    }

    pub open spec fn wf(self) -> bool {
        &&& self.vars().wf()
        &&& self.remaining_x() == self.vars().x_count() - self.vars().crossed_x@
        &&& self.remaining_y() == self.vars().y_count() - self.vars().crossed_y@
    }

    /// A traversal of `ray` that will report each of the boundaries strictly between its start
    /// and its end.
    pub fn new(ray: Ray2<Fixed>) -> (traversal: Self)
        requires
            ray_in_range(ray),
        ensures
            traversal.wf(),
            traversal.vars().ray@ == ray,
            traversal.vars().crossed_x@ == 0,
            traversal.vars().crossed_y@ == 0,
            traversal.remaining_x() == traversal.vars().x_count(),
            traversal.remaining_y() == traversal.vars().y_count(),
    {
        let end_x = ray.end_x();
        let end_y = ray.end_y();
        let x_crossings = integers_between(ray.start_x, end_x);
        let y_crossings = integers_between(ray.start_y, end_y);
        let v = TraversalVariables::new(ray);
        proof {
            v.lemma_bounds();
        }
        BoundaryTraversal {
            v,
            remaining_x_crossings: x_crossings,
            remaining_y_crossings: y_crossings,
        }
    }

    /// The x-index of the current cell.
    pub fn pixel_x(&self) -> (x: i32)
        ensures
            x == self.vars().pixel_x,
    {
        self.v.pixel_x
    }

    /// The y-index of the current cell.
    pub fn pixel_y(&self) -> (y: i32)
        ensures
            y == self.vars().pixel_y,
    {
        self.v.pixel_y
    }

    /// The next boundary crossing in order of `t`; `None` once every boundary strictly between
    /// the start and the end of the ray has been reported.
    pub fn next(&mut self) -> (crossing: Option<BoundaryCrossing>)
        requires
            old(self).wf(),
        ensures
            final(self).wf(),
            final(self).vars().ray@ == old(self).vars().ray@,
            (crossing is None) <==> (old(self).remaining_x() == 0 && old(self).remaining_y() == 0),
            crossing matches Some(c) ==> final(self).remaining_x() == old(self).remaining_x() - (if c.boundary_type
                == BoundaryType::Y {
                0int
            } else {
                1int
            }),
            crossing matches Some(c) ==> final(self).remaining_y() == old(self).remaining_y() - (if c.boundary_type
                == BoundaryType::X {
                0int
            } else {
                1int
            }),
            crossing is None ==> final(self).vars() == old(self).vars(),
            crossing matches Some(c) ==> c.t == old(self).vars().next_t() && strictly_inside(c.t)
                && c.t.lt(final(self).vars().next_t()),
            crossing matches Some(c) ==> c.pixel_x == final(self).vars().pixel_x && c.pixel_y
                == final(self).vars().pixel_y,
            crossing matches Some(c) ==> ((c.boundary_type == BoundaryType::X)
                <==> old(self).vars().spec_x_first()) && ((c.boundary_type == BoundaryType::Y)
                <==> old(self).vars().spec_y_first()),
            crossing matches Some(c) ==> (c.boundary_type == BoundaryType::X ==> final(self).vars() == old(self).vars().stepped_x()),
            crossing matches Some(c) ==> (c.boundary_type == BoundaryType::Y ==> final(self).vars() == old(self).vars().stepped_y()),
            crossing matches Some(c) ==> (c.boundary_type == BoundaryType::XY ==> final(self).vars() == old(self).vars().stepped_x().stepped_y()),
            crossing matches Some(c) ==> (c.boundary_type != BoundaryType::Y ==> x_at_t_is(
                old(self).vars().ray@,
                c.t,
                boundary_between(old(self).vars().pixel_x as int, c.pixel_x as int),
            )),
            crossing matches Some(c) ==> (c.boundary_type != BoundaryType::X ==> y_at_t_is(
                old(self).vars().ray@,
                c.t,
                boundary_between(old(self).vars().pixel_y as int, c.pixel_y as int),
            )),
    {
        let ghost old_v = self.v;
        proof {
            old_v.lemma_bounds();
            old_v.lemma_order_inside();
        }
        let boundary_type = next_boundary_type(&self.v);
        match boundary_type {
            BoundaryType::X => {
                if self.remaining_x_crossings == 0 {
                    return None;
                }
                let t = self.v.t_max_x_ratio();
                proof {
                    old_v.lemma_x_on_boundary();
                    old_v.lemma_step_increases(t, old_v.stepped_x());
                }
                self.remaining_x_crossings = self.remaining_x_crossings - 1;
                self.v.step_x();
                Some(
                    BoundaryCrossing {
                        boundary_type,
                        t,
                        pixel_x: self.v.pixel_x,
                        pixel_y: self.v.pixel_y,
                    },
                )
            },
            BoundaryType::Y => {
                if self.remaining_y_crossings == 0 {
                    return None;
                }
                let t = self.v.t_max_y_ratio();
                proof {
                    old_v.lemma_y_on_boundary();
                    old_v.lemma_step_increases(t, old_v.stepped_y());
                }
                self.remaining_y_crossings = self.remaining_y_crossings - 1;
                self.v.step_y();
                Some(
                    BoundaryCrossing {
                        boundary_type,
                        t,
                        pixel_x: self.v.pixel_x,
                        pixel_y: self.v.pixel_y,
                    },
                )
            },
            BoundaryType::XY => {
                if self.remaining_x_crossings == 0 {
                    return None;
                }
                self.remaining_x_crossings = self.remaining_x_crossings - 1;
                if self.remaining_y_crossings == 0 {
                    return None;
                }
                self.remaining_y_crossings = self.remaining_y_crossings - 1;
                let t = self.v.t_max_x_ratio();
                proof {
                    old_v.lemma_x_on_boundary();
                    old_v.lemma_y_on_boundary();
                    old_v.lemma_step_increases(t, old_v.stepped_x().stepped_y());
                    lemma_same_t_same_point(
                        old_v.sy(),
                        old_v.dy(),
                        old_v.t_max_x as int,
                        old_v.den_x as int,
                        old_v.t_max_y as int,
                        old_v.den_y as int,
                        boundary_between(old_v.pixel_y as int, old_v.pixel_y + old_v.step_y)
                            * 1_000_000,
                    );
                }
                self.v.step_x();
                self.v.step_y();
                Some(
                    BoundaryCrossing {
                        boundary_type,
                        t,
                        pixel_x: self.v.pixel_x,
                        pixel_y: self.v.pixel_y,
                    },
                )
            },
        }
    }
}

/// Which boundary the traversal in state `v` crosses next.
fn next_boundary_type(v: &TraversalVariables) -> (boundary_type: BoundaryType)
    requires
        v.wf(),
    ensures
        (boundary_type == BoundaryType::X) <==> v.spec_x_first(),
        (boundary_type == BoundaryType::Y) <==> v.spec_y_first(),
{
    if v.x_first() {
        BoundaryType::X
    } else if v.y_first() {
        BoundaryType::Y
    } else {
        BoundaryType::XY
    }
}

} // verus!
