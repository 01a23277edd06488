//! Traversal of the grid boundaries strictly between the start and the end of a ray, reporting a
//! corner as an x-crossing followed by a y-crossing.
use vstd::prelude::*;
use crate::fixed::{Fixed, Ratio};
use crate::grid_steps::{
    TraversalVariables, ray_in_range, strictly_inside, x_at_t_is, y_at_t_is, boundary_between,
    integers_between,
};
use crate::ray::Ray2;

verus! {

/// A boundary crossing: the ray parameter `t` and the cell indices on both sides.
#[derive(Debug, Copy, Clone, PartialEq)]
pub enum BoundaryCrossing {
    X { t: Ratio, last_x_index: i32, next_x_index: i32, y_index: i32 },
    Y { t: Ratio, x_index: i32, last_y_index: i32, next_y_index: i32 },
}

impl BoundaryCrossing {
    /// The ray parameter of this crossing.
    pub open spec fn t(self) -> Ratio {
        match self {
            BoundaryCrossing::X { t, .. } => t,
            BoundaryCrossing::Y { t, .. } => t,
        }
    }
}

/// The crossing that a traversal in state `v` reports next, if it reports one.
pub open spec fn spec_next_crossing(v: TraversalVariables) -> BoundaryCrossing {
    if v.spec_x_not_after() {
        BoundaryCrossing::X {
            t: v.t_x(),
            last_x_index: v.pixel_x,
            next_x_index: (v.pixel_x + v.step_x) as i32,
            y_index: v.pixel_y,
        }
    } else {
        BoundaryCrossing::Y {
            t: v.t_y(),
            x_index: v.pixel_x,
            last_y_index: v.pixel_y,
            next_y_index: (v.pixel_y + v.step_y) as i32,
        }
    }
}

/// The state after reporting `spec_next_crossing(v)`.
pub open spec fn spec_after_crossing(v: TraversalVariables) -> TraversalVariables {
    if v.spec_x_not_after() {
        v.stepped_x()
    } else {
        v.stepped_y()
    }
}

/// The number of crossings that a traversal in state `v` has left to report.
pub open spec fn crossings_left(v: TraversalVariables) -> int {
    (v.x_count() - v.crossed_x@) + (v.y_count() - v.crossed_y@)
}

/// The next `n` crossings reported from state `v`, in order.
pub open spec fn spec_crossings(v: TraversalVariables, n: nat) -> Seq<BoundaryCrossing>
    decreases n,
{
    if n == 0 {
        Seq::empty()
    } else {
        seq![spec_next_crossing(v)] + spec_crossings(spec_after_crossing(v), (n - 1) as nat)
    }
}

/// `spec_crossings(v, n)` has `n` crossings.
pub proof fn lemma_crossings_len(v: TraversalVariables, n: nat)
    ensures
        spec_crossings(v, n).len() == n,
    decreases n,
{
    if n > 0 {
        lemma_crossings_len(spec_after_crossing(v), (n - 1) as nat);
    }
}

/// With a crossing left, the next crossing happens strictly inside the ray, between the
/// current cell and its neighbour along one axis, and the state after it is well formed with
/// one crossing less left.
pub proof fn lemma_after_crossing(v: TraversalVariables)
    requires
        v.wf(),
        crossings_left(v) > 0,
    ensures
        spec_after_crossing(v).wf(),
        spec_after_crossing(v).ray@ == v.ray@,
        crossings_left(spec_after_crossing(v)) == crossings_left(v) - 1,
        strictly_inside(spec_next_crossing(v).t()),
        v.spec_x_not_after() ==> {
            &&& spec_after_crossing(v).pixel_x == v.pixel_x + v.step_x
            &&& spec_after_crossing(v).pixel_y == v.pixel_y
            &&& (v.step_x == 1 || v.step_x == -1)
        },
        !v.spec_x_not_after() ==> {
            &&& spec_after_crossing(v).pixel_y == v.pixel_y + v.step_y
            &&& spec_after_crossing(v).pixel_x == v.pixel_x
            &&& (v.step_y == 1 || v.step_y == -1)
        },
{
    v.lemma_bounds();
    v.lemma_order_inside();
    if v.spec_x_not_after() {
        v.lemma_stepped_x();
    } else {
        v.lemma_stepped_y();
    }
}

/// Iterates over every grid boundary strictly between the start and the end of a ray, in order
/// of `t`; at a corner the x-boundary is reported first, then the y-boundary with the same `t`.
pub struct CombinedBoundaryTraversal {
    v: TraversalVariables,
    n_iters: usize,
}

impl CombinedBoundaryTraversal {
    /// The stepping state.
    pub closed spec fn vars(self) -> TraversalVariables {
        self.v
    }

    /// The number of crossings left to report.
    pub closed spec fn remaining(self) -> int {
        self.n_iters as int
    }

    pub open spec fn wf(self) -> bool {
        &&& self.vars().wf()
        &&& self.remaining() == crossings_left(self.vars())
    }

    /// A traversal of `ray` that will report each boundary strictly between its start and end.
    pub fn new(ray: Ray2<Fixed>) -> (traversal: Self)
        requires
            ray_in_range(ray),
        ensures
            traversal.wf(),
            traversal.vars().ray@ == ray,
            traversal.vars().crossed_x@ == 0,
            traversal.vars().crossed_y@ == 0,
            traversal.remaining() == traversal.vars().x_count() + traversal.vars().y_count(),
    {
        let end_x = ray.end_x();
        let end_y = ray.end_y();
        let x_crossings = integers_between(ray.start_x, end_x);
        let y_crossings = integers_between(ray.start_y, end_y);
        let v = TraversalVariables::new(ray);
        proof {
            v.lemma_bounds();
        }
        CombinedBoundaryTraversal { v, n_iters: x_crossings + y_crossings }
    }

    /// The x-index of the current cell.
    pub fn pixel_x(&self) -> (x: i32)
        ensures
            x == self.vars().pixel_x,
    {
        self.v.pixel_x
    }

    /// The y-index of the current cell.
    pub fn pixel_y(&self) -> (y: i32)
        ensures
            y == self.vars().pixel_y,
    {
        self.v.pixel_y
    }

    /// The next boundary crossing; `None` once every boundary strictly between the start and
    /// the end of the ray has been reported.
    pub fn next(&mut self) -> (crossing: Option<BoundaryCrossing>)
        requires
            old(self).wf(),
        ensures
            final(self).wf(),
            (crossing is None) <==> (old(self).remaining() == 0),
            crossing is Some ==> final(self).remaining() == old(self).remaining() - 1,
            crossing is None ==> final(self).vars() == old(self).vars(),
            crossing is Some ==> crossing == Some(spec_next_crossing(old(self).vars()))
                && final(self).vars() == spec_after_crossing(old(self).vars()),
            crossing matches Some(c) ==> {
                &&& c.t() == old(self).vars().next_t()
                &&& strictly_inside(c.t())
                &&& c.t().le(final(self).vars().next_t())
            },
            crossing matches Some(BoundaryCrossing::X { t, last_x_index, next_x_index, .. })
                ==> x_at_t_is(
                old(self).vars().ray@,
                t,
                boundary_between(last_x_index as int, next_x_index as int),
            ),
            crossing matches Some(BoundaryCrossing::Y { t, last_y_index, next_y_index, .. })
                ==> y_at_t_is(
                old(self).vars().ray@,
                t,
                boundary_between(last_y_index as int, next_y_index as int),
            ),
    {
        let ghost old_v = self.v;
        proof {
            old_v.lemma_bounds();
            old_v.lemma_order_inside();
        }
        if self.n_iters == 0 {
            return None;
        }
        self.n_iters = self.n_iters - 1;
        if self.v.x_not_after() {
            let t = self.v.t_max_x_ratio();
            proof {
                old_v.lemma_x_on_boundary();
                old_v.lemma_step_not_decreasing(t, old_v.stepped_x());
            }
            let last_x_index = self.v.pixel_x;
            self.v.step_x();
            Some(
                BoundaryCrossing::X {
                    t,
                    last_x_index,
                    next_x_index: self.v.pixel_x,
                    y_index: self.v.pixel_y,
                },
            )
        } else {
            let t = self.v.t_max_y_ratio();
            proof {
                old_v.lemma_y_on_boundary();
                old_v.lemma_step_not_decreasing(t, old_v.stepped_y());
            }
            let last_y_index = self.v.pixel_y;
            self.v.step_y();
            Some(
                BoundaryCrossing::Y {
                    t,
                    x_index: self.v.pixel_x,
                    last_y_index,
                    next_y_index: self.v.pixel_y,
                },
            )
        }
    }
}

} // verus!
