//! Traversal of the grid boundaries that a ray crosses, reporting a crossing of an x-boundary
//! and a y-boundary at the same point as one corner crossing, and stopping just before the end
//! of the ray.
use vstd::prelude::*;
use crate::fixed::{Fixed, Ratio};
use crate::grid_steps::{
    TraversalVariables, ray_in_range, strictly_inside, lemma_same_t_same_point, x_at_t_is, y_at_t_is, boundary_between,
};
use crate::ray::Ray2;

verus! {

/// `t` has reached `999999 / 1000000`, the point from which no more crossings are reported.
pub open spec fn at_end_threshold(t: Ratio) -> bool {
    t.num * 1_000_000 >= 999_999 * t.den
}

/// Whether `t` has reached `999999 / 1000000`.
pub fn reached_end_threshold(t: Ratio) -> (reached: bool)
    requires
        0 <= t.num <= 2_000_000_001_000_000,
        0 <= t.den <= 2_000_000_000_000_000,
    ensures
        reached == at_end_threshold(t),
{
    (t.num as i128) * 1_000_000 >= 999_999 * (t.den as i128)
}

/// A boundary crossing: the ray parameter `t` at which it happens and the cell indices on both
/// sides of it.
#[derive(Debug, Copy, Clone, PartialEq)]
pub enum BoundaryCrossing {
    X { t: Ratio, last_x_index: i32, next_x_index: i32, y_index: i32 },
    Y { t: Ratio, x_index: i32, last_y_index: i32, next_y_index: i32 },
    XY {
        t: Ratio,
        last_x_index: i32,
        next_x_index: i32,
        last_y_index: i32,
        next_y_index: i32,
    },
}

impl BoundaryCrossing {
    /// The ray parameter of this crossing.
    pub open spec fn t(self) -> Ratio {
        match self {
            BoundaryCrossing::X { t, .. } => t,
            BoundaryCrossing::Y { t, .. } => t,
            BoundaryCrossing::XY { t, .. } => t,
        }
    }

    /// The point of `ray` at this crossing lies on the boundaries it names.
    pub open spec fn lies_on_boundaries(self, ray: Ray2<Fixed>) -> bool {
        match self {
            BoundaryCrossing::X { t, last_x_index, next_x_index, .. } => x_at_t_is(
                ray,
                t,
                boundary_between(last_x_index as int, next_x_index as int),
            ),
            BoundaryCrossing::Y { t, last_y_index, next_y_index, .. } => y_at_t_is(
                ray,
                t,
                boundary_between(last_y_index as int, next_y_index as int),
            ),
            BoundaryCrossing::XY { t, last_x_index, next_x_index, last_y_index, next_y_index } => {
                &&& x_at_t_is(ray, t, boundary_between(last_x_index as int, next_x_index as int))
                &&& y_at_t_is(ray, t, boundary_between(last_y_index as int, next_y_index as int))
            },
        }
    }
}

/// The crossing that a traversal in state `v` reports next, if it reports one.
pub open spec fn spec_next_crossing(v: TraversalVariables) -> BoundaryCrossing {
    if v.spec_x_first() {
        BoundaryCrossing::X {
            t: v.t_x(),
            last_x_index: v.pixel_x,
            next_x_index: (v.pixel_x + v.step_x) as i32,
            y_index: v.pixel_y,
        }
    } else if v.spec_y_first() {
        BoundaryCrossing::Y {
            t: v.t_y(),
            x_index: v.pixel_x,
            last_y_index: v.pixel_y,
            next_y_index: (v.pixel_y + v.step_y) as i32,
        }
    } else {
        BoundaryCrossing::XY {
            t: v.t_x(),
            last_x_index: v.pixel_x,
            next_x_index: (v.pixel_x + v.step_x) as i32,
            last_y_index: v.pixel_y,
            next_y_index: (v.pixel_y + v.step_y) as i32,
        }
    }
}

/// The state after reporting the crossing `spec_next_crossing(v)`.
pub open spec fn spec_after_crossing(v: TraversalVariables) -> TraversalVariables {
    if v.spec_x_first() {
        v.stepped_x()
    } else if v.spec_y_first() {
        v.stepped_y()
    } else {
        v.stepped_x().stepped_y()
    }
}

/// No further crossing is reported from state `v`: the ray does not move, or the next boundary
/// is at or beyond `t = 999999/1000000`.
pub open spec fn thin_done(v: TraversalVariables) -> bool {
    (v.den_x == 0 && v.den_y == 0) || at_end_threshold(v.next_t())
}

/// The crossings that `n` calls of `next` report from state `v`, in order; fewer once no
/// further crossing is reported.
pub open spec fn thin_crossings(v: TraversalVariables, n: nat) -> Seq<BoundaryCrossing>
    decreases n,
{
    if n == 0 || thin_done(v) {
        Seq::empty()
    } else {
        seq![spec_next_crossing(v)] + thin_crossings(spec_after_crossing(v), (n - 1) as nat)
    }
}

/// The cell that the crossing `c` leaves.
pub open spec fn cell_before(c: BoundaryCrossing) -> (int, int) {
    match c {
        BoundaryCrossing::X { last_x_index, y_index, .. } => (last_x_index as int, y_index as int),
        BoundaryCrossing::Y { x_index, last_y_index, .. } => (x_index as int, last_y_index as int),
        BoundaryCrossing::XY { last_x_index, last_y_index, .. } => (
            last_x_index as int,
            last_y_index as int,
        ),
    }
}

/// The cell that the crossing `c` enters.
pub open spec fn cell_after(c: BoundaryCrossing) -> (int, int) {
    match c {
        BoundaryCrossing::X { next_x_index, y_index, .. } => (next_x_index as int, y_index as int),
        BoundaryCrossing::Y { x_index, next_y_index, .. } => (x_index as int, next_y_index as int),
        BoundaryCrossing::XY { next_x_index, next_y_index, .. } => (
            next_x_index as int,
            next_y_index as int,
        ),
    }
}

/// The crossing `c` moves one cell along x (by `step_x`), along y (by `step_y`), or along both
/// at a corner.
pub open spec fn steps_by(c: BoundaryCrossing, step_x: int, step_y: int) -> bool {
    let (bx, by) = cell_before(c);
    let (ax, ay) = cell_after(c);
    match c {
        BoundaryCrossing::X { .. } => ax == bx + step_x && ay == by,
        BoundaryCrossing::Y { .. } => ax == bx && ay == by + step_y,
        BoundaryCrossing::XY { .. } => ax == bx + step_x && ay == by + step_y,
    }
}

/// One reported crossing: it lies strictly inside the ray and before the end threshold, leaves
/// the current cell for a neighbour, and the state after it is well formed with the next
/// crossing strictly later.
pub proof fn lemma_thin_step(v: TraversalVariables)
    requires
        v.wf(),
        !thin_done(v),
    ensures
        ({
            let c = spec_next_crossing(v);
            let a = spec_after_crossing(v);
            &&& a.wf()
            &&& a.ray@ == v.ray@
            &&& a.step_x == v.step_x
            &&& a.step_y == v.step_y
            &&& c.t() == v.next_t()
            &&& strictly_inside(c.t())
            &&& !at_end_threshold(c.t())
            &&& c.t().lt(a.next_t())
            &&& cell_before(c) == (v.pixel_x as int, v.pixel_y as int)
            &&& cell_after(c) == (a.pixel_x as int, a.pixel_y as int)
            &&& steps_by(c, v.step_x as int, v.step_y as int)
        }),
{
    v.lemma_bounds();
    let t = v.next_t();
    if v.spec_x_first() {
        v.lemma_stepped_x();
        v.lemma_x_on_boundary();
        v.lemma_step_increases(t, v.stepped_x());
    } else if v.spec_y_first() {
        v.lemma_stepped_y();
        v.lemma_y_on_boundary();
        v.lemma_step_increases(t, v.stepped_y());
    } else {
        assert(v.t_max_x * v.den_y == v.t_max_y * v.den_x);
        assert(v.t_max_y < v.den_y) by (nonlinear_arith)
            requires
                v.t_max_x * v.den_y == v.t_max_y * v.den_x,
                v.t_max_x * 1_000_000 < 999_999 * v.den_x,
                v.den_x > 0,
                v.den_y > 0,
        {
        }
        v.lemma_stepped_x();
        v.stepped_x().lemma_stepped_y();
        v.lemma_step_increases(t, v.stepped_x().stepped_y());
    }
}

/// The crossings of successive calls of `next`: each lies strictly inside the ray, before the
/// end threshold, and moves to a neighbouring cell; the first leaves the current cell, each next
/// one leaves the cell the previous one entered, and their `t` strictly increase.
pub proof fn lemma_thin_sequence(v: TraversalVariables, n: nat)
    requires
        v.wf(),
    ensures
        ({
            let s = thin_crossings(v, n);
            &&& s.len() <= n
            &&& s.len() > 0 ==> cell_before(s[0]) == (v.pixel_x as int, v.pixel_y as int)
            &&& s.len() > 0 ==> s[0].t() == v.next_t()
            &&& forall|i: int|
                0 <= i < s.len() ==> {
                    &&& strictly_inside(#[trigger] s[i].t())
                    &&& !at_end_threshold(s[i].t())
                    &&& steps_by(s[i], v.step_x as int, v.step_y as int)
                }
            &&& forall|i: int|
                0 <= i < s.len() - 1 ==> {
                    &&& (#[trigger] s[i]).t().lt(s[i + 1].t())
                    &&& cell_after(s[i]) == cell_before(s[i + 1])
                }
        }),
    decreases n,
{
    if n > 0 && !thin_done(v) {
        lemma_thin_step(v);
        let a = spec_after_crossing(v);
        lemma_thin_sequence(a, (n - 1) as nat);
        let s = thin_crossings(v, n);
        let rest = thin_crossings(a, (n - 1) as nat);
        assert(s == seq![spec_next_crossing(v)] + rest);
        assert forall|i: int| 0 <= i < s.len() implies {
            &&& strictly_inside(#[trigger] s[i].t())
            &&& !at_end_threshold(s[i].t())
            &&& steps_by(s[i], v.step_x as int, v.step_y as int)
        } by {
            if i > 0 {
                assert(s[i] == rest[i - 1]);
            }
        }
        assert forall|i: int| 0 <= i < s.len() - 1 implies {
            &&& (#[trigger] s[i]).t().lt(s[i + 1].t())
            &&& cell_after(s[i]) == cell_before(s[i + 1])
        } by {
            assert(s[i + 1] == rest[i]);
            if i > 0 {
                assert(s[i] == rest[i - 1]);
            }
        }
    }
}

/// Iterates over the boundary crossings of a ray, in order of `t`, up to `t = 999999/1000000`.
pub struct ThinCombinedBoundaryTraversal {
    v: TraversalVariables,
}

impl ThinCombinedBoundaryTraversal {
    /// The stepping state.
    pub closed spec fn vars(self) -> TraversalVariables {
        self.v
    }

    pub open spec fn wf(self) -> bool {
        self.vars().wf()
    }

    /// No further crossing will be reported: the ray does not move, or the next boundary is at
    /// or beyond `t = 999999/1000000`.
    pub open spec fn done(self) -> bool {
        thin_done(self.vars())
    }

    /// A traversal of `ray`, starting in the cell that contains the start of the ray (on a
    /// boundary: the cell on the side towards which the ray moves).
    pub fn new(ray: Ray2<Fixed>) -> (traversal: Self)
        requires
            ray_in_range(ray),
        ensures
            traversal.wf(),
            traversal.vars().ray@ == ray,
            traversal.vars().crossed_x@ == 0,
            traversal.vars().crossed_y@ == 0,
    {
        ThinCombinedBoundaryTraversal { v: TraversalVariables::new(ray) }
    }

    /// The x-index of the current cell.
    pub fn pixel_x(&self) -> (x: i32)
        ensures
            x == self.vars().pixel_x,
    {
        self.v.pixel_x
    }

    /// The y-index of the current cell.
    pub fn pixel_y(&self) -> (y: i32)
        ensures
            y == self.vars().pixel_y,
    {
        self.v.pixel_y
    }

    /// The next boundary crossing: an x-crossing when the next x-boundary comes first, a
    /// y-crossing when the next y-boundary comes first, a corner crossing when both come at
    /// once; `None` once `t` would reach `999999/1000000`.
    pub fn next(&mut self) -> (crossing: Option<BoundaryCrossing>)
        requires
            old(self).wf(),
        ensures
            final(self).wf(),
            old(self).done() ==> crossing is None && final(self).vars() == old(self).vars(),
            !old(self).done() ==> crossing == Some(spec_next_crossing(old(self).vars()))
                && final(self).vars() == spec_after_crossing(old(self).vars()),
            crossing matches Some(c) ==> {
                &&& c.t() == old(self).vars().next_t()
                &&& strictly_inside(c.t())
                &&& !at_end_threshold(c.t())
                &&& c.t().lt(final(self).vars().next_t())
                &&& c.lies_on_boundaries(final(self).vars().ray@)
            },
    {
        proof {
            self.v.lemma_bounds();
        }
        if self.v.den_x == 0 && self.v.den_y == 0 {
            return None;
        }
        let y_first = self.v.y_first();
        let t = if y_first {
            self.v.t_max_y_ratio()
        } else {
            self.v.t_max_x_ratio()
        };
        if reached_end_threshold(t) {
            return None;
        }
        let ghost old_v = self.v;
        let x_first = self.v.x_first();
        if x_first {
            proof {
                old_v.lemma_x_on_boundary();
                old_v.lemma_step_increases(t, old_v.stepped_x());
            }
            let last_x_index = self.v.pixel_x;
            self.v.step_x();
            Some(
                BoundaryCrossing::X {
                    t,
                    last_x_index,
                    next_x_index: self.v.pixel_x,
                    y_index: self.v.pixel_y,
                },
            )
        } else if y_first {
            proof {
                old_v.lemma_y_on_boundary();
                old_v.lemma_step_increases(t, old_v.stepped_y());
            }
            let last_y_index = self.v.pixel_y;
            self.v.step_y();
            Some(
                BoundaryCrossing::Y {
                    t,
                    x_index: self.v.pixel_x,
                    last_y_index,
                    next_y_index: self.v.pixel_y,
                },
            )
        } else {
            proof {
                assert(old_v.t_max_x * old_v.den_y == old_v.t_max_y * old_v.den_x);
                assert(old_v.t_max_y < old_v.den_y) by (nonlinear_arith)
                    requires
                        old_v.t_max_x * old_v.den_y == old_v.t_max_y * old_v.den_x,
                        old_v.t_max_x * 1_000_000 < 999_999 * old_v.den_x,
                        old_v.den_x > 0,
                        old_v.den_y > 0,
                {
                }
                old_v.lemma_x_on_boundary();
                old_v.lemma_y_on_boundary();
                old_v.lemma_step_increases(t, old_v.stepped_x().stepped_y());
                lemma_same_t_same_point(
                    old_v.sy(),
                    old_v.dy(),
                    old_v.t_max_x as int,
                    old_v.den_x as int,
                    old_v.t_max_y as int,
                    old_v.den_y as int,
                    boundary_between(old_v.pixel_y as int, old_v.pixel_y + old_v.step_y) * 1_000_000,
                );
            }
            let last_x_index = self.v.pixel_x;
            let last_y_index = self.v.pixel_y;
            self.v.step_x();
            self.v.step_y();
            Some(
                BoundaryCrossing::XY {
                    t,
                    last_x_index,
                    next_x_index: self.v.pixel_x,
                    last_y_index,
                    next_y_index: self.v.pixel_y,
                },
            )
        }
    }
}

} // verus!
