//! Traversal of the grid boundaries strictly between the start and the end of a ray, with one
//! budget for the crossings of both axes.
use vstd::prelude::*;
use crate::fixed::{Fixed, Ratio};
use crate::grid_steps::{
    TraversalVariables, ray_in_range, strictly_inside, x_at_t_is, y_at_t_is, boundary_between,
    integers_between, lemma_same_t_same_point,
};
use crate::ray::Ray2;
use crate::thin_combined_traversal::spec_after_crossing;

verus! {

/// Which boundaries a crossing crosses: an x-boundary, a y-boundary, or both at a corner.
#[derive(Debug, Copy, Clone, PartialEq, Eq, Structural)]
pub enum BoundaryType {
    X,
    Y,
    XY,
}

/// A boundary crossing: its kind, its ray parameter `t`, and the cell entered.
#[derive(Debug, Copy, Clone, PartialEq)]
pub struct BoundaryCrossing {
    pub boundary_type: BoundaryType,
    pub t: Ratio,
    pub pixel_x: i32,
    pub pixel_y: i32,
}

/// The number of boundary crossings still owed by a traversal in state `v`: the boundaries
/// strictly between start and end of the ray that have not been crossed yet.
pub open spec fn owed(v: TraversalVariables) -> int {
    (v.x_count() - v.crossed_x@) + (v.y_count() - v.crossed_y@)
}

/// The crossing that a traversal in state `v` reports next, if it reports one: of the
/// boundary that comes first, or of both at a corner, with the cell entered.
pub open spec fn spec_counted_crossing(v: TraversalVariables) -> BoundaryCrossing {
    let a = spec_after_crossing(v);
    BoundaryCrossing {
        boundary_type: if v.spec_x_first() {
            BoundaryType::X
        } else if v.spec_y_first() {
            BoundaryType::Y
        } else {
            BoundaryType::XY
        },
        t: v.next_t(),
        pixel_x: a.pixel_x,
        pixel_y: a.pixel_y,
    }
}

/// How many boundaries the crossing `c` crosses: two at a corner, one otherwise.
pub open spec fn weight(c: BoundaryCrossing) -> int {
    if c.boundary_type == BoundaryType::XY {
        2
    } else {
        1
    }
}

/// The number of boundaries crossed by the crossings `s`.
pub open spec fn total_weight(s: Seq<BoundaryCrossing>) -> int
    decreases s.len(),
{
    if s.len() == 0 {
        0
    } else {
        weight(s[0]) + total_weight(s.drop_first())
    }
}

/// The crossings that `n` calls of `next` report from state `v`, in order; fewer once every
/// boundary strictly between start and end has been crossed.
pub open spec fn counted_crossings(v: TraversalVariables, n: nat) -> Seq<BoundaryCrossing>
    decreases n,
{
    if n == 0 || owed(v) == 0 {
        Seq::empty()
    } else {
        seq![spec_counted_crossing(v)] + counted_crossings(spec_after_crossing(v), (n - 1) as nat)
    }
}

/// The cell entered by the crossing `c` is the cell `(px, py)` moved by the steps of `v`
/// along the boundaries it crosses.
pub open spec fn enters_from(c: BoundaryCrossing, px: int, py: int, v: TraversalVariables) -> bool {
    match c.boundary_type {
        BoundaryType::X => c.pixel_x == px + v.step_x && c.pixel_y == py,
        BoundaryType::Y => c.pixel_x == px && c.pixel_y == py + v.step_y,
        BoundaryType::XY => c.pixel_x == px + v.step_x && c.pixel_y == py + v.step_y,
    }
}

/// One reported crossing: strictly inside the ray, into a neighbouring cell, and the state after
/// it is well formed, owes as many crossings less as it crossed boundaries, and crosses strictly
/// later next.
pub proof fn lemma_counted_step(v: TraversalVariables)
    requires
        v.wf(),
        owed(v) > 0,
    ensures
        ({
            let c = spec_counted_crossing(v);
            let a = spec_after_crossing(v);
            &&& a.wf()
            &&& a.ray@ == v.ray@
            &&& a.step_x == v.step_x
            &&& a.step_y == v.step_y
            &&& owed(a) == owed(v) - weight(c)
            &&& strictly_inside(c.t)
            &&& c.t.lt(a.next_t())
            &&& enters_from(c, v.pixel_x as int, v.pixel_y as int, v)
        }),
{
    v.lemma_bounds();
    v.lemma_order_inside();
    let t = v.next_t();
    if v.spec_x_first() {
        v.lemma_stepped_x();
        v.lemma_step_increases(t, v.stepped_x());
    } else if v.spec_y_first() {
        v.lemma_stepped_y();
        v.lemma_step_increases(t, v.stepped_y());
    } else {
        v.lemma_stepped_x();
        v.stepped_x().lemma_stepped_y();
        v.lemma_step_increases(t, v.stepped_x().stepped_y());
    }
}

/// Together, the crossings of `n` calls of `next` cross at most the boundaries owed, and all of
/// them once `n` is at least that many.
proof fn lemma_counted_weight(v: TraversalVariables, n: nat)
    requires
        v.wf(),
    ensures
        total_weight(counted_crossings(v, n)) <= owed(v),
        n >= owed(v) ==> total_weight(counted_crossings(v, n)) == owed(v),
    decreases n,
{
    if n > 0 && owed(v) > 0 {
        lemma_counted_step(v);
        let a = spec_after_crossing(v);
        lemma_counted_weight(a, (n - 1) as nat);
        let s = counted_crossings(v, n);
        let rest = counted_crossings(a, (n - 1) as nat);
        assert(s.drop_first() == rest);
    }
}

/// The crossings of `n` calls of `next` lie strictly inside the ray, their `t` strictly
/// increase, and each enters the neighbour of the cell the previous one entered.
#[verifier::rlimit(60)]
proof fn lemma_counted_chain(v: TraversalVariables, n: nat)
    requires
        v.wf(),
    ensures
        ({
            let s = counted_crossings(v, n);
            &&& s.len() > 0 ==> enters_from(s[0], v.pixel_x as int, v.pixel_y as int, v)
            &&& forall|i: int| 0 <= i < s.len() ==> strictly_inside(#[trigger] s[i].t)
            &&& forall|i: int|
                0 <= i < s.len() - 1 ==> {
                    &&& (#[trigger] s[i]).t.lt(s[i + 1].t)
                    &&& enters_from(s[i + 1], s[i].pixel_x as int, s[i].pixel_y as int, v)
                }
        }),
    decreases n,
{
    if n > 0 && owed(v) > 0 {
        lemma_counted_step(v);
        let a = spec_after_crossing(v);
        lemma_counted_chain(a, (n - 1) as nat);
        let s = counted_crossings(v, n);
        let rest = counted_crossings(a, (n - 1) as nat);
        let c = spec_counted_crossing(v);
        assert(s == seq![c] + rest);
        assert forall|i: int| 0 <= i < s.len() implies strictly_inside(#[trigger] s[i].t) by {
            if i > 0 {
                assert(s[i] == rest[i - 1]);
            }
        }
        assert forall|i: int| 0 <= i < s.len() - 1 implies {
            &&& (#[trigger] s[i]).t.lt(s[i + 1].t)
            &&& enters_from(s[i + 1], s[i].pixel_x as int, s[i].pixel_y as int, v)
        } by {
            assert(s[i + 1] == rest[i]);
            if i > 0 {
                assert(s[i] == rest[i - 1]);
            } else {
                assert(s[i] == c);
                assert(c.pixel_x == a.pixel_x && c.pixel_y == a.pixel_y);
            }
        }
    }
}

/// The crossings of successive calls of `next`: together they cross at most the boundaries
/// owed (all of them, once `next` has been called often enough), their `t` lie strictly inside
/// the ray and strictly increase, and each enters the neighbour of the cell the previous one
/// entered (the first, of the current cell).
pub proof fn lemma_counted_sequence(v: TraversalVariables, n: nat)
    requires
        v.wf(),
    ensures
        ({
            let s = counted_crossings(v, n);
            &&& total_weight(s) <= owed(v)
            &&& n >= owed(v) ==> total_weight(s) == owed(v)
            &&& s.len() > 0 ==> enters_from(s[0], v.pixel_x as int, v.pixel_y as int, v)
            &&& forall|i: int| 0 <= i < s.len() ==> strictly_inside(#[trigger] s[i].t)
            &&& forall|i: int|
                0 <= i < s.len() - 1 ==> {
                    &&& (#[trigger] s[i]).t.lt(s[i + 1].t)
                    &&& enters_from(s[i + 1], s[i].pixel_x as int, s[i].pixel_y as int, v)
                }
        }),
{
    lemma_counted_weight(v, n);
    lemma_counted_chain(v, n);
}

/// Iterates over every grid boundary that lies strictly between the start and the end of a ray,
/// in order of `t`, reporting a corner as one crossing of both boundaries.
pub struct BoundaryTraversal {
    v: TraversalVariables,
    remaining_crossings: usize,
}

impl BoundaryTraversal {
    /// The stepping state.
    pub closed spec fn vars(self) -> TraversalVariables {
        self.v
    }

    /// The number of boundary crossings left to report.
    pub closed spec fn remaining(self) -> int {
        self.remaining_crossings as int
    }

    pub open spec fn wf(self) -> bool {
        &&& self.vars().wf()
        &&& self.remaining() == owed(self.vars())
    }

    /// A traversal of `ray` that will report each of the boundaries strictly between its start
    /// and its end.
    pub fn new(ray: Ray2<Fixed>) -> (traversal: Self)
        requires
            ray_in_range(ray),
        ensures
            traversal.wf(),
            traversal.vars().ray@ == ray,
            traversal.vars().crossed_x@ == 0,
            traversal.vars().crossed_y@ == 0,
            traversal.remaining() == traversal.vars().x_count() + traversal.vars().y_count(),
    {
        let end_x = ray.end_x();
        let end_y = ray.end_y();
        let x_crossings = integers_between(ray.start_x, end_x);
        let y_crossings = integers_between(ray.start_y, end_y);
        let v = TraversalVariables::new(ray);
        proof {
            v.lemma_bounds();
        }
        BoundaryTraversal { v, remaining_crossings: x_crossings + y_crossings }
    }

    /// The x-index of the current cell.
    pub fn pixel_x(&self) -> (x: i32)
        ensures
            x == self.vars().pixel_x,
    {
        self.v.pixel_x
    }

    /// The y-index of the current cell.
    pub fn pixel_y(&self) -> (y: i32)
        ensures
            y == self.vars().pixel_y,
    {
        self.v.pixel_y
    }

    /// The next boundary crossing in order of `t`; `None` once every boundary strictly between
    /// the start and the end of the ray has been reported.
    pub fn next(&mut self) -> (crossing: Option<BoundaryCrossing>)
        requires
            old(self).wf(),
        ensures
            final(self).wf(),
            final(self).vars().ray@ == old(self).vars().ray@,
            (crossing is None) <==> (old(self).remaining() == 0),
            crossing matches Some(c) ==> final(self).remaining() == old(self).remaining() - (if c.boundary_type
                == BoundaryType::XY {
                2int
            } else {
                1int
            }),
            crossing is None ==> final(self).vars() == old(self).vars(),
            crossing matches Some(c) ==> c.t == old(self).vars().next_t() && strictly_inside(c.t)
                && c.t.lt(final(self).vars().next_t()),
            crossing matches Some(c) ==> c.pixel_x == final(self).vars().pixel_x && c.pixel_y
                == final(self).vars().pixel_y,
            crossing matches Some(c) ==> ((c.boundary_type == BoundaryType::X)
                <==> old(self).vars().spec_x_first()) && ((c.boundary_type == BoundaryType::Y)
                <==> old(self).vars().spec_y_first()),
            crossing is Some ==> crossing == Some(spec_counted_crossing(old(self).vars()))
                && final(self).vars() == spec_after_crossing(old(self).vars()),
            crossing matches Some(c) ==> (c.boundary_type == BoundaryType::X ==> final(self).vars() == old(self).vars().stepped_x()),
            crossing matches Some(c) ==> (c.boundary_type == BoundaryType::Y ==> final(self).vars() == old(self).vars().stepped_y()),
            crossing matches Some(c) ==> (c.boundary_type == BoundaryType::XY ==> final(self).vars() == old(self).vars().stepped_x().stepped_y()),
            crossing matches Some(c) ==> (c.boundary_type != BoundaryType::Y ==> x_at_t_is(
                old(self).vars().ray@,
                c.t,
                boundary_between(old(self).vars().pixel_x as int, c.pixel_x as int),
            )),
            crossing matches Some(c) ==> (c.boundary_type != BoundaryType::X ==> y_at_t_is(
                old(self).vars().ray@,
                c.t,
                boundary_between(old(self).vars().pixel_y as int, c.pixel_y as int),
            )),
    {
        let ghost old_v = self.v;
        proof {
            old_v.lemma_bounds();
            old_v.lemma_order_inside();
        }
        let x_first = self.v.x_first();
        let y_first = self.v.y_first();
        if x_first {
            if self.remaining_crossings == 0 {
                return None;
            }
            let t = self.v.t_max_x_ratio();
            proof {
                old_v.lemma_x_on_boundary();
                old_v.lemma_step_increases(t, old_v.stepped_x());
            }
            self.remaining_crossings = self.remaining_crossings - 1;
            self.v.step_x();
            Some(
                BoundaryCrossing {
                    boundary_type: BoundaryType::X,
                    t,
                    pixel_x: self.v.pixel_x,
                    pixel_y: self.v.pixel_y,
                },
            )
        } else if y_first {
            if self.remaining_crossings == 0 {
                return None;
            }
            let t = self.v.t_max_y_ratio();
            proof {
                old_v.lemma_y_on_boundary();
                old_v.lemma_step_increases(t, old_v.stepped_y());
            }
            self.remaining_crossings = self.remaining_crossings - 1;
            self.v.step_y();
            Some(
                BoundaryCrossing {
                    boundary_type: BoundaryType::Y,
                    t,
                    pixel_x: self.v.pixel_x,
                    pixel_y: self.v.pixel_y,
                },
            )
        } else {
            if self.remaining_crossings <= 1 {
                return None;
            }
            let t = self.v.t_max_x_ratio();
            proof {
                old_v.lemma_x_on_boundary();
                old_v.lemma_y_on_boundary();
                old_v.lemma_step_increases(t, old_v.stepped_x().stepped_y());
                lemma_same_t_same_point(
                    old_v.sy(),
                    old_v.dy(),
                    old_v.t_max_x as int,
                    old_v.den_x as int,
                    old_v.t_max_y as int,
                    old_v.den_y as int,
                    boundary_between(old_v.pixel_y as int, old_v.pixel_y + old_v.step_y)
                        * 1_000_000,
                );
            }
            self.remaining_crossings = self.remaining_crossings - 2;
            self.v.step_x();
            self.v.step_y();
            Some(
                BoundaryCrossing {
                    boundary_type: BoundaryType::XY,
                    t,
                    pixel_x: self.v.pixel_x,
                    pixel_y: self.v.pixel_y,
                },
            )
        }
    }
}

} // verus!
