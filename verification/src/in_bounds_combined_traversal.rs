//! Traversal of the grid boundaries that a ray crosses inside given bounds (after "A Fast Voxel
//! Traversal Algorithm" by Amanatides and Woo).
//!
//! A boundary is crossed when the ray is on both of its sides: a start or end that only touches
//! a boundary does not cross it, so every crossing has `0 < t < 1`. At a grid corner the
//! x-boundary crossing comes first, then the y-boundary crossing. A crossing is inside the
//! bounds when one of the two cells on its sides is; the crossings inside the bounds are
//! reported in order, and once the ray has left the bounds, or reached its end, no crossing is
//! reported any more. When the ray leaves the x-bounds at a corner, only the x-boundary crossing
//! is reported: the y-boundary crossing that follows already has an x-index out of bounds.
use vstd::prelude::*;
use crate::bounds::Bounds;
use crate::fixed::Fixed;
use crate::grid_steps::{TraversalVariables, ray_in_range, strictly_inside, axis_cell0, axis_step};
use crate::ray::Ray2;
use crate::combined_traversal::{
    CombinedBoundaryTraversal as AllCrossings, crossings_left, spec_crossings, spec_next_crossing,
    spec_after_crossing, lemma_after_crossing, lemma_crossings_len,
};
pub use crate::combined_traversal::BoundaryCrossing;

verus! {

/// One of the two cells on the sides of the crossing `c` lies in `bounds`.
pub open spec fn within_bounds(c: BoundaryCrossing, bounds: Bounds) -> bool {
    match c {
        BoundaryCrossing::X { last_x_index, next_x_index, y_index, .. } => {
            ||| bounds.spec_contains(last_x_index as int, y_index as int)
            ||| bounds.spec_contains(next_x_index as int, y_index as int)
        },
        BoundaryCrossing::Y { x_index, last_y_index, next_y_index, .. } => {
            ||| bounds.spec_contains(x_index as int, last_y_index as int)
            ||| bounds.spec_contains(x_index as int, next_y_index as int)
        },
    }
}

/// The crossing `c` moves one index along its axis; the boundary it crosses (the larger of the
/// two indices) lies from the lower to the upper bound of that axis, and its index along the
/// other axis lies in the bounds.
pub open spec fn crossing_in_bounds(c: BoundaryCrossing, bounds: Bounds) -> bool {
    match c {
        BoundaryCrossing::X { last_x_index, next_x_index, y_index, .. } => {
            let boundary = if last_x_index >= next_x_index {
                last_x_index
            } else {
                next_x_index
            };
            &&& (next_x_index == last_x_index + 1 || next_x_index == last_x_index - 1)
            &&& bounds.min_x <= boundary <= bounds.max_x
            &&& bounds.min_y <= y_index < bounds.max_y
        },
        BoundaryCrossing::Y { x_index, last_y_index, next_y_index, .. } => {
            let boundary = if last_y_index >= next_y_index {
                last_y_index
            } else {
                next_y_index
            };
            &&& (next_y_index == last_y_index + 1 || next_y_index == last_y_index - 1)
            &&& bounds.min_y <= boundary <= bounds.max_y
            &&& bounds.min_x <= x_index < bounds.max_x
        },
    }
}

/// Of the next `n` crossings from state `v`, those inside `bounds`, in order.
pub open spec fn crossings_within(v: TraversalVariables, n: nat, bounds: Bounds) -> Seq<
    BoundaryCrossing,
>
    decreases n,
{
    if n == 0 {
        Seq::empty()
    } else {
        let c = spec_next_crossing(v);
        let rest = crossings_within(spec_after_crossing(v), (n - 1) as nat, bounds);
        if within_bounds(c, bounds) {
            seq![c] + rest
        } else {
            rest
        }
    }
}

/// The cell of state `v` has left `bounds` along an axis in the direction in which the ray
/// moves, so that no later cell is in the bounds either.
pub open spec fn has_left(v: TraversalVariables, bounds: Bounds) -> bool {
    ||| v.step_x > 0 && v.pixel_x >= bounds.max_x
    ||| v.step_x < 0 && v.pixel_x < bounds.min_x
    ||| v.step_y > 0 && v.pixel_y >= bounds.max_y
    ||| v.step_y < 0 && v.pixel_y < bounds.min_y
}

/// Whether the crossing `c` is inside `bounds`.
fn is_within_bounds(c: &BoundaryCrossing, bounds: &Bounds) -> (within: bool)
    ensures
        within == within_bounds(*c, *bounds),
{
    match c {
        BoundaryCrossing::X { last_x_index, next_x_index, y_index, .. } => bounds.contains(
            *last_x_index,
            *y_index,
        ) || bounds.contains(*next_x_index, *y_index),
        BoundaryCrossing::Y { x_index, last_y_index, next_y_index, .. } => bounds.contains(
            *x_index,
            *last_y_index,
        ) || bounds.contains(*x_index, *next_y_index),
    }
}

/// Once the ray has left the bounds, none of the crossings still to come is inside them.
pub proof fn lemma_nothing_within_after_leaving(v: TraversalVariables, n: nat, bounds: Bounds)
    requires
        v.wf(),
        n == crossings_left(v),
        has_left(v, bounds),
    ensures
        crossings_within(v, n, bounds) == Seq::<BoundaryCrossing>::empty(),
    decreases n,
{
    if n > 0 {
        lemma_after_crossing(v);
        lemma_nothing_within_after_leaving(spec_after_crossing(v), (n - 1) as nat, bounds);
    }
}

/// Iterates over the boundary crossings of a ray that lie inside given bounds, in order of `t`,
/// with the x-boundary first at a corner.
pub struct CombinedBoundaryTraversal {
    all: AllCrossings,
    bounds: Bounds,
    entered: bool,
    finished: bool,
}

impl CombinedBoundaryTraversal {
    /// The stepping state of the traversal of all crossings underneath.
    pub closed spec fn vars(self) -> TraversalVariables {
        self.all.vars()
    }

    /// The bounds the traversal was made with.
    pub closed spec fn spec_bounds(self) -> Bounds {
        self.bounds
    }

    /// The crossings still to be reported, in order.
    pub closed spec fn pending(self) -> Seq<BoundaryCrossing> {
        if self.finished {
            Seq::empty()
        } else {
            crossings_within(self.all.vars(), self.all.remaining() as nat, self.bounds)
        }
    }

    pub closed spec fn wf(self) -> bool {
        &&& self.all.wf()
        &&& self.entered && !self.finished ==> {
            ||| self.bounds.spec_contains(
                self.all.vars().pixel_x as int,
                self.all.vars().pixel_y as int,
            )
            ||| has_left(self.all.vars(), self.bounds)
        }
    }

    /// A traversal of the crossings of `ray` inside `bounds`.
    pub fn new(ray: Ray2<Fixed>, bounds: Bounds) -> (traversal: Self)
        requires
            ray_in_range(ray),
        ensures
            traversal.wf(),
            traversal.vars().wf(),
            traversal.spec_bounds() == bounds,
            traversal.vars().ray@ == ray,
            traversal.vars().crossed_x@ == 0,
            traversal.vars().crossed_y@ == 0,
            traversal.pending() == crossings_within(
                traversal.vars(),
                (traversal.vars().x_count() + traversal.vars().y_count()) as nat,
                bounds,
            ),
            traversal.pending() == spec_crossings(
                traversal.vars(),
                (traversal.vars().x_count() + traversal.vars().y_count()) as nat,
            ).filter(|c: BoundaryCrossing| touches_bounds(c, bounds)),
    {
        let traversal = CombinedBoundaryTraversal {
            all: AllCrossings::new(ray),
            bounds,
            entered: false,
            finished: false,
        };
        proof {
            let v = traversal.vars();
            lemma_reported_are_crossings_touching_bounds(
                v,
                (v.x_count() + v.y_count()) as nat,
                bounds,
            );
        }
        traversal
    }

    /// The next crossing inside the bounds; `None` once the ray has left the bounds or every
    /// boundary up to its end has been passed, and from then on.
    pub fn next(&mut self) -> (crossing: Option<BoundaryCrossing>)
        requires
            old(self).wf(),
        ensures
            final(self).wf(),
            final(self).spec_bounds() == old(self).spec_bounds(),
            old(self).pending().len() == 0 ==> crossing is None && final(self).pending().len()
                == 0,
            old(self).pending().len() > 0 ==> crossing == Some(old(self).pending()[0])
                && final(self).pending() == old(self).pending().drop_first(),
            crossing is None ==> final(self).pending().len() == 0,
            crossing matches Some(c) ==> within_bounds(c, old(self).spec_bounds())
                && crossing_in_bounds(c, old(self).spec_bounds()) && strictly_inside(c.t()),
    {
        let ghost initial = old(self).pending();
        loop
            invariant
                self.wf(),
                self.bounds == old(self).bounds,
                initial == old(self).pending(),
                self.pending() == initial,
            decreases self.all.remaining(),
        {
            if self.finished {
                return None;
            }
            let ghost v = self.all.vars();
            let ghost n = self.all.remaining() as nat;
            proof {
                if n > 0 {
                    lemma_after_crossing(v);
                }
            }
            match self.all.next() {
                None => {
                    return None;
                },
                Some(c) => {
                    proof {
                        assert(crossings_within(v, n, self.bounds) == (if within_bounds(
                            c,
                            self.bounds,
                        ) {
                            seq![c] + crossings_within(
                                self.all.vars(),
                                (n - 1) as nat,
                                self.bounds,
                            )
                        } else {
                            crossings_within(self.all.vars(), (n - 1) as nat, self.bounds)
                        }));
                    }
                    if is_within_bounds(&c, &self.bounds) {
                        self.entered = true;
                        proof {
                            assert(seq![c] + self.pending() == initial);
                            assert(initial.drop_first() == self.pending());
                        }
                        return Some(c);
                    } else if self.entered {
                        proof {
                            assert(has_left(v, self.bounds));
                            lemma_nothing_within_after_leaving(v, n, self.bounds);
                        }
                        self.finished = true;
                        return None;
                    }
                },
            }
        }
    }
}

/// The cell that the crossing `c` leaves.
pub open spec fn cell_before(c: BoundaryCrossing) -> (int, int) {
    match c {
        BoundaryCrossing::X { last_x_index, y_index, .. } => (last_x_index as int, y_index as int),
        BoundaryCrossing::Y { x_index, last_y_index, .. } => (x_index as int, last_y_index as int),
    }
}

/// The cell that the crossing `c` enters.
pub open spec fn cell_after(c: BoundaryCrossing) -> (int, int) {
    match c {
        BoundaryCrossing::X { next_x_index, y_index, .. } => (next_x_index as int, y_index as int),
        BoundaryCrossing::Y { x_index, next_y_index, .. } => (x_index as int, next_y_index as int),
    }
}

/// The crossing `c` leaves or enters a cell of `bounds`.
pub open spec fn touches_bounds(c: BoundaryCrossing, bounds: Bounds) -> bool {
    ||| bounds.spec_contains(cell_before(c).0, cell_before(c).1)
    ||| bounds.spec_contains(cell_after(c).0, cell_after(c).1)
}

/// What the traversal inside the bounds reports is exactly the crossings of the whole ray, in
/// order, that leave or enter a cell of the bounds: a crossing into the bounds and a crossing
/// out of them are reported, a crossing with both of its cells outside is not.
pub proof fn lemma_reported_are_crossings_touching_bounds(v: TraversalVariables, n: nat, bounds: Bounds)
    ensures
        crossings_within(v, n, bounds) == spec_crossings(v, n).filter(
            |c: BoundaryCrossing| touches_bounds(c, bounds),
        ),
    decreases n,
{
    let p = |c: BoundaryCrossing| touches_bounds(c, bounds);
    if n == 0 {
        reveal(Seq::filter);
        assert(spec_crossings(v, n).filter(p) =~= Seq::<BoundaryCrossing>::empty());
    } else {
        let a = spec_after_crossing(v);
        let c = spec_next_crossing(v);
        lemma_reported_are_crossings_touching_bounds(a, (n - 1) as nat, bounds);
        let rest = spec_crossings(a, (n - 1) as nat);
        assert(spec_crossings(v, n) == seq![c] + rest);
        rest.lemma_filter_prepend(c, p);
        assert(p(c) == within_bounds(c, bounds));
        if p(c) {
            assert(crossings_within(v, n, bounds) == seq![c] + rest.filter(p));
        } else {
            assert(crossings_within(v, n, bounds) == rest.filter(p));
            assert(Seq::<BoundaryCrossing>::empty() + rest.filter(p) =~= rest.filter(p));
        }
    }
}

/// The crossings inside the bounds that a traversal in state `v` has left: every one of them
/// is inside the bounds and strictly inside the ray.
pub proof fn lemma_within_bounds_inside_ray(v: TraversalVariables, n: nat, bounds: Bounds)
    requires
        v.wf(),
        n == crossings_left(v),
    ensures
        forall|i: int|
            0 <= i < crossings_within(v, n, bounds).len() ==> {
                &&& within_bounds(#[trigger] crossings_within(v, n, bounds)[i], bounds)
                &&& strictly_inside(crossings_within(v, n, bounds)[i].t())
            },
    decreases n,
{
    if n > 0 {
        lemma_after_crossing(v);
        let a = spec_after_crossing(v);
        let c = spec_next_crossing(v);
        lemma_within_bounds_inside_ray(a, (n - 1) as nat, bounds);
        let rest = crossings_within(a, (n - 1) as nat, bounds);
        let all = crossings_within(v, n, bounds);
        assert forall|i: int| 0 <= i < all.len() implies {
            &&& within_bounds(#[trigger] all[i], bounds)
            &&& strictly_inside(all[i].t())
        } by {
            if within_bounds(c, bounds) {
                assert(all == seq![c] + rest);
                if i > 0 {
                    assert(all[i] == rest[i - 1]);
                }
            } else {
                assert(all == rest);
            }
        }
    }
}

/// From a cell inside the bounds, or after leaving them, the crossings inside the bounds are
/// the first ones of all crossings to come.
pub proof fn lemma_within_from_inside_is_prefix(v: TraversalVariables, n: nat, bounds: Bounds)
    requires
        v.wf(),
        n == crossings_left(v),
        bounds.spec_contains(v.pixel_x as int, v.pixel_y as int) || has_left(v, bounds),
    ensures
        exists|k: int|
            0 <= k <= n && crossings_within(v, n, bounds) == #[trigger] spec_crossings(v, n).take(k),
    decreases n,
{
    if n == 0 {
        assert(crossings_within(v, n, bounds) == spec_crossings(v, n).take(0));
    } else if has_left(v, bounds) {
        lemma_nothing_within_after_leaving(v, n, bounds);
        assert(crossings_within(v, n, bounds) == spec_crossings(v, n).take(0));
    } else {
        lemma_after_crossing(v);
        let a = spec_after_crossing(v);
        lemma_within_from_inside_is_prefix(a, (n - 1) as nat, bounds);
        let k = choose|k: int|
            0 <= k <= n - 1 && crossings_within(a, (n - 1) as nat, bounds) == #[trigger] spec_crossings(
                a,
                (n - 1) as nat,
            ).take(k);
        let c = spec_next_crossing(v);
        let rest_all = spec_crossings(a, (n - 1) as nat);
        lemma_crossings_len(a, (n - 1) as nat);
        assert(spec_crossings(v, n) == seq![c] + rest_all);
        assert(within_bounds(c, bounds));
        assert(crossings_within(v, n, bounds) == seq![c] + rest_all.take(k));
        assert(seq![c] + rest_all.take(k) =~= (seq![c] + rest_all).take(k + 1));
    }
}

/// The cell reached once every boundary strictly between the start and the end of the ray has
/// been crossed: the cell that contains the end of the ray.
pub open spec fn end_cell(v: TraversalVariables) -> (int, int) {
    (
        axis_cell0(v.sx(), v.dx()) + v.x_count() * axis_step(v.dx()),
        axis_cell0(v.sy(), v.dy()) + v.y_count() * axis_step(v.dy()),
    )
}

/// When both the current cell and the end cell are inside the bounds, so is every cell in
/// between, and every crossing left is reported: the traversal inside the bounds reports the
/// same crossings as the traversal of all boundaries.
pub proof fn lemma_inside_bounds_reports_all(v: TraversalVariables, n: nat, bounds: Bounds)
    requires
        v.wf(),
        n == crossings_left(v),
        bounds.spec_contains(v.pixel_x as int, v.pixel_y as int),
        bounds.spec_contains(end_cell(v).0, end_cell(v).1),
    ensures
        crossings_within(v, n, bounds) == spec_crossings(v, n),
    decreases n,
{
    if n > 0 {
        lemma_after_crossing(v);
        let a = spec_after_crossing(v);
        let (mx, my) = (a.crossed_x@ as int, a.crossed_y@ as int);
        let (cx, cy) = (a.x_count(), a.y_count());
        assert(0 <= mx <= cx && 0 <= my <= cy);
        if v.dx() >= 0 {
            assert(mx * axis_step(v.dx()) <= cx * axis_step(v.dx())) by (nonlinear_arith)
                requires
                    axis_step(v.dx()) == 1,
                    mx <= cx,
            {
            }
        } else {
            assert(mx * axis_step(v.dx()) >= cx * axis_step(v.dx())) by (nonlinear_arith)
                requires
                    axis_step(v.dx()) == -1,
                    mx <= cx,
            {
            }
        }
        if v.dy() >= 0 {
            assert(my * axis_step(v.dy()) <= cy * axis_step(v.dy())) by (nonlinear_arith)
                requires
                    axis_step(v.dy()) == 1,
                    my <= cy,
            {
            }
        } else {
            assert(my * axis_step(v.dy()) >= cy * axis_step(v.dy())) by (nonlinear_arith)
                requires
                    axis_step(v.dy()) == -1,
                    my <= cy,
            {
            }
        }
        lemma_inside_bounds_reports_all(a, (n - 1) as nat, bounds);
    }
}

/// The crossings inside the bounds are one contiguous run of all the crossings of the ray: the
/// ray cannot come back into the bounds once it has left them.
pub proof fn lemma_within_is_contiguous(v: TraversalVariables, n: nat, bounds: Bounds)
    requires
        v.wf(),
        n == crossings_left(v),
    ensures
        exists|i: int, j: int|
            0 <= i <= j <= n && crossings_within(v, n, bounds) == #[trigger] spec_crossings(v, n).subrange(
                i,
                j,
            ),
    decreases n,
{
    if n == 0 {
        assert(crossings_within(v, n, bounds) == spec_crossings(v, n).subrange(0, 0));
    } else if bounds.spec_contains(v.pixel_x as int, v.pixel_y as int) || has_left(v, bounds) {
        lemma_within_from_inside_is_prefix(v, n, bounds);
        let k = choose|k: int|
            0 <= k <= n && crossings_within(v, n, bounds) == #[trigger] spec_crossings(v, n).take(k);
        lemma_crossings_len(v, n);
        assert(spec_crossings(v, n).take(k) =~= spec_crossings(v, n).subrange(0, k));
    } else {
        lemma_after_crossing(v);
        let a = spec_after_crossing(v);
        let c = spec_next_crossing(v);
        if within_bounds(c, bounds) {
            lemma_within_from_inside_is_prefix(a, (n - 1) as nat, bounds);
            let k = choose|k: int|
                0 <= k <= n - 1 && crossings_within(a, (n - 1) as nat, bounds) == #[trigger] spec_crossings(
                    a,
                    (n - 1) as nat,
                ).take(k);
            let rest_all = spec_crossings(a, (n - 1) as nat);
            lemma_crossings_len(a, (n - 1) as nat);
            assert(spec_crossings(v, n) == seq![c] + rest_all);
            assert(crossings_within(v, n, bounds) == seq![c] + rest_all.take(k));
            assert(seq![c] + rest_all.take(k) =~= (seq![c] + rest_all).subrange(0, k + 1));
        } else {
            lemma_within_is_contiguous(a, (n - 1) as nat, bounds);
            let (i, j) = choose|i: int, j: int|
                0 <= i <= j <= n - 1 && crossings_within(a, (n - 1) as nat, bounds)
                    == #[trigger] spec_crossings(a, (n - 1) as nat).subrange(i, j);
            let rest_all = spec_crossings(a, (n - 1) as nat);
            lemma_crossings_len(a, (n - 1) as nat);
            assert(spec_crossings(v, n) == seq![c] + rest_all);
            assert(crossings_within(v, n, bounds) == rest_all.subrange(i, j));
            assert(rest_all.subrange(i, j) =~= (seq![c] + rest_all).subrange(i + 1, j + 1));
        }
    }
}

} // verus!
