//! Traversal of the cells (pixels) that a ray passes through, each with the interval of the ray
//! parameter `t` spent in it.
use vstd::prelude::*;
use crate::fixed::{Fixed, Ratio};
use crate::grid_steps::{TraversalVariables, ray_in_range, segment_in_cell, lemma_le_transitive};
use crate::ray::Ray2;
use crate::thin_combined_traversal::{
    BoundaryCrossing, ThinCombinedBoundaryTraversal, at_end_threshold, spec_after_crossing,
};

verus! {

/// One cell that a ray passes through, and the interval `[start_t, end_t]` of the ray
/// parameter for which the ray is in it.
#[derive(Debug, Copy, Clone, PartialEq)]
pub struct PixelSegment {
    pub pixel_x: i32,
    pub pixel_y: i32,
    pub start_t: Ratio,
    pub end_t: Ratio,
}

/// `0 <= t <= 1`, with a positive denominator.
pub open spec fn in_unit_interval(t: Ratio) -> bool {
    t.den > 0 && 0 <= t.num <= t.den
}

/// The ray does not move, or its next boundary crossing is not before the end of the ray:
/// no boundary in `[999999/1000000, 1)` is left uncrossed.
pub open spec fn no_boundary_before_end(v: TraversalVariables) -> bool {
    (v.den_x == 0 && v.den_y == 0) || (Ratio { num: 1, den: 1 }).le(v.next_t())
}

/// Iterates over the cells that a ray passes through, in order, with the interval of `t` spent
/// in each; the intervals follow each other without gap from `t = 0` to `t = 1`.
pub struct CombinedPixelTraversal {
    boundary_traversal: ThinCombinedBoundaryTraversal,
    last_t: Ratio,
    current: Option<(i32, i32)>,
}

impl CombinedPixelTraversal {
    /// The underlying boundary traversal.
    pub closed spec fn boundaries(self) -> ThinCombinedBoundaryTraversal {
        self.boundary_traversal
    }

    /// Where the current cell's interval starts.
    pub closed spec fn last_t(self) -> Ratio {
        self.last_t
    }

    /// The cell the traversal is in; `None` once the end of the ray has been reported.
    pub closed spec fn current(self) -> Option<(i32, i32)> {
        self.current
    }

    pub open spec fn wf(self) -> bool {
        let v = self.boundaries().vars();
        &&& self.boundaries().wf()
        &&& in_unit_interval(self.last_t())
        &&& self.last_t().num < self.last_t().den
        &&& !at_end_threshold(self.last_t())
        &&& self.current() is Some ==> {
            &&& self.current() == Some((v.pixel_x, v.pixel_y))
            &&& (v.den_x > 0 || v.den_y > 0) ==> self.last_t().lt(v.next_t())
            &&& v.past_last_x(self.last_t())
            &&& v.past_last_y(self.last_t())
        }
    }

    /// A traversal of `ray`, starting in the cell that contains its start at `t = 0`.
    pub fn new(ray: Ray2<Fixed>) -> (traversal: Self)
        requires
            ray_in_range(ray),
        ensures
            traversal.wf(),
            traversal.boundaries().vars().ray@ == ray,
            traversal.boundaries().vars().crossed_x@ == 0,
            traversal.boundaries().vars().crossed_y@ == 0,
            traversal.last_t() == (Ratio { num: 0, den: 1 }),
            traversal.current() is Some,
    {
        let boundary_traversal = ThinCombinedBoundaryTraversal::new(ray);
        proof {
            boundary_traversal.vars().lemma_bounds();
        }
        let current = Some((boundary_traversal.pixel_x(), boundary_traversal.pixel_y()));
        CombinedPixelTraversal { last_t: Ratio { num: 0, den: 1 }, current, boundary_traversal }
    }

    /// The next cell and the interval of `t` spent in it; the first interval starts at `0`,
    /// each next one starts where the previous ended, and the last one ends at `1`.
    pub fn next(&mut self) -> (segment: Option<PixelSegment>)
        requires
            old(self).wf(),
        ensures
            final(self).wf(),
            old(self).current() is None ==> segment is None && final(self).current() is None,
            old(self).current() matches Some(cell) ==> {
                &&& segment matches Some(s) && {
                    &&& (s.pixel_x, s.pixel_y) == cell
                    &&& s.start_t == old(self).last_t()
                    &&& in_unit_interval(s.start_t)
                    &&& in_unit_interval(s.end_t)
                    &&& s.start_t.lt(s.end_t)
                    &&& if old(self).boundaries().done() {
                        &&& s.end_t == (Ratio { num: 1, den: 1 })
                        &&& final(self).current() is None
                        &&& no_boundary_before_end(old(self).boundaries().vars())
                            ==> segment_in_cell(
                            old(self).boundaries().vars().ray@,
                            s.start_t,
                            s.end_t,
                            cell.0 as int,
                            cell.1 as int,
                        )
                    } else {
                        &&& s.end_t == old(self).boundaries().vars().next_t()
                        &&& final(self).last_t() == s.end_t
                        &&& final(self).current() is Some
                        &&& final(self).boundaries().vars() == spec_after_crossing(
                            old(self).boundaries().vars(),
                        )
                        &&& segment_in_cell(
                            old(self).boundaries().vars().ray@,
                            s.start_t,
                            s.end_t,
                            cell.0 as int,
                            cell.1 as int,
                        )
                    }
                }
            },
    {
        let (pixel_x, pixel_y) = match self.current {
            Some(cell) => cell,
            None => {
                return None;
            },
        };
        let ghost old_bt = self.boundary_traversal;
        match self.boundary_traversal.next() {
            Some(crossing) => {
                let (new_t, new_x, new_y) = match crossing {
                    BoundaryCrossing::X { t, last_x_index: _, next_x_index, y_index } => (
                        t,
                        next_x_index,
                        y_index,
                    ),
                    BoundaryCrossing::Y { t, x_index, last_y_index: _, next_y_index } => (
                        t,
                        x_index,
                        next_y_index,
                    ),
                    BoundaryCrossing::XY {
                        t,
                        last_x_index: _,
                        next_x_index,
                        last_y_index: _,
                        next_y_index,
                    } => (t, next_x_index, next_y_index),
                };
                proof {
                    let ov = old_bt.vars();
                    let nv = self.boundary_traversal.vars();
                    ov.lemma_bounds();
                    nv.lemma_bounds();
                    ov.lemma_next_is_first();
                    ov.lemma_segment_in_cell(self.last_t, new_t);
                    let last = self.last_t;
                    if nv.crossed_x@ > 0 && ov.crossed_x@ > 0 && nv.crossed_x@ == ov.crossed_x@ {
                        lemma_le_transitive(
                            Ratio { num: (ov.t_max_x - 1_000_000) as i64, den: ov.den_x },
                            last,
                            new_t,
                        );
                    }
                    if nv.crossed_y@ > 0 && ov.crossed_y@ > 0 && nv.crossed_y@ == ov.crossed_y@ {
                        lemma_le_transitive(
                            Ratio { num: (ov.t_max_y - 1_000_000) as i64, den: ov.den_y },
                            last,
                            new_t,
                        );
                    }
                }
                self.current = Some((new_x, new_y));
                let start_t = self.last_t;
                self.last_t = new_t;
                Some(PixelSegment { pixel_x, pixel_y, start_t, end_t: new_t })
            },
            None => {
                self.current = None;
                proof {
                    let ov = old_bt.vars();
                    assert(self.last_t.num < self.last_t.den);
                    assert(self.last_t.num * 1 < 1 * self.last_t.den);
                    if no_boundary_before_end(ov) {
                        let one = Ratio { num: 1, den: 1 };
                        if ov.den_x > 0 || ov.den_y > 0 {
                            ov.lemma_next_is_first();
                            if ov.den_x > 0 {
                                lemma_le_transitive(one, ov.next_t(), ov.t_x());
                            }
                            if ov.den_y > 0 {
                                lemma_le_transitive(one, ov.next_t(), ov.t_y());
                            }
                        }
                        ov.lemma_segment_in_cell(self.last_t, one);
                    }
                }
                Some(
                    PixelSegment {
                        pixel_x,
                        pixel_y,
                        start_t: self.last_t,
                        end_t: Ratio { num: 1, den: 1 },
                    },
                )
            },
        }
    }
}

} // verus!
