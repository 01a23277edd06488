//! Traversal of the cells (pixels) that a ray passes through, built on the traversal that
//! reports a corner as two crossings; at a corner it reports the cell diagonally between as a
//! segment of length zero.
use vstd::prelude::*;
use crate::fixed::{Fixed, Ratio};
use crate::grid_steps::{ray_in_range, segment_in_cell, lemma_le_transitive, TraversalVariables};
use crate::pixel_traversal::{PixelSegment, in_unit_interval};
use crate::ray::Ray2;
use crate::combined_traversal::{
    BoundaryCrossing, CombinedBoundaryTraversal, spec_after_crossing, crossings_left,
    lemma_after_crossing,
};

verus! {

/// The segment reported from state `v` when the current cell's interval starts at `last`: the
/// current cell, up to the next crossing, or up to `1` when no crossing is left.
pub open spec fn spec_segment(v: TraversalVariables, last: Ratio) -> PixelSegment {
    PixelSegment {
        pixel_x: v.pixel_x,
        pixel_y: v.pixel_y,
        start_t: last,
        end_t: if crossings_left(v) == 0 {
            Ratio { num: 1, den: 1 }
        } else {
            v.next_t()
        },
    }
}

/// The segments that successive calls of `next` report from state `v` (with `n` crossings left)
/// when the current cell's interval starts at `last`, up to and including the last one.
pub open spec fn pixel_segments(v: TraversalVariables, last: Ratio, n: nat) -> Seq<PixelSegment>
    decreases n,
{
    if n == 0 {
        seq![spec_segment(v, last)]
    } else {
        seq![spec_segment(v, last)] + pixel_segments(
            spec_after_crossing(v),
            v.next_t(),
            (n - 1) as nat,
        )
    }
}

/// The cells of two segments are neighbours: they differ by one in exactly one coordinate.
pub open spec fn neighbours(a: PixelSegment, b: PixelSegment) -> bool {
    ||| (b.pixel_x == a.pixel_x + 1 || b.pixel_x == a.pixel_x - 1) && b.pixel_y == a.pixel_y
    ||| b.pixel_x == a.pixel_x && (b.pixel_y == a.pixel_y + 1 || b.pixel_y == a.pixel_y - 1)
}

/// The segments of successive calls of `next`: one more than there are crossings left; the
/// first starts at `last` in the current cell, each next one starts where the previous ended
/// in a neighbouring cell, each ends no earlier than it starts, and the last ends at `1`.
pub proof fn lemma_pixel_sequence(v: TraversalVariables, last: Ratio, n: nat)
    requires
        v.wf(),
        n == crossings_left(v),
        in_unit_interval(last),
        last.num < last.den,
        n > 0 ==> last.le(v.next_t()),
    ensures
        ({
            let s = pixel_segments(v, last, n);
            &&& s.len() == n + 1
            &&& s[0].start_t == last
            &&& (s[0].pixel_x, s[0].pixel_y) == (v.pixel_x, v.pixel_y)
            &&& s[n as int].end_t == (Ratio { num: 1, den: 1 })
            &&& forall|i: int|
                0 <= i <= n ==> {
                    &&& in_unit_interval(#[trigger] s[i].start_t)
                    &&& in_unit_interval(s[i].end_t)
                    &&& s[i].start_t.le(s[i].end_t)
                }
            &&& forall|i: int|
                0 <= i < n ==> {
                    &&& (#[trigger] s[i]).end_t == s[i + 1].start_t
                    &&& neighbours(s[i], s[i + 1])
                }
        }),
    decreases n,
{
    let s = pixel_segments(v, last, n);
    if n == 0 {
        assert(last.num * 1 < 1 * last.den);
    } else {
        v.lemma_bounds();
        v.lemma_order_inside();
        lemma_after_crossing(v);
        let a = spec_after_crossing(v);
        let t = v.next_t();
        v.lemma_step_not_decreasing(t, a);
        lemma_pixel_sequence(a, t, (n - 1) as nat);
        let rest = pixel_segments(a, t, (n - 1) as nat);
        assert(s == seq![spec_segment(v, last)] + rest);
        assert forall|i: int| 0 <= i <= n implies {
            &&& in_unit_interval(#[trigger] s[i].start_t)
            &&& in_unit_interval(s[i].end_t)
            &&& s[i].start_t.le(s[i].end_t)
        } by {
            if i > 0 {
                assert(s[i] == rest[i - 1]);
            }
        }
        assert forall|i: int| 0 <= i < n implies {
            &&& (#[trigger] s[i]).end_t == s[i + 1].start_t
            &&& neighbours(s[i], s[i + 1])
        } by {
            assert(s[i + 1] == rest[i]);
            if i > 0 {
                assert(s[i] == rest[i - 1]);
            }
        }
        assert(s[n as int] == rest[n - 1]);
    }
}

/// Iterates over the cells that a ray passes through, in order, with the interval of `t` spent
/// in each; the intervals follow each other without gap from `t = 0` to `t = 1`.
pub struct CombinedPixelTraversal {
    boundary_traversal: CombinedBoundaryTraversal,
    last_t: Ratio,
    current: Option<(i32, i32)>,
}

impl CombinedPixelTraversal {
    /// The underlying boundary traversal.
    pub closed spec fn boundaries(self) -> CombinedBoundaryTraversal {
        self.boundary_traversal
    }

    /// Where the current cell's interval starts.
    pub closed spec fn last_t(self) -> Ratio {
        self.last_t
    }

    /// The cell the traversal is in; `None` once the end of the ray has been reported.
    pub closed spec fn current(self) -> Option<(i32, i32)> {
        self.current
    }

    pub open spec fn wf(self) -> bool {
        let v = self.boundaries().vars();
        &&& self.boundaries().wf()
        &&& in_unit_interval(self.last_t())
        &&& self.last_t().num < self.last_t().den
        &&& self.current() is Some ==> {
            &&& self.current() == Some((v.pixel_x, v.pixel_y))
            &&& self.boundaries().remaining() > 0 ==> self.last_t().le(v.next_t())
            &&& v.past_last_x(self.last_t())
            &&& v.past_last_y(self.last_t())
        }
    }

    /// A traversal of `ray`, starting in the cell that contains its start at `t = 0`.
    pub fn new(ray: Ray2<Fixed>) -> (traversal: Self)
        requires
            ray_in_range(ray),
        ensures
            traversal.wf(),
            traversal.boundaries().vars().ray@ == ray,
            traversal.boundaries().vars().crossed_x@ == 0,
            traversal.boundaries().vars().crossed_y@ == 0,
            traversal.boundaries().remaining() == traversal.boundaries().vars().x_count()
                + traversal.boundaries().vars().y_count(),
            traversal.last_t() == (Ratio { num: 0, den: 1 }),
            traversal.current() is Some,
    {
        let boundary_traversal = CombinedBoundaryTraversal::new(ray);
        proof {
            let v = boundary_traversal.vars();
            v.lemma_bounds();
            v.lemma_order_inside();
        }
        let current = Some((boundary_traversal.pixel_x(), boundary_traversal.pixel_y()));
        CombinedPixelTraversal { last_t: Ratio { num: 0, den: 1 }, current, boundary_traversal }
    }

    /// The next cell and the interval of `t` spent in it; the first interval starts at `0`,
    /// each next one starts where the previous ended, and the last one ends at `1`.
    pub fn next(&mut self) -> (segment: Option<PixelSegment>)
        requires
            old(self).wf(),
        ensures
            final(self).wf(),
            old(self).current() is None ==> segment is None && final(self).current() is None,
            old(self).current() is Some ==> segment == Some(
                spec_segment(old(self).boundaries().vars(), old(self).last_t()),
            ),
            old(self).current() matches Some(cell) ==> {
                &&& segment matches Some(s) && {
                    &&& (s.pixel_x, s.pixel_y) == cell
                    &&& s.start_t == old(self).last_t()
                    &&& in_unit_interval(s.start_t)
                    &&& in_unit_interval(s.end_t)
                    &&& s.start_t.le(s.end_t)
                    &&& if old(self).boundaries().remaining() == 0 {
                        &&& s.end_t == (Ratio { num: 1, den: 1 })
                        &&& s.start_t.lt(s.end_t)
                        &&& final(self).current() is None
                    } else {
                        &&& s.end_t == old(self).boundaries().vars().next_t()
                        &&& final(self).last_t() == s.end_t
                        &&& final(self).current() is Some
                        &&& final(self).boundaries().vars() == spec_after_crossing(
                            old(self).boundaries().vars(),
                        )
                        &&& final(self).boundaries().remaining() == old(self).boundaries().remaining()
                            - 1
                    }
                    &&& segment_in_cell(
                        old(self).boundaries().vars().ray@,
                        s.start_t,
                        s.end_t,
                        cell.0 as int,
                        cell.1 as int,
                    )
                }
            },
    {
        let (pixel_x, pixel_y) = match self.current {
            Some(cell) => cell,
            None => {
                return None;
            },
        };
        let ghost old_bt = self.boundary_traversal;
        match self.boundary_traversal.next() {
            Some(crossing) => {
                let (new_t, new_x, new_y) = match crossing {
                    BoundaryCrossing::X { t, last_x_index: _, next_x_index, y_index } => (
                        t,
                        next_x_index,
                        y_index,
                    ),
                    BoundaryCrossing::Y { t, x_index, last_y_index: _, next_y_index } => (
                        t,
                        x_index,
                        next_y_index,
                    ),
                };
                proof {
                    let ov = old_bt.vars();
                    let nv = self.boundary_traversal.vars();
                    let last = self.last_t;
                    ov.lemma_bounds();
                    nv.lemma_bounds();
                    ov.lemma_order_inside();
                    ov.lemma_next_is_first();
                    ov.lemma_segment_in_cell(last, new_t);
                    if nv.crossed_x@ > 0 && nv.crossed_x@ == ov.crossed_x@ {
                        lemma_le_transitive(
                            Ratio { num: (ov.t_max_x - 1_000_000) as i64, den: ov.den_x },
                            last,
                            new_t,
                        );
                    }
                    if nv.crossed_y@ > 0 && nv.crossed_y@ == ov.crossed_y@ {
                        lemma_le_transitive(
                            Ratio { num: (ov.t_max_y - 1_000_000) as i64, den: ov.den_y },
                            last,
                            new_t,
                        );
                    }
                }
                self.current = Some((new_x, new_y));
                let start_t = self.last_t;
                self.last_t = new_t;
                Some(PixelSegment { pixel_x, pixel_y, start_t, end_t: new_t })
            },
            None => {
                self.current = None;
                proof {
                    let ov = old_bt.vars();
                    ov.lemma_bounds();
                    ov.lemma_order_inside();
                    assert(self.last_t.num * 1 < 1 * self.last_t.den);
                    ov.lemma_segment_in_cell(self.last_t, Ratio { num: 1, den: 1 });
                }
                Some(
                    PixelSegment {
                        pixel_x,
                        pixel_y,
                        start_t: self.last_t,
                        end_t: Ratio { num: 1, den: 1 },
                    },
                )
            },
        }
    }
}

} // verus!
