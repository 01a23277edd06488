//! Traversal of the cells that a ray passes through, driven by the crossings of the boundaries
//! of one axis only.
use vstd::prelude::*;
use crate::fixed::{Fixed, Ratio, FIXED_ONE};
use crate::grid_steps::{ray_in_range, trunc_div, trunc_div_exec, unit, lemma_between_in_range, ahead_boundary, axis_step, ahead_num, abs};
use crate::pixel_traversal::PixelSegment;
use crate::ray::Ray2;
use crate::separate_traversal::{XBoundaryTraversal, YBoundaryTraversal};

verus! {

/// A coordinate in grid units, truncated toward zero.
pub open spec fn truncated(raw: int) -> int {
    trunc_div(raw, unit())
}

/// The truncated coordinate is the cell of the point along its axis, counted toward zero: for
/// a point at or right of zero, `truncated(raw) <= raw / FIXED_ONE < truncated(raw) + 1`; left of
/// zero, `truncated(raw) - 1 < raw / FIXED_ONE <= truncated(raw)`.
pub proof fn lemma_truncated_contains(raw: int)
    ensures
        raw >= 0 ==> truncated(raw) * unit() <= raw < (truncated(raw) + 1) * unit(),
        raw >= 0 ==> truncated(raw) >= 0,
        raw < 0 ==> (truncated(raw) - 1) * unit() < raw <= truncated(raw) * unit(),
        raw < 0 ==> truncated(raw) <= 0,
{
    if raw >= 0 {
        vstd::arithmetic::div_mod::lemma_fundamental_div_mod(raw, unit());
        vstd::arithmetic::div_mod::lemma_mod_bound(raw, unit());
        vstd::arithmetic::div_mod::lemma_div_pos_is_pos(raw, unit());
    } else {
        vstd::arithmetic::div_mod::lemma_fundamental_div_mod(-raw, unit());
        vstd::arithmetic::div_mod::lemma_mod_bound(-raw, unit());
        vstd::arithmetic::div_mod::lemma_div_pos_is_pos(-raw, unit());
    }
}

/// A coordinate of the accepted range, in grid units, truncated toward zero.
fn truncate(raw: i64) -> (t: i32)
    requires
        -crate::fixed::COORD_LIMIT <= raw <= crate::fixed::COORD_LIMIT,
    ensures
        t == truncated(raw as int),
{
    proof {
        lemma_between_in_range(raw as int, 0, 0, 1);
    }
    trunc_div_exec(raw as i128, FIXED_ONE as i128) as i32
}

/// Iterates over the cells that a ray passes through, as the crossings of the x-boundaries
/// tell them, with the interval of `t` spent in each; the intervals follow each other without
/// gap from `t = 0` on, and the ray is followed past its end.
pub struct XPixelTraversal {
    boundary_traversal: XBoundaryTraversal,
    last_t: Ratio,
    current: Option<(i32, i32)>,
}

impl XPixelTraversal {
    /// The underlying boundary traversal.
    pub closed spec fn boundaries(self) -> XBoundaryTraversal {
        self.boundary_traversal
    }

    /// Where the current cell's interval starts.
    pub closed spec fn last_t(self) -> Ratio {
        self.last_t
    }

    /// The cell the traversal is in. The traversal of x-boundaries never ends, so once made
    /// this stays `Some` and every call of `next` reports a segment (its branch for an ended
    /// boundary traversal is never taken).
    pub closed spec fn current(self) -> Option<(i32, i32)> {
        self.current
    }

    pub open spec fn wf(self) -> bool {
        &&& self.boundaries().wf()
        &&& self.last_t().den > 0
        &&& 0 <= self.last_t().num
        &&& self.current() is Some ==> self.last_t().le(self.boundaries().next_t())
    }

    /// A traversal of `ray`, starting in the cell given by its start coordinates truncated
    /// toward zero; `None` when the ray does not move along x.
    pub fn new(ray: Ray2<Fixed>) -> (traversal: Option<Self>)
        requires
            ray_in_range(ray),
        ensures
            (traversal is None) <==> ray.diff_x.raw == 0,
            traversal matches Some(tr) ==> {
                &&& tr.wf()
                &&& tr.boundaries().spec_ray() == ray
                &&& tr.boundaries().crossed() == 0
                &&& tr.boundaries().spec_x() == ahead_boundary(
                    ray.start_x.raw as int,
                    ray.diff_x.raw as int,
                    0,
                )
                &&& tr.boundaries().next_t() == (Ratio {
                    num: ahead_num(ray.start_x.raw as int, ray.diff_x.raw as int, 0) as i64,
                    den: abs(ray.diff_x.raw as int) as i64,
                })
                &&& tr.last_t() == (Ratio { num: 0, den: 1 })
                &&& tr.current() == Some(
                    (
                        truncated(ray.start_x.raw as int) as i32,
                        truncated(ray.start_y.raw as int) as i32,
                    ),
                )
            },
    {
        let boundary_traversal = match XBoundaryTraversal::new(ray) {
            Some(traversal) => traversal,
            None => {
                return None;
            },
        };
        let current = Some((truncate(ray.start_x.raw), truncate(ray.start_y.raw)));
        proof {
            crate::grid_steps::lemma_ahead(
                ray.start_x.raw as int,
                ray.diff_x.raw as int,
                0,
            );
            let t = boundary_traversal.next_t();
            assert(t.num >= 0);
            assert(t.den >= 1);
            assert((Ratio { num: 0, den: 1 }).le(t));
        }
        Some(XPixelTraversal { last_t: Ratio { num: 0, den: 1 }, current, boundary_traversal })
    }

    /// Whether `next` may be called: the indices of the next crossing fit in `i32`.
    pub fn next_is_representable(&self) -> (representable: bool)
        requires
            self.wf(),
        ensures
            representable == (self.current() is Some ==> self.boundaries().next_representable()),
    {
        match self.current {
            Some(_) => self.boundary_traversal.next_is_representable(),
            None => true,
        }
    }

    /// The current cell and the interval of `t` until the next boundary; the first interval
    /// starts at `0` and each next one starts where the previous ended.
    pub fn next(&mut self) -> (segment: Option<PixelSegment>)
        requires
            old(self).wf(),
            old(self).current() is Some ==> old(self).boundaries().next_representable(),
        ensures
            final(self).wf(),
            old(self).current() is None ==> segment is None && final(self).current() is None,
            old(self).current() matches Some(cell) ==> {
                let c = old(self).boundaries().spec_next_crossing();
                &&& segment matches Some(s) && {
                    &&& (s.pixel_x, s.pixel_y) == cell
                    &&& s.start_t == old(self).last_t()
                    &&& s.end_t == c.t
                    &&& s.start_t.le(s.end_t)
                }
                &&& final(self).last_t() == c.t
                &&& final(self).current() == Some((c.next_x_index, c.y_index))
                &&& final(self).boundaries().spec_ray() == old(self).boundaries().spec_ray()
                &&& final(self).boundaries().crossed() == old(self).boundaries().crossed() + 1
                &&& final(self).boundaries().spec_x() == old(self).boundaries().spec_x()
                    + axis_step(old(self).boundaries().spec_ray().diff_x.raw as int)
                &&& final(self).boundaries().next_t() == (Ratio {
                    num: (c.t.num + FIXED_ONE) as i64,
                    den: c.t.den,
                })
            },
    {
        let (pixel_x, pixel_y) = match self.current {
            Some(cell) => cell,
            None => {
                return None;
            },
        };
        match self.boundary_traversal.next() {
            Some(crossing) => {
                self.current = Some((crossing.next_x_index, crossing.y_index));
                let start_t = self.last_t;
                self.last_t = crossing.t;
                Some(PixelSegment { pixel_x, pixel_y, start_t, end_t: crossing.t })
            },
            None => {
                self.current = None;
                proof {
                    assert(self.last_t.num * 1 < 1 * self.last_t.den);
                }
                Some(
                    PixelSegment {
                        pixel_x,
                        pixel_y,
                        start_t: self.last_t,
                        end_t: Ratio { num: 1, den: 1 },
                    },
                )
            },
        }
    }
}

/// Iterates over the cells that a ray passes through, as the crossings of the y-boundaries
/// tell them, with the interval of `t` spent in each; the intervals follow each other without
/// gap from `t = 0` on, and the ray is followed past its end.
pub struct YPixelTraversal {
    boundary_traversal: YBoundaryTraversal,
    last_t: Ratio,
    current: Option<(i32, i32)>,
}

impl YPixelTraversal {
    /// The underlying boundary traversal.
    pub closed spec fn boundaries(self) -> YBoundaryTraversal {
        self.boundary_traversal
    }

    /// Where the current cell's interval starts.
    pub closed spec fn last_t(self) -> Ratio {
        self.last_t
    }

    /// The cell the traversal is in. The traversal of y-boundaries never ends, so once made
    /// this stays `Some` and every call of `next` reports a segment (its branch for an ended
    /// boundary traversal is never taken).
    pub closed spec fn current(self) -> Option<(i32, i32)> {
        self.current
    }

    pub open spec fn wf(self) -> bool {
        &&& self.boundaries().wf()
        &&& self.last_t().den > 0
        &&& 0 <= self.last_t().num
        &&& self.current() is Some ==> self.last_t().le(self.boundaries().next_t())
    }

    /// A traversal of `ray`, starting in the cell given by its start coordinates truncated
    /// toward zero; `None` when the ray does not move along y.
    pub fn new(ray: Ray2<Fixed>) -> (traversal: Option<Self>)
        requires
            ray_in_range(ray),
        ensures
            (traversal is None) <==> ray.diff_y.raw == 0,
            traversal matches Some(tr) ==> {
                &&& tr.wf()
                &&& tr.boundaries().spec_ray() == ray
                &&& tr.boundaries().crossed() == 0
                &&& tr.boundaries().spec_y() == ahead_boundary(
                    ray.start_y.raw as int,
                    ray.diff_y.raw as int,
                    0,
                )
                &&& tr.boundaries().next_t() == (Ratio {
                    num: ahead_num(ray.start_y.raw as int, ray.diff_y.raw as int, 0) as i64,
                    den: abs(ray.diff_y.raw as int) as i64,
                })
                &&& tr.last_t() == (Ratio { num: 0, den: 1 })
                &&& tr.current() == Some(
                    (
                        truncated(ray.start_x.raw as int) as i32,
                        truncated(ray.start_y.raw as int) as i32,
                    ),
                )
            },
    {
        let boundary_traversal = match YBoundaryTraversal::new(ray) {
            Some(traversal) => traversal,
            None => {
                return None;
            },
        };
        let current = Some((truncate(ray.start_x.raw), truncate(ray.start_y.raw)));
        proof {
            crate::grid_steps::lemma_ahead(
                ray.start_y.raw as int,
                ray.diff_y.raw as int,
                0,
            );
            let t = boundary_traversal.next_t();
            assert(t.num >= 0);
            assert(t.den >= 1);
            assert((Ratio { num: 0, den: 1 }).le(t));
        }
        Some(YPixelTraversal { last_t: Ratio { num: 0, den: 1 }, current, boundary_traversal })
    }

    /// Whether `next` may be called: the indices of the next crossing fit in `i32`.
    pub fn next_is_representable(&self) -> (representable: bool)
        requires
            self.wf(),
        ensures
            representable == (self.current() is Some ==> self.boundaries().next_representable()),
    {
        match self.current {
            Some(_) => self.boundary_traversal.next_is_representable(),
            None => true,
        }
    }

    /// The current cell and the interval of `t` until the next boundary; the first interval
    /// starts at `0` and each next one starts where the previous ended.
    pub fn next(&mut self) -> (segment: Option<PixelSegment>)
        requires
            old(self).wf(),
            old(self).current() is Some ==> old(self).boundaries().next_representable(),
        ensures
            final(self).wf(),
            old(self).current() is None ==> segment is None && final(self).current() is None,
            old(self).current() matches Some(cell) ==> {
                let c = old(self).boundaries().spec_next_crossing();
                &&& segment matches Some(s) && {
                    &&& (s.pixel_x, s.pixel_y) == cell
                    &&& s.start_t == old(self).last_t()
                    &&& s.end_t == c.t
                    &&& s.start_t.le(s.end_t)
                }
                &&& final(self).last_t() == c.t
                &&& final(self).current() == Some((c.x_index, c.next_y_index))
                &&& final(self).boundaries().spec_ray() == old(self).boundaries().spec_ray()
                &&& final(self).boundaries().crossed() == old(self).boundaries().crossed() + 1
                &&& final(self).boundaries().spec_y() == old(self).boundaries().spec_y()
                    + axis_step(old(self).boundaries().spec_ray().diff_y.raw as int)
                &&& final(self).boundaries().next_t() == (Ratio {
                    num: (c.t.num + FIXED_ONE) as i64,
                    den: c.t.den,
                })
            },
    {
        let (pixel_x, pixel_y) = match self.current {
            Some(cell) => cell,
            None => {
                return None;
            },
        };
        match self.boundary_traversal.next() {
            Some(crossing) => {
                self.current = Some((crossing.x_index, crossing.next_y_index));
                let start_t = self.last_t;
                self.last_t = crossing.t;
                Some(PixelSegment { pixel_x, pixel_y, start_t, end_t: crossing.t })
            },
            None => {
                self.current = None;
                proof {
                    assert(self.last_t.num * 1 < 1 * self.last_t.den);
                }
                Some(
                    PixelSegment {
                        pixel_x,
                        pixel_y,
                        start_t: self.last_t,
                        end_t: Ratio { num: 1, den: 1 },
                    },
                )
            },
        }
    }
}

/// The traversal of cells by x-crossings walks the traversal of x-boundaries of the same ray:
/// after as many steps, its boundary traversal is in the same state, so the segment it reports
/// next ends at the `t` of that traversal's next crossing and the cell after it is that
/// crossing's next x-index and row.
pub proof fn lemma_x_segments_follow_crossings(p: XPixelTraversal, b: XBoundaryTraversal)
    requires
        p.wf(),
        b.wf(),
        p.boundaries().spec_ray() == b.spec_ray(),
        p.boundaries().crossed() == b.crossed(),
    ensures
        p.boundaries() == b,
{
    p.boundaries().lemma_determined(b);
}

/// The traversal of cells by y-crossings walks the traversal of y-boundaries of the same ray:
/// after as many steps, its boundary traversal is in the same state.
pub proof fn lemma_y_segments_follow_crossings(p: YPixelTraversal, b: YBoundaryTraversal)
    requires
        p.wf(),
        b.wf(),
        p.boundaries().spec_ray() == b.spec_ray(),
        p.boundaries().crossed() == b.crossed(),
    ensures
        p.boundaries() == b,
{
    p.boundaries().lemma_determined(b);
}

} // verus!
