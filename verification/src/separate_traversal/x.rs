//! Traversal of the x-boundaries at or ahead of the start of a ray, with the row the ray is in
//! at each.
use vstd::prelude::*;
use crate::fixed::{Fixed, Ratio, FIXED_ONE, COORD_LIMIT};
use crate::grid_steps::{
    ray_in_range, abs, axis_step, ahead_boundary, ahead_num, lemma_ahead, lemma_abs_product,
    trunc_div, trunc_div_exec, x_at_t_is, unit, floor_exec, ceil_exec, lemma_floor_ceil,
};
use crate::ray::Ray2;

verus! {

/// A crossing of an x-boundary: the ray parameter `t` at which the ray is on it, the boundary
/// itself (`last_x_index`), the index one step further in the direction of the ray
/// (`next_x_index`), and the row index there (the y-coordinate of the ray at `t`, truncated
/// toward zero).
#[derive(Debug, Copy, Clone, PartialEq)]
pub struct XBoundaryCrossing {
    pub t: Ratio,
    pub last_x_index: i32,
    pub next_x_index: i32,
    pub y_index: i32,
}

/// The largest boundary index (in magnitude) that a traversal state keeps.
pub open spec fn index_limit() -> int {
    0x8000_0001
}

/// Iterates over the x-boundaries at or ahead of the start of a ray, in order and without
/// end: the first one is the start itself when it lies on a boundary, and the ray is followed
/// past its end.
pub struct XBoundaryTraversal {
    step_x: i32,
    /// The x-boundary reached next, in grid units.
    x: i64,
    /// That boundary is reached at `t = t_num / t_den`.
    t_num: i64,
    /// `|diff_x|` in fixed-point units.
    t_den: i64,
    /// The y-coordinate of the ray there is `y_num / (FIXED_ONE * t_den)`.
    y_num: i128,
    /// What `y_num` gains from one boundary to the next: `FIXED_ONE * diff_y`.
    step_y: i128,
    ray: Ghost<Ray2<Fixed>>,
    crossed: Ghost<nat>,
}

impl XBoundaryTraversal {
    /// The traversed ray.
    pub closed spec fn spec_ray(self) -> Ray2<Fixed> {
        self.ray@
    }

    /// The number of crossings reported so far.
    pub closed spec fn crossed(self) -> nat {
        self.crossed@
    }

    /// The ray parameter of the next x-boundary.
    pub closed spec fn next_t(self) -> Ratio {
        Ratio { num: self.t_num, den: self.t_den }
    }

    /// The x-boundary reached next.
    pub closed spec fn spec_x(self) -> int {
        self.x as int
    }

    pub closed spec fn wf(self) -> bool {
        let r = self.ray@;
        let sx = r.start_x.raw as int;
        let dx = r.diff_x.raw as int;
        let sy = r.start_y.raw as int;
        let dy = r.diff_y.raw as int;
        let m = self.crossed@ as int;
        &&& ray_in_range(r)
        &&& dx != 0
        &&& self.step_x == axis_step(dx)
        &&& self.t_den == abs(dx)
        &&& self.x == ahead_boundary(sx, dx, m)
        &&& -index_limit() <= self.x <= index_limit()
        &&& self.t_num == ahead_num(sx, dx, m)
        &&& self.y_num == sy * abs(dx) + self.t_num * dy
        &&& self.step_y == unit() * dy
    }

    /// The y-coordinate, in fixed-point units times `FIXED_ONE * t.den`, of the ray at `t`.
    pub open spec fn y_scaled_at(self, t: Ratio) -> int {
        self.spec_ray().start_y.raw * t.den + t.num * self.spec_ray().diff_y.raw
    }

    /// The crossing reported next.
    pub open spec fn spec_next_crossing(self) -> XBoundaryCrossing {
        let t = self.next_t();
        XBoundaryCrossing {
            t,
            last_x_index: self.spec_x() as i32,
            next_x_index: (self.spec_x() + axis_step(self.spec_ray().diff_x.raw as int)) as i32,
            y_index: trunc_div(self.y_scaled_at(t), unit() * t.den) as i32,
        }
    }

    /// The indices of the next crossing fit in `i32`.
    pub open spec fn next_representable(self) -> bool {
        let t = self.next_t();
        let y = trunc_div(self.y_scaled_at(t), unit() * t.den);
        &&& i32::MIN <= self.spec_x() <= i32::MAX
        &&& i32::MIN <= self.spec_x() + axis_step(self.spec_ray().diff_x.raw as int) <= i32::MAX
        &&& i32::MIN <= y <= i32::MAX
    }

    /// Whether the indices of the next crossing fit in `i32`, as `next` requires.
    pub fn next_is_representable(&self) -> (representable: bool)
        requires
            self.wf(),
        ensures
            representable == self.next_representable(),
    {
        proof {
            let r = self.ray@;
            lemma_ahead(r.start_x.raw as int, r.diff_x.raw as int, self.crossed@ as int);
            lemma_floor_ceil(r.start_x.raw as int);
            let tmax: int = 4 * COORD_LIMIT;
            assert(0 <= self.t_num <= tmax);
            lemma_abs_product(self.t_num as int, r.diff_y.raw as int, tmax, 2 * COORD_LIMIT);
            lemma_abs_product(
                r.start_y.raw as int,
                self.t_den as int,
                COORD_LIMIT as int,
                2 * COORD_LIMIT,
            );
            lemma_abs_product(unit(), self.t_den as int, unit(), 2 * COORD_LIMIT);
        }
        let den = (FIXED_ONE as i128) * (self.t_den as i128);
        let y_index = trunc_div_exec(self.y_num, den);
        let index = self.x;
        let next_index = self.x + self.step_x as i64;
        i32::MIN as i64 <= index && index <= i32::MAX as i64 && i32::MIN as i64 <= next_index
            && next_index <= i32::MAX as i64 && i32::MIN as i128 <= y_index && y_index
            <= i32::MAX as i128
    }

    /// A traversal of the x-boundaries at or ahead of the start of `ray`; `None` when the ray
    /// does not move along x.
    pub fn new(ray: Ray2<Fixed>) -> (traversal: Option<Self>)
        requires
            ray_in_range(ray),
        ensures
            (traversal is None) <==> ray.diff_x.raw == 0,
            traversal matches Some(tr) ==> {
                &&& tr.wf()
                &&& tr.spec_ray() == ray
                &&& tr.crossed() == 0
                &&& tr.next_t() == (Ratio {
                    num: ahead_num(ray.start_x.raw as int, ray.diff_x.raw as int, 0) as i64,
                    den: abs(ray.diff_x.raw as int) as i64,
                })
                &&& tr.spec_x() == ahead_boundary(ray.start_x.raw as int, ray.diff_x.raw as int, 0)
            },
    {
        let sx = ray.start_x.raw;
        let dx = ray.diff_x.raw;
        let sy = ray.start_y.raw;
        let dy = ray.diff_y.raw;
        if dx == 0 {
            return None;
        }
        proof {
            lemma_ahead(sx as int, dx as int, 0);
            lemma_floor_ceil(sx as int);
        }
        let (step_x, x, t_num, t_den) = if dx > 0 {
            let c = ceil_exec(sx);
            (1i32, c, c * FIXED_ONE - sx, dx)
        } else {
            let f = floor_exec(sx);
            (-1i32, f, sx - f * FIXED_ONE, -dx)
        };
        proof {
            lemma_abs_product(t_num as int, dy as int, unit(), 2 * COORD_LIMIT);
            lemma_abs_product(sy as int, t_den as int, COORD_LIMIT as int, 2 * COORD_LIMIT);
            assert(-2 * COORD_LIMIT <= dy <= 2 * COORD_LIMIT);
            assert(FIXED_ONE as i128 * dy as i128 == unit() * dy);
        }
        let y_num = (sy as i128) * (t_den as i128) + (t_num as i128) * (dy as i128);
        Some(
            XBoundaryTraversal {
                step_x,
                x,
                t_num,
                t_den,
                y_num,
                step_y: (FIXED_ONE as i128) * (dy as i128),
                ray: Ghost(ray),
                crossed: Ghost(0),
            },
        )
    }

    /// The next x-boundary and the row the ray is in there.
    pub fn next(&mut self) -> (crossing: Option<XBoundaryCrossing>)
        requires
            old(self).wf(),
            old(self).next_representable(),
        ensures
            final(self).wf(),
            final(self).spec_ray() == old(self).spec_ray(),
            final(self).crossed() == old(self).crossed() + 1,
            final(self).spec_x() == old(self).spec_x() + axis_step(
                old(self).spec_ray().diff_x.raw as int,
            ),
            crossing == Some(old(self).spec_next_crossing()),
            crossing matches Some(c) ==> {
                let r = old(self).spec_ray();
                &&& 0 <= c.t.num
                &&& c.t.den > 0
                &&& c.t.lt(final(self).next_t())
                &&& final(self).next_t() == (Ratio { num: (c.t.num + FIXED_ONE) as i64, den: c.t.den })
                &&& x_at_t_is(r, c.t, c.last_x_index as int)
            },
    {
        let ghost r = self.ray@;
        let ghost sx = r.start_x.raw as int;
        let ghost dx = r.diff_x.raw as int;
        let ghost sy = r.start_y.raw as int;
        let ghost dy = r.diff_y.raw as int;
        let ghost m = self.crossed@ as int;
        proof {
            lemma_ahead(sx, dx, m);
            lemma_floor_ceil(sx);
            let tmax: int = 4 * COORD_LIMIT;
            assert(0 <= self.t_num <= tmax);
            lemma_abs_product(self.t_num as int, dy, tmax, 2 * COORD_LIMIT);
            lemma_abs_product(self.t_num + unit(), dy, tmax + unit(), 2 * COORD_LIMIT);
            lemma_abs_product(sy, self.t_den as int, COORD_LIMIT as int, 2 * COORD_LIMIT);
            assert(self.y_num + self.step_y == sy * abs(dx) + (self.t_num + unit()) * dy) by (nonlinear_arith)
                requires
                    self.y_num == sy * abs(dx) + self.t_num * dy,
                    self.step_y == unit() * dy,
            {
            }
            assert(self.t_num * self.t_den < (self.t_num + unit()) * self.t_den) by (nonlinear_arith)
                requires
                    self.t_den > 0,
            {
            }
            if dx > 0 {
                assert(sx * dx + self.t_num * dx == self.x * unit() * dx) by (nonlinear_arith)
                    requires
                        self.t_num == self.x * unit() - sx,
                {
                }
            } else {
                assert(sx * (-dx) + self.t_num * dx == self.x * unit() * (-dx)) by (nonlinear_arith)
                    requires
                        self.t_num == sx - self.x * unit(),
                {
                }
            }
            lemma_abs_product(unit(), self.t_den as int, unit(), 2 * COORD_LIMIT);
        }
        let t = Ratio { num: self.t_num, den: self.t_den };
        let y_index = trunc_div_exec(self.y_num, (FIXED_ONE as i128) * (self.t_den as i128));
        let item = XBoundaryCrossing {
            t,
            last_x_index: self.x as i32,
            next_x_index: (self.x + self.step_x as i64) as i32,
            y_index: y_index as i32,
        };
        self.x = self.x + self.step_x as i64;
        self.y_num = self.y_num + self.step_y;
        self.t_num = self.t_num + FIXED_ONE;
        self.crossed = Ghost((self.crossed@ + 1) as nat);
        Some(item)
    }

    /// The state of a traversal is determined by its ray and the number of crossings made.
    pub proof fn lemma_determined(self, other: Self)
        requires
            self.wf(),
            other.wf(),
            self.spec_ray() == other.spec_ray(),
            self.crossed() == other.crossed(),
        ensures
            self == other,
    {
    }

    /// Two successive crossings: the second starts at the index where the first ended, each
    /// moves one index in the direction of the ray, and the second comes `1 / |diff_x|` later.
    pub proof fn lemma_successive_crossings(self, after: Self)
        requires
            self.wf(),
            after.wf(),
            after.spec_ray() == self.spec_ray(),
            after.crossed() == self.crossed() + 1,
            self.next_representable(),
            after.next_representable(),
        ensures
            ({
                let c = self.spec_next_crossing();
                let d = after.spec_next_crossing();
                let step = axis_step(self.spec_ray().diff_x.raw as int);
                &&& d.last_x_index == c.next_x_index
                &&& c.next_x_index - c.last_x_index == step
                &&& d.next_x_index - d.last_x_index == step
                &&& d.t.den == c.t.den
                &&& d.t.num == c.t.num + FIXED_ONE
                &&& c.t.den == abs(self.spec_ray().diff_x.raw as int)
            }),
    {
        lemma_ahead(
            self.spec_ray().start_x.raw as int,
            self.spec_ray().diff_x.raw as int,
            self.crossed() as int,
        );
    }
}

} // verus!
