//! Traversal of the y-boundaries at or ahead of the start of a ray, with the column the ray is in
//! at each.
use vstd::prelude::*;
use crate::fixed::{Fixed, Ratio, FIXED_ONE, COORD_LIMIT};
use crate::grid_steps::{
    ray_in_range, abs, axis_step, ahead_boundary, ahead_num, lemma_ahead, lemma_abs_product,
    trunc_div, trunc_div_exec, y_at_t_is, unit, floor_exec, ceil_exec, lemma_floor_ceil,
};
use crate::ray::Ray2;
use crate::separate_traversal::x::index_limit;

verus! {

/// A crossing of a y-boundary: the ray parameter `t` at which the ray is on it, the boundary
/// itself (`last_y_index`), the index one step further in the direction of the ray
/// (`next_y_index`), and the column index there (the x-coordinate of the ray at `t`, truncated
/// toward zero).
#[derive(Debug, Copy, Clone, PartialEq)]
pub struct YBoundaryCrossing {
    pub t: Ratio,
    pub x_index: i32,
    pub last_y_index: i32,
    pub next_y_index: i32,
}

/// Iterates over the y-boundaries at or ahead of the start of a ray, in order and without
/// end: the first one is the start itself when it lies on a boundary, and the ray is followed
/// past its end.
pub struct YBoundaryTraversal {
    step_y: i32,
    /// The y-boundary reached next, in grid units.
    y: i64,
    /// That boundary is reached at `t = t_num / t_den`.
    t_num: i64,
    /// `|diff_y|` in fixed-point units.
    t_den: i64,
    /// The x-coordinate of the ray there is `x_num / (FIXED_ONE * t_den)`.
    x_num: i128,
    /// What `x_num` gains from one boundary to the next: `FIXED_ONE * diff_x`.
    step_x: i128,
    ray: Ghost<Ray2<Fixed>>,
    crossed: Ghost<nat>,
}

impl YBoundaryTraversal {
    /// The traversed ray.
    pub closed spec fn spec_ray(self) -> Ray2<Fixed> {
        self.ray@
    }

    /// The number of crossings reported so far.
    pub closed spec fn crossed(self) -> nat {
        self.crossed@
    }

    /// The ray parameter of the next y-boundary.
    pub closed spec fn next_t(self) -> Ratio {
        Ratio { num: self.t_num, den: self.t_den }
    }

    /// The y-boundary reached next.
    pub closed spec fn spec_y(self) -> int {
        self.y as int
    }

    pub closed spec fn wf(self) -> bool {
        let r = self.ray@;
        let sy = r.start_y.raw as int;
        let dy = r.diff_y.raw as int;
        let sx = r.start_x.raw as int;
        let dx = r.diff_x.raw as int;
        let m = self.crossed@ as int;
        &&& ray_in_range(r)
        &&& dy != 0
        &&& self.step_y == axis_step(dy)
        &&& self.t_den == abs(dy)
        &&& self.y == ahead_boundary(sy, dy, m)
        &&& -index_limit() <= self.y <= index_limit()
        &&& self.t_num == ahead_num(sy, dy, m)
        &&& self.x_num == sx * abs(dy) + self.t_num * dx
        &&& self.step_x == unit() * dx
    }

    /// The x-coordinate, in fixed-point units times `FIXED_ONE * t.den`, of the ray at `t`.
    pub open spec fn x_scaled_at(self, t: Ratio) -> int {
        self.spec_ray().start_x.raw * t.den + t.num * self.spec_ray().diff_x.raw
    }

    /// The crossing reported next.
    pub open spec fn spec_next_crossing(self) -> YBoundaryCrossing {
        let t = self.next_t();
        YBoundaryCrossing {
            t,
            last_y_index: self.spec_y() as i32,
            next_y_index: (self.spec_y() + axis_step(self.spec_ray().diff_y.raw as int)) as i32,
            x_index: trunc_div(self.x_scaled_at(t), unit() * t.den) as i32,
        }
    }

    /// The indices of the next crossing fit in `i32`.
    pub open spec fn next_representable(self) -> bool {
        let t = self.next_t();
        let y = trunc_div(self.x_scaled_at(t), unit() * t.den);
        &&& i32::MIN <= self.spec_y() <= i32::MAX
        &&& i32::MIN <= self.spec_y() + axis_step(self.spec_ray().diff_y.raw as int) <= i32::MAX
        &&& i32::MIN <= y <= i32::MAX
    }

    /// Whether the indices of the next crossing fit in `i32`, as `next` requires.
    pub fn next_is_representable(&self) -> (representable: bool)
        requires
            self.wf(),
        ensures
            representable == self.next_representable(),
    {
        proof {
            let r = self.ray@;
            lemma_ahead(r.start_y.raw as int, r.diff_y.raw as int, self.crossed@ as int);
            lemma_floor_ceil(r.start_y.raw as int);
            let tmax: int = 4 * COORD_LIMIT;
            assert(0 <= self.t_num <= tmax);
            lemma_abs_product(self.t_num as int, r.diff_x.raw as int, tmax, 2 * COORD_LIMIT);
            lemma_abs_product(
                r.start_x.raw as int,
                self.t_den as int,
                COORD_LIMIT as int,
                2 * COORD_LIMIT,
            );
            lemma_abs_product(unit(), self.t_den as int, unit(), 2 * COORD_LIMIT);
        }
        let den = (FIXED_ONE as i128) * (self.t_den as i128);
        let x_index = trunc_div_exec(self.x_num, den);
        let index = self.y;
        let next_index = self.y + self.step_y as i64;
        i32::MIN as i64 <= index && index <= i32::MAX as i64 && i32::MIN as i64 <= next_index
            && next_index <= i32::MAX as i64 && i32::MIN as i128 <= x_index && x_index
            <= i32::MAX as i128
    }

    /// A traversal of the y-boundaries at or ahead of the start of `ray`; `None` when the ray
    /// does not move along y.
    pub fn new(ray: Ray2<Fixed>) -> (traversal: Option<Self>)
        requires
            ray_in_range(ray),
        ensures
            (traversal is None) <==> ray.diff_y.raw == 0,
            traversal matches Some(tr) ==> {
                &&& tr.wf()
                &&& tr.spec_ray() == ray
                &&& tr.crossed() == 0
                &&& tr.next_t() == (Ratio {
                    num: ahead_num(ray.start_y.raw as int, ray.diff_y.raw as int, 0) as i64,
                    den: abs(ray.diff_y.raw as int) as i64,
                })
                &&& tr.spec_y() == ahead_boundary(ray.start_y.raw as int, ray.diff_y.raw as int, 0)
            },
    {
        let sy = ray.start_y.raw;
        let dy = ray.diff_y.raw;
        let sx = ray.start_x.raw;
        let dx = ray.diff_x.raw;
        if dy == 0 {
            return None;
        }
        proof {
            lemma_ahead(sy as int, dy as int, 0);
            lemma_floor_ceil(sy as int);
        }
        let (step_y, y, t_num, t_den) = if dy > 0 {
            let c = ceil_exec(sy);
            (1i32, c, c * FIXED_ONE - sy, dy)
        } else {
            let f = floor_exec(sy);
            (-1i32, f, sy - f * FIXED_ONE, -dy)
        };
        proof {
            lemma_abs_product(t_num as int, dx as int, unit(), 2 * COORD_LIMIT);
            lemma_abs_product(sx as int, t_den as int, COORD_LIMIT as int, 2 * COORD_LIMIT);
            assert(-2 * COORD_LIMIT <= dx <= 2 * COORD_LIMIT);
            assert(FIXED_ONE as i128 * dx as i128 == unit() * dx);
        }
        let x_num = (sx as i128) * (t_den as i128) + (t_num as i128) * (dx as i128);
        Some(
            YBoundaryTraversal {
                step_y,
                y,
                t_num,
                t_den,
                x_num,
                step_x: (FIXED_ONE as i128) * (dx as i128),
                ray: Ghost(ray),
                crossed: Ghost(0),
            },
        )
    }

    /// The next y-boundary and the column the ray is in there.
    pub fn next(&mut self) -> (crossing: Option<YBoundaryCrossing>)
        requires
            old(self).wf(),
            old(self).next_representable(),
        ensures
            final(self).wf(),
            final(self).spec_ray() == old(self).spec_ray(),
            final(self).crossed() == old(self).crossed() + 1,
            final(self).spec_y() == old(self).spec_y() + axis_step(
                old(self).spec_ray().diff_y.raw as int,
            ),
            crossing == Some(old(self).spec_next_crossing()),
            crossing matches Some(c) ==> {
                let r = old(self).spec_ray();
                &&& 0 <= c.t.num
                &&& c.t.den > 0
                &&& c.t.lt(final(self).next_t())
                &&& final(self).next_t() == (Ratio { num: (c.t.num + FIXED_ONE) as i64, den: c.t.den })
                &&& y_at_t_is(r, c.t, c.last_y_index as int)
            },
    {
        let ghost r = self.ray@;
        let ghost sy = r.start_y.raw as int;
        let ghost dy = r.diff_y.raw as int;
        let ghost sx = r.start_x.raw as int;
        let ghost dx = r.diff_x.raw as int;
        let ghost m = self.crossed@ as int;
        proof {
            lemma_ahead(sy, dy, m);
            lemma_floor_ceil(sy);
            let tmax: int = 4 * COORD_LIMIT;
            assert(0 <= self.t_num <= tmax);
            lemma_abs_product(self.t_num as int, dx, tmax, 2 * COORD_LIMIT);
            lemma_abs_product(self.t_num + unit(), dx, tmax + unit(), 2 * COORD_LIMIT);
            lemma_abs_product(sx, self.t_den as int, COORD_LIMIT as int, 2 * COORD_LIMIT);
            assert(self.x_num + self.step_x == sx * abs(dy) + (self.t_num + unit()) * dx) by (nonlinear_arith)
                requires
                    self.x_num == sx * abs(dy) + self.t_num * dx,
                    self.step_x == unit() * dx,
            {
            }
            assert(self.t_num * self.t_den < (self.t_num + unit()) * self.t_den) by (nonlinear_arith)
                requires
                    self.t_den > 0,
            {
            }
            if dy > 0 {
                assert(sy * dy + self.t_num * dy == self.y * unit() * dy) by (nonlinear_arith)
                    requires
                        self.t_num == self.y * unit() - sy,
                {
                }
            } else {
                assert(sy * (-dy) + self.t_num * dy == self.y * unit() * (-dy)) by (nonlinear_arith)
                    requires
                        self.t_num == sy - self.y * unit(),
                {
                }
            }
            lemma_abs_product(unit(), self.t_den as int, unit(), 2 * COORD_LIMIT);
        }
        let t = Ratio { num: self.t_num, den: self.t_den };
        let x_index = trunc_div_exec(self.x_num, (FIXED_ONE as i128) * (self.t_den as i128));
        let item = YBoundaryCrossing {
            t,
            last_y_index: self.y as i32,
            next_y_index: (self.y + self.step_y as i64) as i32,
            x_index: x_index as i32,
        };
        self.y = self.y + self.step_y as i64;
        self.x_num = self.x_num + self.step_x;
        self.t_num = self.t_num + FIXED_ONE;
        self.crossed = Ghost((self.crossed@ + 1) as nat);
        Some(item)
    }

    /// The state of a traversal is determined by its ray and the number of crossings made.
    pub proof fn lemma_determined(self, other: Self)
        requires
            self.wf(),
            other.wf(),
            self.spec_ray() == other.spec_ray(),
            self.crossed() == other.crossed(),
        ensures
            self == other,
    {
    }

    /// Two successive crossings: the second starts at the index where the first ended, each
    /// moves one index in the direction of the ray, and the second comes `1 / |diff_y|` later.
    pub proof fn lemma_successive_crossings(self, after: Self)
        requires
            self.wf(),
            after.wf(),
            after.spec_ray() == self.spec_ray(),
            after.crossed() == self.crossed() + 1,
            self.next_representable(),
            after.next_representable(),
        ensures
            ({
                let c = self.spec_next_crossing();
                let d = after.spec_next_crossing();
                let step = axis_step(self.spec_ray().diff_y.raw as int);
                &&& d.last_y_index == c.next_y_index
                &&& c.next_y_index - c.last_y_index == step
                &&& d.next_y_index - d.last_y_index == step
                &&& d.t.den == c.t.den
                &&& d.t.num == c.t.num + FIXED_ONE
                &&& c.t.den == abs(self.spec_ray().diff_y.raw as int)
            }),
    {
        lemma_ahead(
            self.spec_ray().start_y.raw as int,
            self.spec_ray().diff_y.raw as int,
            self.crossed() as int,
        );
    }
}

} // verus!
