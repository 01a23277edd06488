//! The stepping state shared by the grid traversals: for each axis, the index of the cell the
//! ray is in, the direction in which that index moves, and the ray parameter `t` at which the
//! next boundary of that axis is crossed. All quantities are exact.
use vstd::prelude::*;
use crate::fixed::{Fixed, Ratio, FIXED_ONE, COORD_LIMIT};
use crate::ray::Ray2;

verus! {

/// The number of fixed-point units in one grid unit (`FIXED_ONE`), as an integer.
#[verifier::inline]
pub open spec fn unit() -> int {
    1_000_000int
}

/// `floor(raw / FIXED_ONE)`.
pub open spec fn floor_units(raw: int) -> int {
    raw / unit()
}

/// `ceil(raw / FIXED_ONE)`.
pub open spec fn ceil_units(raw: int) -> int {
    -((-raw) / unit())
}

/// A coordinate (in fixed-point units) that the traversals accept.
pub open spec fn coord_ok(raw: int) -> bool {
    -COORD_LIMIT <= raw <= COORD_LIMIT
}

/// A ray whose start and end points have coordinates that the traversals accept.
pub open spec fn ray_in_range(ray: Ray2<Fixed>) -> bool {
    &&& coord_ok(ray.start_x.raw as int)
    &&& coord_ok(ray.start_y.raw as int)
    &&& coord_ok(ray.start_x.raw + ray.diff_x.raw)
    &&& coord_ok(ray.start_y.raw + ray.diff_y.raw)
}

/// The number of integers strictly between `a / FIXED_ONE` and `b / FIXED_ONE`.
pub open spec fn spec_integers_between(a: int, b: int) -> int {
    if a < b {
        ceil_units(b) - floor_units(a) - 1
    } else if b < a {
        ceil_units(a) - floor_units(b) - 1
    } else {
        0
    }
}

pub open spec fn abs(d: int) -> int {
    if d >= 0 {
        d
    } else {
        -d
    }
}

/// The cell index, along one axis, in which a ray starting at `s` and moving by `d` starts.
/// A start on a boundary counts as lying on the side towards which the ray moves.
pub open spec fn axis_cell0(s: int, d: int) -> int {
    if d >= 0 {
        floor_units(s)
    } else {
        ceil_units(s) - 1
    }
}

/// The direction in which the cell index moves along one axis.
pub open spec fn axis_step(d: int) -> int {
    if d >= 0 {
        1
    } else {
        -1
    }
}

/// `|d| * t` of the first boundary crossing along one axis (the distance, in fixed-point
/// units, from the start to the first boundary strictly ahead).
pub open spec fn axis_first_num(s: int, d: int) -> int {
    if d >= 0 {
        (floor_units(s) + 1) * unit() - s
    } else {
        s - (ceil_units(s) - 1) * unit()
    }
}

/// `|d| * t` of the crossing with number `m` (counted from zero) along one axis.
pub open spec fn axis_num(s: int, d: int, m: int) -> int {
    axis_first_num(s, d) + m * unit()
}

/// The boundary (in grid units) that crossing number `m` along one axis crosses.
pub open spec fn axis_boundary(s: int, d: int, m: int) -> int {
    if d >= 0 {
        floor_units(s) + 1 + m
    } else {
        ceil_units(s) - 1 - m
    }
}

pub proof fn lemma_floor_ceil(raw: int)
    ensures
        floor_units(raw) * unit() <= raw < floor_units(raw) * unit() + unit(),
        ceil_units(raw) * unit() - unit() < raw <= ceil_units(raw) * unit(),
        ceil_units(raw) == floor_units(raw) || ceil_units(raw) == floor_units(raw) + 1,
        (ceil_units(raw) == floor_units(raw)) <==> (raw == floor_units(raw) * unit()),
{
    vstd::arithmetic::div_mod::lemma_fundamental_div_mod(raw, unit());
    vstd::arithmetic::div_mod::lemma_fundamental_div_mod(-raw, unit());
    vstd::arithmetic::div_mod::lemma_mod_bound(raw, unit());
    vstd::arithmetic::div_mod::lemma_mod_bound(-raw, unit());
}

/// The first crossing lies strictly ahead of the start and at most one grid unit away, and it
/// crosses the boundary that `axis_boundary` names.
pub proof fn lemma_axis_first(s: int, d: int)
    ensures
        1 <= axis_first_num(s, d) <= unit(),
        d >= 0 ==> s + axis_first_num(s, d) == axis_boundary(s, d, 0) * unit(),
        d < 0 ==> s - axis_first_num(s, d) == axis_boundary(s, d, 0) * unit(),
{
    lemma_floor_ceil(s);
    let f = floor_units(s);
    let c = ceil_units(s);
    assert((f + 1) * unit() == f * unit() + unit());
    assert((c - 1) * unit() == c * unit() - unit());
}

/// Crossing number `m` happens strictly before the end of the ray exactly when `m` is less than
/// the number of integers strictly between the start and the end.
pub proof fn lemma_axis_inside(s: int, d: int, m: int)
    requires
        d != 0,
        m >= 0,
    ensures
        (axis_num(s, d, m) < abs(d)) <==> (m < spec_integers_between(s, s + d)),
        spec_integers_between(s, s + d) >= 0,
{
    lemma_floor_ceil(s);
    lemma_floor_ceil(s + d);
    if d > 0 {
        let k = floor_units(s) + 1 + m;
        let c = ceil_units(s + d);
        if k <= c - 1 {
            assert(k * unit() <= (c - 1) * unit());
        } else {
            assert(k * unit() >= c * unit());
        }
    } else {
        let k = ceil_units(s) - 1 - m;
        let f = floor_units(s + d);
        if k >= f + 1 {
            assert(k * unit() >= (f + 1) * unit());
        } else {
            assert(k * unit() <= f * unit());
        }
    }
}

/// The number of integers strictly between two coordinates.
pub fn integers_between(a: Fixed, b: Fixed) -> (count: usize)
    requires
        coord_ok(a.raw as int),
        coord_ok(b.raw as int),
    ensures
        count == spec_integers_between(a.raw as int, b.raw as int),
{
    proof {
        lemma_floor_ceil(a.raw as int);
        lemma_floor_ceil(b.raw as int);
    }
    if a.raw < b.raw {
        (ceil_exec(b.raw) - floor_exec(a.raw) - 1) as usize
    } else if b.raw < a.raw {
        (ceil_exec(a.raw) - floor_exec(b.raw) - 1) as usize
    } else {
        0
    }
}

/// A multiple of `FIXED_ONE` that is at least `COORD_LIMIT`, in grid units.
pub const SHIFT_UNITS: i64 = 1_000_000_000;

/// `floor(raw / FIXED_ONE)`.
pub fn floor_exec(raw: i64) -> (f: i64)
    requires
        coord_ok(raw as int),
    ensures
        f == floor_units(raw as int),
        -SHIFT_UNITS <= f <= SHIFT_UNITS,
{
    let shifted: i64 = raw + SHIFT_UNITS * FIXED_ONE;
    proof {
        vstd::arithmetic::div_mod::lemma_fundamental_div_mod(raw as int, unit());
        vstd::arithmetic::div_mod::lemma_mod_bound(raw as int, unit());
        vstd::arithmetic::div_mod::lemma_fundamental_div_mod(shifted as int, unit());
        vstd::arithmetic::div_mod::lemma_mod_bound(shifted as int, unit());
        vstd::arithmetic::div_mod::lemma_div_multiples_vanish_fancy(
            SHIFT_UNITS as int,
            raw as int - floor_units(raw as int) * unit(),
            unit(),
        );
    }
    let q: i64 = shifted / FIXED_ONE;
    proof {
        assert(shifted as int == (floor_units(raw as int) + SHIFT_UNITS) * unit() + (raw as int - floor_units(raw as int) * unit()));
        vstd::arithmetic::div_mod::lemma_div_multiples_vanish_fancy(
            floor_units(raw as int) + SHIFT_UNITS,
            raw as int - floor_units(raw as int) * unit(),
            unit(),
        );
    }
    q - SHIFT_UNITS
}

/// `ceil(raw / FIXED_ONE)`.
pub fn ceil_exec(raw: i64) -> (c: i64)
    requires
        coord_ok(raw as int),
    ensures
        c == ceil_units(raw as int),
        -SHIFT_UNITS <= c <= SHIFT_UNITS,
{
    -floor_exec(-raw)
}


/// The stepping state of one axis is the one reached after `m` crossings along that axis.
pub open spec fn axis_wf(s: int, d: int, step: int, cell: int, num: int, den: int, m: int) -> bool {
    &&& step == axis_step(d)
    &&& cell == axis_cell0(s, d) + m * axis_step(d)
    &&& den == abs(d)
    &&& num == axis_num(s, d, m)
    &&& 0 <= m <= spec_integers_between(s, s + d)
}

/// Bounds that follow from an axis state: the numerator of the next crossing's `t` exceeds
/// the denominator by at most one grid unit, the cell index stays within the coordinate range,
/// and a crossing that is still owed (`m` below the count) happens strictly before the end.
pub proof fn lemma_axis_bounds(s: int, d: int, step: int, cell: int, num: int, den: int, m: int)
    requires
        coord_ok(s),
        coord_ok(s + d),
        axis_wf(s, d, step, cell, num, den, m),
    ensures
        1 <= num <= den + unit(),
        -SHIFT_UNITS - 1 <= cell <= SHIFT_UNITS + 1,
        d != 0 ==> ((num < den) <==> (m < spec_integers_between(s, s + d))),
        d == 0 ==> m == 0,
        0 <= den <= 2 * COORD_LIMIT,
        spec_integers_between(s, s + d) <= 2 * SHIFT_UNITS,
{
    lemma_axis_first(s, d);
    lemma_floor_ceil(s);
    lemma_floor_ceil(s + d);
    if d != 0 {
        lemma_axis_inside(s, d, m);
        if m > 0 {
            lemma_axis_inside(s, d, m - 1);
        }
    }
    if d > 0 {
        assert(cell == floor_units(s) + m);
    } else if d < 0 {
        assert(cell == ceil_units(s) - 1 - m);
    }
}

/// The stepping state of a traversal of a ray over the unit grid (after Amanatides and Woo):
/// per axis, the cell index, its direction of movement, and the exact `t` of the next boundary.
pub struct TraversalVariables {
    pub step_x: i32,
    pub step_y: i32,
    pub pixel_x: i32,
    pub pixel_y: i32,
    /// `t_max_x / den_x` is the ray parameter at which the next x-boundary is crossed.
    pub t_max_x: i64,
    pub t_max_y: i64,
    /// `|diff_x|` in fixed-point units; zero when the ray does not move along x, in which case
    /// no x-boundary is ever crossed.
    pub den_x: i64,
    pub den_y: i64,
    pub ray: Ghost<Ray2<Fixed>>,
    pub crossed_x: Ghost<nat>,
    pub crossed_y: Ghost<nat>,
}

impl TraversalVariables {
    pub open spec fn sx(self) -> int {
        self.ray@.start_x.raw as int
    }

    pub open spec fn sy(self) -> int {
        self.ray@.start_y.raw as int
    }

    pub open spec fn dx(self) -> int {
        self.ray@.diff_x.raw as int
    }

    pub open spec fn dy(self) -> int {
        self.ray@.diff_y.raw as int
    }

    /// The number of x-boundaries that lie strictly between the start and the end of the ray.
    pub open spec fn x_count(self) -> int {
        spec_integers_between(self.sx(), self.sx() + self.dx())
    }

    /// The number of y-boundaries that lie strictly between the start and the end of the ray.
    pub open spec fn y_count(self) -> int {
        spec_integers_between(self.sy(), self.sy() + self.dy())
    }

    pub open spec fn wf(self) -> bool {
        &&& ray_in_range(self.ray@)
        &&& axis_wf(
            self.sx(),
            self.dx(),
            self.step_x as int,
            self.pixel_x as int,
            self.t_max_x as int,
            self.den_x as int,
            self.crossed_x@ as int,
        )
        &&& axis_wf(
            self.sy(),
            self.dy(),
            self.step_y as int,
            self.pixel_y as int,
            self.t_max_y as int,
            self.den_y as int,
            self.crossed_y@ as int,
        )
    }

    /// The ray parameter of the next x-boundary crossing (when `den_x > 0`).
    pub open spec fn t_x(self) -> Ratio {
        Ratio { num: self.t_max_x, den: self.den_x }
    }

    /// The ray parameter of the next y-boundary crossing (when `den_y > 0`).
    pub open spec fn t_y(self) -> Ratio {
        Ratio { num: self.t_max_y, den: self.den_y }
    }

    /// The next x-boundary comes strictly before the next y-boundary.
    pub open spec fn spec_x_first(self) -> bool {
        self.den_x > 0 && (self.den_y == 0 || self.t_max_x * self.den_y < self.t_max_y * self.den_x)
    }

    /// The next y-boundary comes strictly before the next x-boundary.
    pub open spec fn spec_y_first(self) -> bool {
        self.den_y > 0 && (self.den_x == 0 || self.t_max_y * self.den_x < self.t_max_x * self.den_y)
    }

    /// The ray parameter of the next boundary crossing of either axis.
    pub open spec fn next_t(self) -> Ratio {
        if self.spec_y_first() {
            self.t_y()
        } else {
            self.t_x()
        }
    }

    /// The x-state after one more x-crossing, the rest unchanged.
    pub open spec fn stepped_x(self) -> Self {
        TraversalVariables {
            pixel_x: (self.pixel_x + self.step_x) as i32,
            t_max_x: (self.t_max_x + FIXED_ONE) as i64,
            crossed_x: Ghost((self.crossed_x@ + 1) as nat),
            ..self
        }
    }

    /// The y-state after one more y-crossing, the rest unchanged.
    pub open spec fn stepped_y(self) -> Self {
        TraversalVariables {
            pixel_y: (self.pixel_y + self.step_y) as i32,
            t_max_y: (self.t_max_y + FIXED_ONE) as i64,
            crossed_y: Ghost((self.crossed_y@ + 1) as nat),
            ..self
        }
    }

    pub proof fn lemma_bounds(self)
        requires
            self.wf(),
        ensures
            1 <= self.t_max_x <= self.den_x + unit(),
            1 <= self.t_max_y <= self.den_y + unit(),
            0 <= self.den_x <= 2 * COORD_LIMIT,
            0 <= self.den_y <= 2 * COORD_LIMIT,
            self.den_x > 0 ==> ((self.t_max_x < self.den_x) <==> (self.crossed_x@ < self.x_count())),
            self.den_y > 0 ==> ((self.t_max_y < self.den_y) <==> (self.crossed_y@ < self.y_count())),
            self.den_x == 0 ==> self.crossed_x@ == 0 && self.x_count() == 0,
            self.den_y == 0 ==> self.crossed_y@ == 0 && self.y_count() == 0,
            self.x_count() <= 2 * SHIFT_UNITS,
            self.y_count() <= 2 * SHIFT_UNITS,
    {
        lemma_axis_bounds(
            self.sx(),
            self.dx(),
            self.step_x as int,
            self.pixel_x as int,
            self.t_max_x as int,
            self.den_x as int,
            self.crossed_x@ as int,
        );
        lemma_axis_bounds(
            self.sy(),
            self.dy(),
            self.step_y as int,
            self.pixel_y as int,
            self.t_max_y as int,
            self.den_y as int,
            self.crossed_y@ as int,
        );
    }

    /// The state of a traversal of `ray` before any crossing.
    pub fn new(ray: Ray2<Fixed>) -> (v: Self)
        requires
            ray_in_range(ray),
        ensures
            v.wf(),
            v.ray@ == ray,
            v.crossed_x@ == 0,
            v.crossed_y@ == 0,
    {
        let (step_x, pixel_x, t_max_x, den_x) = axis_start(ray.start_x.raw, ray.diff_x.raw);
        let (step_y, pixel_y, t_max_y, den_y) = axis_start(ray.start_y.raw, ray.diff_y.raw);
        TraversalVariables {
            step_x,
            step_y,
            pixel_x,
            pixel_y,
            t_max_x,
            t_max_y,
            den_x,
            den_y,
            ray: Ghost(ray),
            crossed_x: Ghost(0),
            crossed_y: Ghost(0),
        }
    }

    /// The state after one more x-crossing is well formed, one cell further along x.
    pub proof fn lemma_stepped_x(self)
        requires
            self.wf(),
            self.crossed_x@ < self.x_count(),
        ensures
            self.stepped_x().wf(),
            self.stepped_x().pixel_x == self.pixel_x + self.step_x,
            self.step_x == 1 || self.step_x == -1,
    {
        self.lemma_bounds();
        let m = self.crossed_x@ as int;
        lemma_axis_inside(self.sx(), self.dx(), m);
        assert(axis_wf(
            self.sx(),
            self.dx(),
            self.step_x as int,
            self.pixel_x + self.step_x,
            self.t_max_x + unit(),
            self.den_x as int,
            m + 1,
        ));
        lemma_axis_bounds(
            self.sx(),
            self.dx(),
            self.step_x as int,
            self.pixel_x + self.step_x,
            self.t_max_x + unit(),
            self.den_x as int,
            m + 1,
        );
    }

    /// Crosses the next x-boundary.
    pub fn step_x(&mut self)
        requires
            old(self).wf(),
            old(self).crossed_x@ < old(self).x_count(),
        ensures
            *final(self) == old(self).stepped_x(),
            final(self).wf(),
            final(self).pixel_x == old(self).pixel_x + old(self).step_x,
    {
        proof {
            self.lemma_stepped_x();
        }
        self.t_max_x = self.t_max_x + FIXED_ONE;
        self.pixel_x = self.pixel_x + self.step_x;
        self.crossed_x = Ghost((self.crossed_x@ + 1) as nat);
    }

    /// The state after one more y-crossing is well formed, one cell further along y.
    pub proof fn lemma_stepped_y(self)
        requires
            self.wf(),
            self.crossed_y@ < self.y_count(),
        ensures
            self.stepped_y().wf(),
            self.stepped_y().pixel_y == self.pixel_y + self.step_y,
            self.step_y == 1 || self.step_y == -1,
    {
        self.lemma_bounds();
        let m = self.crossed_y@ as int;
        lemma_axis_inside(self.sy(), self.dy(), m);
        assert(axis_wf(
            self.sy(),
            self.dy(),
            self.step_y as int,
            self.pixel_y + self.step_y,
            self.t_max_y + unit(),
            self.den_y as int,
            m + 1,
        ));
        lemma_axis_bounds(
            self.sy(),
            self.dy(),
            self.step_y as int,
            self.pixel_y + self.step_y,
            self.t_max_y + unit(),
            self.den_y as int,
            m + 1,
        );
    }

    /// Crosses the next y-boundary.
    pub fn step_y(&mut self)
        requires
            old(self).wf(),
            old(self).crossed_y@ < old(self).y_count(),
        ensures
            *final(self) == old(self).stepped_y(),
            final(self).wf(),
            final(self).pixel_y == old(self).pixel_y + old(self).step_y,
    {
        proof {
            self.lemma_stepped_y();
        }
        self.t_max_y = self.t_max_y + FIXED_ONE;
        self.pixel_y = self.pixel_y + self.step_y;
        self.crossed_y = Ghost((self.crossed_y@ + 1) as nat);
    }

    /// Whether the next x-boundary comes strictly before the next y-boundary.
    pub fn x_first(&self) -> (b: bool)
        requires
            self.wf(),
        ensures
            b == self.spec_x_first(),
    {
        proof {
            self.lemma_bounds();
        }
        if self.den_x == 0 {
            false
        } else if self.den_y == 0 {
            true
        } else {
            proof {
                lemma_small_product(self.t_max_x as int, self.den_y as int);
                lemma_small_product(self.t_max_y as int, self.den_x as int);
            }
            (self.t_max_x as i128) * (self.den_y as i128) < (self.t_max_y as i128) * (
            self.den_x as i128)
        }
    }

    /// Whether the next y-boundary comes strictly before the next x-boundary.
    pub fn y_first(&self) -> (b: bool)
        requires
            self.wf(),
        ensures
            b == self.spec_y_first(),
    {
        proof {
            self.lemma_bounds();
        }
        if self.den_y == 0 {
            false
        } else if self.den_x == 0 {
            true
        } else {
            proof {
                lemma_small_product(self.t_max_x as int, self.den_y as int);
                lemma_small_product(self.t_max_y as int, self.den_x as int);
            }
            (self.t_max_y as i128) * (self.den_x as i128) < (self.t_max_x as i128) * (
            self.den_y as i128)
        }
    }

    /// The ray parameter of the next x-boundary crossing.
    pub fn t_max_x_ratio(&self) -> (t: Ratio)
        requires
            self.den_x > 0,
        ensures
            t == self.t_x(),
    {
        Ratio { num: self.t_max_x, den: self.den_x }
    }

    /// The ray parameter of the next y-boundary crossing.
    pub fn t_max_y_ratio(&self) -> (t: Ratio)
        requires
            self.den_y > 0,
        ensures
            t == self.t_y(),
    {
        Ratio { num: self.t_max_y, den: self.den_y }
    }
}

/// The point of `ray` at parameter `t` has x-coordinate `b` (in grid units).
pub open spec fn x_at_t_is(ray: Ray2<Fixed>, t: Ratio, b: int) -> bool {
    ray.start_x.raw * t.den + t.num * ray.diff_x.raw == b * unit() * t.den
}

/// The point of `ray` at parameter `t` has y-coordinate `b` (in grid units).
pub open spec fn y_at_t_is(ray: Ray2<Fixed>, t: Ratio, b: int) -> bool {
    ray.start_y.raw * t.den + t.num * ray.diff_y.raw == b * unit() * t.den
}

/// `0 < t < 1`.
pub open spec fn strictly_inside(t: Ratio) -> bool {
    0 < t.num < t.den
}

/// The larger of two cell indices: the boundary between two adjacent cells.
pub open spec fn boundary_between(a: int, b: int) -> int {
    if a >= b {
        a
    } else {
        b
    }
}

impl TraversalVariables {
    /// The next x-boundary is crossed, at `t_x`, exactly on the boundary between the current
    /// cell and the next one.
    pub proof fn lemma_x_on_boundary(self)
        requires
            self.wf(),
            self.den_x > 0,
        ensures
            x_at_t_is(
                self.ray@,
                self.t_x(),
                boundary_between(self.pixel_x as int, self.pixel_x + self.step_x),
            ),
    {
        let s = self.sx();
        let d = self.dx();
        let m = self.crossed_x@ as int;
        lemma_axis_first(s, d);
        let b = boundary_between(self.pixel_x as int, self.pixel_x + self.step_x);
        if d > 0 {
            assert(s + self.t_max_x == b * unit());
            assert(s * d + self.t_max_x * d == b * unit() * d) by (nonlinear_arith)
                requires
                    s + self.t_max_x == b * unit(),
            {
            }
        } else {
            assert(s - self.t_max_x == b * unit());
            assert(s * (-d) + self.t_max_x * d == b * unit() * (-d)) by (nonlinear_arith)
                requires
                    s - self.t_max_x == b * unit(),
            {
            }
        }
    }

    /// The next y-boundary is crossed, at `t_y`, exactly on the boundary between the current
    /// cell and the next one.
    pub proof fn lemma_y_on_boundary(self)
        requires
            self.wf(),
            self.den_y > 0,
        ensures
            y_at_t_is(
                self.ray@,
                self.t_y(),
                boundary_between(self.pixel_y as int, self.pixel_y + self.step_y),
            ),
    {
        let s = self.sy();
        let d = self.dy();
        lemma_axis_first(s, d);
        let b = boundary_between(self.pixel_y as int, self.pixel_y + self.step_y);
        if d > 0 {
            assert(s + self.t_max_y == b * unit());
            assert(s * d + self.t_max_y * d == b * unit() * d) by (nonlinear_arith)
                requires
                    s + self.t_max_y == b * unit(),
            {
            }
        } else {
            assert(s - self.t_max_y == b * unit());
            assert(s * (-d) + self.t_max_y * d == b * unit() * (-d)) by (nonlinear_arith)
                requires
                    s - self.t_max_y == b * unit(),
            {
            }
        }
    }

    /// Crossing the next boundary moves the next crossing strictly later.
    pub proof fn lemma_step_increases(self, t: Ratio, after: Self)
        requires
            self.wf(),
            t.den > 0,
            (self.spec_x_first() && t == self.t_x() && after == self.stepped_x())
                || (self.spec_y_first() && t == self.t_y() && after == self.stepped_y())
                || (!self.spec_x_first() && !self.spec_y_first() && self.den_x > 0 && t
                == self.t_x() && after == self.stepped_x().stepped_y()),
        ensures
            t.lt(after.next_t()),
            after.next_t().den > 0,
    {
        self.lemma_bounds();
        let nx = self.t_max_x as int;
        let ny = self.t_max_y as int;
        let dxn = self.den_x as int;
        let dyn_ = self.den_y as int;
        assert((nx + unit()) * dxn == nx * dxn + unit() * dxn) by (nonlinear_arith);
        assert((ny + unit()) * dyn_ == ny * dyn_ + unit() * dyn_) by (nonlinear_arith);
        assert(nx * dyn_ + unit() * dyn_ == (nx + unit()) * dyn_) by (nonlinear_arith);
        assert(ny * dxn + unit() * dxn == (ny + unit()) * dxn) by (nonlinear_arith);
        if !self.spec_x_first() && !self.spec_y_first() && self.den_x > 0 && t == self.t_x() {
            // a tie: both axes cross at the same t
            assert(dyn_ > 0);
            assert(nx * dyn_ == ny * dxn);
            assert(nx * dyn_ < (ny + unit()) * dxn) by (nonlinear_arith)
                requires
                    nx * dyn_ == ny * dxn,
                    dxn > 0,
                    dyn_ > 0,
            {
            }
        } else if self.spec_y_first() && t == self.t_y() {
            assert(ny * dyn_ < (ny + unit()) * dyn_) by (nonlinear_arith)
                requires
                    dyn_ > 0,
            {
            }
        } else {
            assert(nx * dxn < (nx + unit()) * dxn) by (nonlinear_arith)
                requires
                    dxn > 0,
            {
            }
        }
    }
}

impl TraversalVariables {
    /// The next x-boundary comes no later than the next y-boundary.
    pub open spec fn spec_x_not_after(self) -> bool {
        self.den_x > 0 && (self.den_y == 0 || self.t_max_x * self.den_y <= self.t_max_y * self.den_x)
    }

    /// Whether the next x-boundary comes no later than the next y-boundary.
    pub fn x_not_after(&self) -> (b: bool)
        requires
            self.wf(),
        ensures
            b == self.spec_x_not_after(),
    {
        proof {
            self.lemma_bounds();
        }
        if self.den_x == 0 {
            false
        } else if self.den_y == 0 {
            true
        } else {
            proof {
                lemma_small_product(self.t_max_x as int, self.den_y as int);
                lemma_small_product(self.t_max_y as int, self.den_x as int);
            }
            (self.t_max_x as i128) * (self.den_y as i128) <= (self.t_max_y as i128) * (
            self.den_x as i128)
        }
    }

    /// When the boundary that comes next lies at or beyond the end of the ray, so do all the
    /// boundaries of the other axis: once the earlier axis has crossed all its boundaries
    /// inside the ray, the later one has too.
    pub proof fn lemma_order_inside(self)
        requires
            self.wf(),
        ensures
            self.spec_x_not_after() && self.crossed_x@ == self.x_count() ==> self.crossed_y@
                == self.y_count(),
            self.spec_y_first() && self.crossed_y@ == self.y_count() ==> self.crossed_x@
                == self.x_count(),
            !self.spec_x_first() && !self.spec_y_first() && (self.den_x > 0 || self.den_y > 0)
                ==> {
                &&& self.den_x > 0
                &&& self.den_y > 0
                &&& self.t_max_x * self.den_y == self.t_max_y * self.den_x
                &&& (self.crossed_x@ < self.x_count() <==> self.crossed_y@ < self.y_count())
            },
            self.den_x == 0 && self.den_y == 0 ==> self.x_count() == 0 && self.y_count() == 0,
    {
        self.lemma_bounds();
        let nx = self.t_max_x as int;
        let ny = self.t_max_y as int;
        let ax = self.den_x as int;
        let ay = self.den_y as int;
        if ax > 0 && ay > 0 {
            assert(nx >= ax && nx * ay <= ny * ax ==> ny >= ay) by (nonlinear_arith)
                requires
                    ax > 0,
                    ay > 0,
            {
            }
            assert(ny >= ay && ny * ax < nx * ay ==> nx >= ax) by (nonlinear_arith)
                requires
                    ax > 0,
                    ay > 0,
            {
            }
            assert(nx * ay == ny * ax ==> (nx < ax <==> ny < ay)) by (nonlinear_arith)
                requires
                    ax > 0,
                    ay > 0,
            {
            }
        }
    }
}

impl TraversalVariables {
    /// Crossing the boundary that comes first (x on a tie) does not move the next crossing
    /// earlier.
    pub proof fn lemma_step_not_decreasing(self, t: Ratio, after: Self)
        requires
            self.wf(),
            (self.spec_x_not_after() && t == self.t_x() && after == self.stepped_x())
                || (self.spec_y_first() && t == self.t_y() && after == self.stepped_y()),
        ensures
            t.le(after.next_t()),
            after.next_t().den > 0,
    {
        self.lemma_bounds();
        let nx = self.t_max_x as int;
        let ny = self.t_max_y as int;
        let ax = self.den_x as int;
        let ay = self.den_y as int;
        if self.spec_x_not_after() && t == self.t_x() {
            assert(nx * ax <= (nx + unit()) * ax) by (nonlinear_arith)
                requires
                    ax > 0,
            {
            }
        } else {
            assert(ny * ay <= (ny + unit()) * ay) by (nonlinear_arith)
                requires
                    ay > 0,
            {
            }
            if ax > 0 {
                assert(ny * ax <= nx * ay);
            }
        }
    }
}

/// `a / b` rounded toward zero (for `b > 0`).
pub open spec fn trunc_div(a: int, b: int) -> int {
    if a >= 0 {
        a / b
    } else {
        -((-a) / b)
    }
}

/// `a / b` rounded toward zero.
pub fn trunc_div_exec(a: i128, b: i128) -> (q: i128)
    requires
        b > 0,
        a > i128::MIN,
    ensures
        q == trunc_div(a as int, b as int),
{
    if a >= 0 {
        a / b
    } else {
        -((-a) / b)
    }
}

/// A point strictly between two points of the coordinate range is in the coordinate range:
/// with `0 <= n <= a`, `(s * a + n * d) / (FIXED_ONE * a)` lies within `SHIFT_UNITS` of zero.
pub proof fn lemma_between_in_range(s: int, d: int, n: int, a: int)
    requires
        coord_ok(s),
        coord_ok(s + d),
        0 <= n <= a,
        a > 0,
    ensures
        -COORD_LIMIT * a <= s * a + n * d <= COORD_LIMIT * a,
        -SHIFT_UNITS <= trunc_div(s * a + n * d, unit() * a) <= SHIFT_UNITS,
{
    let l = COORD_LIMIT as int;
    let v = s * a + n * d;
    assert(v == (a - n) * s + n * (s + d)) by (nonlinear_arith)
        requires
            v == s * a + n * d,
    {
    }
    assert(-l * (a - n) <= (a - n) * s <= l * (a - n)) by (nonlinear_arith)
        requires
            -l <= s <= l,
            0 <= a - n,
    {
    }
    assert(-l * n <= n * (s + d) <= l * n) by (nonlinear_arith)
        requires
            -l <= s + d <= l,
            0 <= n,
    {
    }
    assert(-l * a <= v <= l * a) by (nonlinear_arith)
        requires
            v == (a - n) * s + n * (s + d),
            -l * (a - n) <= (a - n) * s <= l * (a - n),
            -l * n <= n * (s + d) <= l * n,
    {
    }
    let b = unit() * a;
    assert(l * a == SHIFT_UNITS * b);
    if v >= 0 {
        vstd::arithmetic::div_mod::lemma_div_is_ordered(v, SHIFT_UNITS * b, b);
        vstd::arithmetic::div_mod::lemma_div_by_multiple(SHIFT_UNITS as int, b);
        vstd::arithmetic::div_mod::lemma_div_pos_is_pos(v, b);
    } else {
        vstd::arithmetic::div_mod::lemma_div_is_ordered(-v, SHIFT_UNITS * b, b);
        vstd::arithmetic::div_mod::lemma_div_by_multiple(SHIFT_UNITS as int, b);
        vstd::arithmetic::div_mod::lemma_div_pos_is_pos(-v, b);
    }
}

/// The boundary with number `m` (counted from zero) at or ahead of `s` in the direction of `d`:
/// the first one is `s` itself when `s` lies on a boundary.
pub open spec fn ahead_boundary(s: int, d: int, m: int) -> int {
    if d >= 0 {
        ceil_units(s) + m
    } else {
        floor_units(s) - m
    }
}

/// The distance, in fixed-point units, from `s` to `ahead_boundary(s, d, m)`.
pub open spec fn ahead_num(s: int, d: int, m: int) -> int {
    if d >= 0 {
        ahead_boundary(s, d, m) * unit() - s
    } else {
        s - ahead_boundary(s, d, m) * unit()
    }
}

pub proof fn lemma_ahead(s: int, d: int, m: int)
    requires
        m >= 0,
    ensures
        0 <= ahead_num(s, d, 0) < unit(),
        ahead_num(s, d, m) == ahead_num(s, d, 0) + m * unit(),
        ahead_num(s, d, m + 1) == ahead_num(s, d, m) + unit(),
        (ahead_num(s, d, 0) == 0) <==> (s == floor_units(s) * unit()),
{
    lemma_floor_ceil(s);
    if d >= 0 {
        assert((ceil_units(s) + m) * unit() == ceil_units(s) * unit() + m * unit());
        assert((ceil_units(s) + m + 1) * unit() == ceil_units(s) * unit() + m * unit() + unit());
    } else {
        assert((floor_units(s) - m) * unit() == floor_units(s) * unit() - m * unit());
        assert((floor_units(s) - m - 1) * unit() == floor_units(s) * unit() - m * unit() - unit());
    }
}

/// `|a * b| <= A * B` when `|a| <= A` and `|b| <= B`.
pub proof fn lemma_abs_product(a: int, b: int, aa: int, bb: int)
    requires
        -aa <= a <= aa,
        -bb <= b <= bb,
    ensures
        -(aa * bb) <= a * b <= aa * bb,
{
    let ua = if a >= 0 { a } else { -a };
    let ub = if b >= 0 { b } else { -b };
    vstd::arithmetic::mul::lemma_mul_upper_bound(ua, aa, ub, bb);
    vstd::arithmetic::mul::lemma_mul_nonnegative(ua, ub);
    assert(ua * ub == a * b || ua * ub == -(a * b)) by (nonlinear_arith)
        requires
            ua == a || ua == -a,
            ub == b || ub == -b,
    {
    }
}

impl TraversalVariables {
    /// The stepping state is determined by the ray and by the numbers of crossings made along
    /// each axis.
    pub proof fn lemma_determined(self, other: Self)
        requires
            self.wf(),
            other.wf(),
            self.ray@ == other.ray@,
            self.crossed_x@ == other.crossed_x@,
            self.crossed_y@ == other.crossed_y@,
        ensures
            self == other,
    {
    }
}

/// The point of `ray` at parameter `t` lies in the closed cell `[cx, cx + 1] x [cy, cy + 1]`.
pub open spec fn in_closed_cell(ray: Ray2<Fixed>, t: Ratio, cx: int, cy: int) -> bool {
    &&& cx * unit() * t.den <= ray.start_x.raw * t.den + t.num * ray.diff_x.raw
    &&& ray.start_x.raw * t.den + t.num * ray.diff_x.raw <= (cx + 1) * unit() * t.den
    &&& cy * unit() * t.den <= ray.start_y.raw * t.den + t.num * ray.diff_y.raw
    &&& ray.start_y.raw * t.den + t.num * ray.diff_y.raw <= (cy + 1) * unit() * t.den
}

/// The points of `ray` for every parameter from `a` to `b` lie in the closed cell `(cx, cy)`.
pub open spec fn segment_in_cell(ray: Ray2<Fixed>, a: Ratio, b: Ratio, cx: int, cy: int) -> bool {
    forall|t: Ratio| t.den > 0 && a.le(t) && t.le(b) ==> #[trigger] in_closed_cell(ray, t, cx, cy)
}

/// `a <= b` and `b <= c` give `a <= c` (positive denominators).
pub proof fn lemma_le_transitive(a: Ratio, b: Ratio, c: Ratio)
    requires
        a.den > 0,
        b.den > 0,
        c.den > 0,
        a.le(b),
        b.le(c),
    ensures
        a.le(c),
{
    let (an, ad, bn, bd, cn, cd) = (a.num as int, a.den as int, b.num as int, b.den as int, c.num as int, c.den as int);
    assert(an * bd * cd <= bn * ad * cd) by (nonlinear_arith)
        requires
            an * bd <= bn * ad,
            cd > 0,
    {
    }
    assert(bn * cd * ad <= cn * bd * ad) by (nonlinear_arith)
        requires
            bn * cd <= cn * bd,
            ad > 0,
    {
    }
    assert(an * cd * bd <= cn * ad * bd) by (nonlinear_arith)
        requires
            an * bd * cd <= bn * ad * cd,
            bn * cd * ad <= cn * bd * ad,
    {
    }
    assert(an * cd <= cn * ad) by (nonlinear_arith)
        requires
            an * cd * bd <= cn * ad * bd,
            bd > 0,
    {
    }
}

/// Along one axis in the state after `m` crossings, every point between the last crossing (or
/// the start) and the next crossing lies in the closed cell: with `t = n / q`,
/// `cell <= (s * q + n * d) / (FIXED_ONE * q) <= cell + 1`.
pub proof fn lemma_axis_contains(
    s: int,
    d: int,
    step: int,
    cell: int,
    num: int,
    den: int,
    m: int,
    n: int,
    q: int,
)
    requires
        axis_wf(s, d, step, cell, num, den, m),
        q > 0,
        d != 0 ==> n * den <= num * q,
        d != 0 && m == 0 ==> 0 <= n,
        d != 0 && m > 0 ==> (num - unit()) * q <= n * den,
    ensures
        cell * unit() * q <= s * q + n * d <= (cell + 1) * unit() * q,
{
    lemma_axis_first(s, d);
    lemma_floor_ceil(s);
    let f = floor_units(s);
    let c = ceil_units(s);
    if d == 0 {
        assert(cell == f);
        assert(f * unit() * q <= s * q <= (f + 1) * unit() * q) by (nonlinear_arith)
            requires
                f * unit() <= s < f * unit() + unit(),
                q > 0,
        {
        }
    } else if d > 0 {
        assert(cell == f + m);
        assert(s + num == (cell + 1) * unit());
        assert(s * q + n * d <= (cell + 1) * unit() * q) by (nonlinear_arith)
            requires
                n * d <= num * q,
                s + num == (cell + 1) * unit(),
        {
        }
        if m == 0 {
            assert(cell * unit() * q <= s * q + n * d) by (nonlinear_arith)
                requires
                    cell * unit() <= s,
                    0 <= n,
                    d > 0,
                    q > 0,
            {
            }
        } else {
            assert(s + num - unit() == cell * unit());
            assert(cell * unit() * q <= s * q + n * d) by (nonlinear_arith)
                requires
                    (num - unit()) * q <= n * d,
                    s + num - unit() == cell * unit(),
            {
            }
        }
    } else {
        assert(cell == c - 1 - m);
        assert(s - num == cell * unit());
        assert(cell * unit() * q <= s * q + n * d) by (nonlinear_arith)
            requires
                n * (-d) <= num * q,
                s - num == cell * unit(),
        {
        }
        if m == 0 {
            assert(s * q + n * d <= (cell + 1) * unit() * q) by (nonlinear_arith)
                requires
                    s <= (cell + 1) * unit(),
                    0 <= n,
                    d < 0,
                    q > 0,
            {
            }
        } else {
            assert(s - num + unit() == (cell + 1) * unit());
            assert(s * q + n * d <= (cell + 1) * unit() * q) by (nonlinear_arith)
                requires
                    (num - unit()) * q <= n * (-d),
                    s - num + unit() == (cell + 1) * unit(),
            {
            }
        }
    }
}

impl TraversalVariables {
    /// `t` is not before the last x-crossing made (or the start, when there was none).
    pub open spec fn past_last_x(self, t: Ratio) -> bool {
        if self.crossed_x@ == 0 {
            t.num >= 0
        } else {
            (Ratio { num: (self.t_max_x - FIXED_ONE) as i64, den: self.den_x }).le(t)
        }
    }

    /// `t` is not before the last y-crossing made (or the start, when there was none).
    pub open spec fn past_last_y(self, t: Ratio) -> bool {
        if self.crossed_y@ == 0 {
            t.num >= 0
        } else {
            (Ratio { num: (self.t_max_y - FIXED_ONE) as i64, den: self.den_y }).le(t)
        }
    }

    /// `t` is not after the next crossing of either axis.
    pub open spec fn before_next(self, t: Ratio) -> bool {
        &&& self.den_x > 0 ==> t.le(self.t_x())
        &&& self.den_y > 0 ==> t.le(self.t_y())
    }

    /// The next crossing of either axis comes no later than the next crossing of each axis.
    pub proof fn lemma_next_is_first(self)
        requires
            self.wf(),
            self.den_x > 0 || self.den_y > 0,
        ensures
            self.next_t().den > 0,
            self.before_next(self.next_t()),
    {
        self.lemma_bounds();
        let t = self.next_t();
        if self.spec_y_first() {
            assert(t.le(self.t_y()));
            if self.den_x > 0 {
                assert(t.le(self.t_x()));
            }
        } else {
            assert(self.den_x > 0);
            assert(t.le(self.t_x()));
            if self.den_y > 0 {
                assert(t.le(self.t_y()));
            }
        }
    }

    /// Between the last crossings made and the next ones, the ray is in the current cell.
    pub proof fn lemma_contains(self, t: Ratio)
        requires
            self.wf(),
            t.den > 0,
            self.past_last_x(t),
            self.past_last_y(t),
            self.before_next(t),
        ensures
            in_closed_cell(self.ray@, t, self.pixel_x as int, self.pixel_y as int),
    {
        self.lemma_bounds();
        let n = t.num as int;
        let q = t.den as int;
        if self.crossed_x@ == 0 {
            assert(0 <= n);
        } else {
            assert((self.t_max_x - unit()) * q <= n * self.den_x);
        }
        if self.crossed_y@ == 0 {
            assert(0 <= n);
        } else {
            assert((self.t_max_y - unit()) * q <= n * self.den_y);
        }
        lemma_axis_contains(
            self.sx(),
            self.dx(),
            self.step_x as int,
            self.pixel_x as int,
            self.t_max_x as int,
            self.den_x as int,
            self.crossed_x@ as int,
            n,
            q,
        );
        lemma_axis_contains(
            self.sy(),
            self.dy(),
            self.step_y as int,
            self.pixel_y as int,
            self.t_max_y as int,
            self.den_y as int,
            self.crossed_y@ as int,
            n,
            q,
        );
    }

    /// Every point from `a` to `b` lies in the current cell when `a` is past the last crossings
    /// and `b` is not after the next ones.
    pub proof fn lemma_segment_in_cell(self, a: Ratio, b: Ratio)
        requires
            self.wf(),
            a.den > 0,
            b.den > 0,
            self.past_last_x(a),
            self.past_last_y(a),
            self.before_next(b),
        ensures
            segment_in_cell(self.ray@, a, b, self.pixel_x as int, self.pixel_y as int),
    {
        self.lemma_bounds();
        assert forall|t: Ratio| t.den > 0 && a.le(t) && t.le(b) implies #[trigger] in_closed_cell(
            self.ray@,
            t,
            self.pixel_x as int,
            self.pixel_y as int,
        ) by {
            if self.crossed_x@ == 0 {
                assert(t.num >= 0) by (nonlinear_arith)
                    requires
                        a.num >= 0,
                        a.num * t.den <= t.num * a.den,
                        a.den > 0,
                        t.den > 0,
                {
                }
            } else {
                lemma_le_transitive(
                    Ratio { num: (self.t_max_x - FIXED_ONE) as i64, den: self.den_x },
                    a,
                    t,
                );
            }
            if self.crossed_y@ == 0 {
                assert(t.num >= 0) by (nonlinear_arith)
                    requires
                        a.num >= 0,
                        a.num * t.den <= t.num * a.den,
                        a.den > 0,
                        t.den > 0,
                {
                }
            } else {
                lemma_le_transitive(
                    Ratio { num: (self.t_max_y - FIXED_ONE) as i64, den: self.den_y },
                    a,
                    t,
                );
            }
            if self.den_x > 0 {
                lemma_le_transitive(t, b, self.t_x());
            }
            if self.den_y > 0 {
                lemma_le_transitive(t, b, self.t_y());
            }
            self.lemma_contains(t);
        }
    }
}

/// Two representations of the same ray parameter give the same point.
pub proof fn lemma_same_t_same_point(s: int, d: int, n1: int, d1: int, n2: int, d2: int, bb: int)
    requires
        d1 > 0,
        d2 > 0,
        n1 * d2 == n2 * d1,
        s * d2 + n2 * d == bb * d2,
    ensures
        s * d1 + n1 * d == bb * d1,
{
    let x = s * d1 + n1 * d;
    assert(x * d2 == s * d1 * d2 + n1 * d2 * d) by (nonlinear_arith)
        requires
            x == s * d1 + n1 * d,
    {
    }
    assert(n1 * d2 * d == n2 * d1 * d) by (nonlinear_arith)
        requires
            n1 * d2 == n2 * d1,
    {
    }
    assert(s * d1 * d2 + n2 * d1 * d == d1 * (s * d2 + n2 * d)) by (nonlinear_arith);
    assert(d1 * (s * d2 + n2 * d) == d1 * (bb * d2));
    assert(x * d2 == (bb * d1) * d2) by (nonlinear_arith)
        requires
            x * d2 == d1 * (bb * d2),
    {
    }
    assert(d2 * x == d2 * (bb * d1)) by (nonlinear_arith)
        requires
            x * d2 == (bb * d1) * d2,
    {
    }
    vstd::arithmetic::mul::lemma_mul_equality_converse(d2, x, bb * d1);
}

/// Products of two quantities bounded by the traversal limits fit in `i128` with room to spare.
pub proof fn lemma_small_product(a: int, b: int)
    requires
        0 <= a <= 2 * COORD_LIMIT + unit(),
        0 <= b <= 2 * COORD_LIMIT + unit(),
    ensures
        0 <= a * b <= (2 * COORD_LIMIT + unit()) * (2 * COORD_LIMIT + unit()),
        (2 * COORD_LIMIT + unit()) * (2 * COORD_LIMIT + unit()) < i128::MAX,
{
    vstd::arithmetic::mul::lemma_mul_upper_bound(
        a,
        2 * COORD_LIMIT + unit(),
        b,
        2 * COORD_LIMIT + unit(),
    );
    vstd::arithmetic::mul::lemma_mul_nonnegative(a, b);
    assert(COORD_LIMIT == 1_000_000_000_000_000);
    assert(2000000001000000int * 2000000001000000int == 4000000004000000001000000000000int);
}

/// The starting state of one axis: direction, cell index, numerator and denominator of the
/// first crossing's `t`.
fn axis_start(s: i64, d: i64) -> (r: (i32, i32, i64, i64))
    requires
        coord_ok(s as int),
        coord_ok(s + d),
    ensures
        axis_wf(s as int, d as int, r.0 as int, r.1 as int, r.2 as int, r.3 as int, 0),
{
    proof {
        lemma_axis_first(s as int, d as int);
        lemma_floor_ceil(s as int);
        if d != 0 {
            lemma_axis_inside(s as int, d as int, 0);
        }
    }
    if d >= 0 {
        let f = floor_exec(s);
        (1, f as i32, (f + 1) * FIXED_ONE - s, d)
    } else {
        let c = ceil_exec(s);
        (-1, (c - 1) as i32, s - (c - 1) * FIXED_ONE, -d)
    }
}
} // verus!
