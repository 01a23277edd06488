use vstd::prelude::*;
use vstd::std_specs::cmp::PartialEqSpecImpl;
use vstd::std_specs::ops::AddSpecImpl;
use std::ops::Add;

verus! {

/// Number of fixed-point units in one grid unit (one pixel or one tile).
pub const FIXED_ONE: i64 = 1_000_000;

/// Largest magnitude, in fixed-point units, of a coordinate that the traversals accept.
/// It keeps every pixel index inside `i32` and every intermediate product inside `i128`.
pub const COORD_LIMIT: i64 = 1_000_000_000_000_000;

/// An exact fixed-point number: the value `raw / FIXED_ONE`.
#[derive(Debug, Copy, Clone, PartialEq, Eq, Structural)]
pub struct Fixed {
    pub raw: i64,
}

impl Fixed {
    /// The number `raw / FIXED_ONE`.
    pub fn from_raw(raw: i64) -> (f: Fixed)
        ensures
            f.raw == raw,
    {
        Fixed { raw }
    }

    /// The whole number `value`.
    pub fn from_int(value: i32) -> (f: Fixed)
        ensures
            f.raw == value * FIXED_ONE,
    {
        proof {
            assert(value * FIXED_ONE <= 2147483647 * 1000000);
            assert(value * FIXED_ONE >= -2147483648 * 1000000);
        }
        Fixed { raw: (value as i64) * FIXED_ONE }
    }
}

impl Default for Fixed {
    fn default() -> (f: Self)
        ensures
            f.raw == 0,
    {
        Fixed { raw: 0 }
    }
}

impl AddSpecImpl for Fixed {
    open spec fn obeys_add_spec() -> bool {
        true
    }

    open spec fn add_req(self, rhs: Fixed) -> bool {
        i64::MIN <= self.raw + rhs.raw <= i64::MAX
    }

    open spec fn add_spec(self, rhs: Fixed) -> Fixed {
        Fixed { raw: (self.raw + rhs.raw) as i64 }
    }
}

impl Add for Fixed {
    type Output = Fixed;

    fn add(self, rhs: Fixed) -> (sum: Fixed) {
        Fixed { raw: self.raw + rhs.raw }
    }
}

/// An exact rational number `num / den`; the ray parameters `t` of the traversals are of this
/// kind, always with `den > 0` (`Ratio::new` requires it).
///
/// `==` compares by cross-multiplication, `num * other.den == other.num * den`: for positive
/// denominators this is the equality of rational numbers. A value built by hand with `den == 0`
/// is outside that reading: `Ratio { num: 0, den: 0 }` is `==` to every value, so `==` is not
/// transitive once such values take part.
#[derive(Debug, Copy, Clone)]
pub struct Ratio {
    pub num: i64,
    pub den: i64,
}

impl Ratio {
    /// The rational number `num / den`.
    pub fn new(num: i64, den: i64) -> (r: Ratio)
        requires
            den > 0,
        ensures
            r.num == num,
            r.den == den,
    {
        Ratio { num, den }
    }

    /// `self < other` as rational numbers (both denominators positive).
    pub open spec fn lt(self, other: Ratio) -> bool {
        self.num * other.den < other.num * self.den
    }

    /// `self <= other` as rational numbers (both denominators positive).
    pub open spec fn le(self, other: Ratio) -> bool {
        self.num * other.den <= other.num * self.den
    }
}

impl PartialEq for Ratio {
    fn eq(&self, other: &Self) -> (equal: bool) {
        proof {
            lemma_product_fits_i128(self.num as int, other.den as int);
            lemma_product_fits_i128(other.num as int, self.den as int);
        }
        (self.num as i128) * (other.den as i128) == (other.num as i128) * (self.den as i128)
    }
}

impl PartialEqSpecImpl for Ratio {
    open spec fn obeys_eq_spec() -> bool {
        true
    }

    open spec fn eq_spec(&self, other: &Self) -> bool {
        self.num * other.den == other.num * self.den
    }
}

/// The product of two `i64` values fits in `i128`.
pub proof fn lemma_product_fits_i128(a: int, b: int)
    requires
        i64::MIN <= a <= i64::MAX,
        i64::MIN <= b <= i64::MAX,
    ensures
        i128::MIN < a * b <= i128::MAX,
{
    let m: int = 0x8000_0000_0000_0000;
    let aa: int = if a >= 0 { a } else { -a };
    let bb: int = if b >= 0 { b } else { -b };
    assert(aa * bb <= m * m) by {
        vstd::arithmetic::mul::lemma_mul_upper_bound(aa, m, bb, m);
    }
    assert(aa * bb == a * b || aa * bb == -(a * b)) by (nonlinear_arith)
        requires
            aa == a || aa == -a,
            bb == b || bb == -b,
    {
    }
    assert(m * m == 0x4000_0000_0000_0000_0000_0000_0000_0000) by (nonlinear_arith)
        requires
            m == 0x8000_0000_0000_0000,
    {
    }
}

} // verus!
