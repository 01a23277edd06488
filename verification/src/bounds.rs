use vstd::prelude::*;

verus! {

/// A half-open rectangle of integer grid cells: `min <= x < max`, `min <= y < max`.
#[derive(Debug, Copy, Clone, PartialEq, Eq, Structural)]
pub struct Bounds {
    pub min_x: i32,
    pub min_y: i32,
    pub max_x: i32,
    pub max_y: i32,
}

impl Bounds {
    /// Whether the cell `(x, y)` lies in these bounds.
    pub open spec fn spec_contains(self, x: int, y: int) -> bool {
        self.min_x <= x < self.max_x && self.min_y <= y < self.max_y
    }

    /// Bounds from the origin to `(x_size, y_size)`.
    pub fn origin_rectangle(x_size: i32, y_size: i32) -> (bounds: Self)
        ensures
            bounds == (Bounds { min_x: 0, min_y: 0, max_x: x_size, max_y: y_size }),
    {
        Self { min_x: 0, min_y: 0, max_x: x_size, max_y: y_size }
    }

    /// Square bounds from the origin to `(size, size)`.
    pub fn origin_square(size: i32) -> (bounds: Self)
        ensures
            bounds == (Bounds { min_x: 0, min_y: 0, max_x: size, max_y: size }),
    {
        Self { min_x: 0, min_y: 0, max_x: size, max_y: size }
    }

    /// Whether the cell `(x, y)` lies in these bounds.
    pub fn contains(&self, x: i32, y: i32) -> (result: bool)
        ensures
            result == self.spec_contains(x as int, y as int),
    {
        self.min_x <= x && x < self.max_x && self.min_y <= y && y < self.max_y
    }
}

} // verus!
