use vstd::prelude::*;

verus! {

/// A rectangle of tiles, given by the inclusive ranges of tile x- and y-coordinates.
#[derive(Debug, Copy, Clone, PartialEq, Eq, Structural)]
pub struct Region {
    pub x_min: i32,
    pub x_max: i32,
    pub y_min: i32,
    pub y_max: i32,
}

} // verus!
