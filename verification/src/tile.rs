//! Reductions of a tile's height map over square chunks of pixels.
use vstd::prelude::*;
use crate::fixed::Fixed;
use crate::map::{ArrayMap, GridMap};

verus! {

/// The pixel `(i, j)` of chunk `(x_index, y_index)` of size `chunk_size`: the pixel at
/// `(x_index * chunk_size + i, y_index * chunk_size + j)` of the map.
pub open spec fn chunk_item(
    map: ArrayMap<Fixed>,
    chunk_size: int,
    x_index: int,
    y_index: int,
    i: int,
    j: int,
) -> Fixed {
    map.spec_get(x_index * chunk_size + i, y_index * chunk_size + j)
}

/// The chunk `(x_index, y_index)` of size `chunk_size` lies inside the map.
pub open spec fn chunk_in_map(map: ArrayMap<Fixed>, chunk_size: int, x_index: int, y_index: int) -> bool {
    &&& (x_index + 1) * chunk_size <= map.spec_x_len()
    &&& (y_index + 1) * chunk_size <= map.spec_y_len()
}

/// The largest height in the `chunk_size` by `chunk_size` chunk `(x_index, y_index)` of `map`,
/// the chunk whose lowest pixel is `(x_index * chunk_size, y_index * chunk_size)`.
pub fn chunk_max(map: &ArrayMap<Fixed>, chunk_size: usize, x_index: usize, y_index: usize) -> (max: Fixed)
    requires
        map.well_formed(),
        chunk_size > 0,
        chunk_in_map(*map, chunk_size as int, x_index as int, y_index as int),
    ensures
        forall|i: int, j: int|
            0 <= i < chunk_size && 0 <= j < chunk_size ==> #[trigger] chunk_item(
                *map,
                chunk_size as int,
                x_index as int,
                y_index as int,
                i,
                j,
            ).raw <= max.raw,
        exists|i: int, j: int|
            0 <= i < chunk_size && 0 <= j < chunk_size && #[trigger] chunk_item(
                *map,
                chunk_size as int,
                x_index as int,
                y_index as int,
                i,
                j,
            ) == max,
{
    let ghost (cs, xi, yi) = (chunk_size as int, x_index as int, y_index as int);
    let x_len = map.x_len();
    let y_len = map.y_len();
    proof {
        assert(x_index * chunk_size + chunk_size <= map.spec_x_len()) by (nonlinear_arith)
            requires
                (xi + 1) * cs <= map.spec_x_len(),
                cs == chunk_size,
                xi == x_index,
        {
        }
        assert(y_index * chunk_size + chunk_size <= map.spec_y_len()) by (nonlinear_arith)
            requires
                (yi + 1) * cs <= map.spec_y_len(),
                cs == chunk_size,
                yi == y_index,
        {
        }
    }
    let x0 = x_index * chunk_size;
    let y0 = y_index * chunk_size;
    let mut max = map.get(x0, y0);
    assert(chunk_item(*map, cs, xi, yi, 0, 0) == max);
    let mut i: usize = 0;
    while i < chunk_size
        invariant
            map.well_formed(),
            x0 == xi * cs,
            y0 == yi * cs,
            cs == chunk_size,
            x0 + chunk_size <= x_len,
            y0 + chunk_size <= y_len,
            x_len == map.spec_x_len(),
            y_len == map.spec_y_len(),
            0 <= i <= chunk_size,
            forall|a: int, b: int|
                0 <= a < i && 0 <= b < chunk_size ==> #[trigger] chunk_item(
                    *map,
                    cs,
                    xi,
                    yi,
                    a,
                    b,
                ).raw <= max.raw,
            exists|a: int, b: int|
                0 <= a < chunk_size && 0 <= b < chunk_size && #[trigger] chunk_item(
                    *map,
                    cs,
                    xi,
                    yi,
                    a,
                    b,
                ) == max,
        decreases chunk_size - i,
    {
        let mut j: usize = 0;
        while j < chunk_size
            invariant
                map.well_formed(),
                x0 == xi * cs,
                y0 == yi * cs,
                cs == chunk_size,
                x0 + chunk_size <= x_len,
                y0 + chunk_size <= y_len,
                x_len == map.spec_x_len(),
                y_len == map.spec_y_len(),
                0 <= i < chunk_size,
                0 <= j <= chunk_size,
                forall|a: int, b: int|
                    0 <= a < i && 0 <= b < chunk_size ==> #[trigger] chunk_item(
                        *map,
                        cs,
                        xi,
                        yi,
                        a,
                        b,
                    ).raw <= max.raw,
                forall|b: int|
                    0 <= b < j ==> #[trigger] chunk_item(*map, cs, xi, yi, i as int, b).raw
                        <= max.raw,
                exists|a: int, b: int|
                    0 <= a < chunk_size && 0 <= b < chunk_size && #[trigger] chunk_item(
                        *map,
                        cs,
                        xi,
                        yi,
                        a,
                        b,
                    ) == max,
            decreases chunk_size - j,
        {
            let item = map.get(x0 + i, y0 + j);
            assert(chunk_item(*map, cs, xi, yi, i as int, j as int) == item);
            if item.raw > max.raw {
                max = item;
            }
            j = j + 1;
        }
        i = i + 1;
    }
    max
}

} // verus!
