# fso_los

Line-of-sight building blocks for free-space-optics links over gridded height maps, written in
Verus.

- `src/` is the verified library: exact grid traversals of rays (which cell boundaries a ray
  crosses, in which order, at which ray parameter `t`, and which cells it passes through),
  the crossings of a ray that lie inside given bounds, row-major maps and matrices with their
  max-reduction and chunk maxima, tile coordinates, regions and tile file names, and the pairs
  of a node list. Coordinates are exact fixed-point numbers (`Fixed`, one
  millionth of a grid unit) and ray parameters exact rationals (`Ratio`).
- `app/` is the program around it: command line, node import (CSV), tile download, image
  output, and the floating-point coordinate transforms.
- `tests/` runs the library on concrete rays, maps and regions.

Behaviour chosen where the sources disagree:

- `combined_traversal` reports only the boundaries strictly between the start and the end of a
  ray. Test cases that expect it to be endless and to report a boundary at the start
  (t = 0, 1, 2, ... for the ray (0, 0) + (1, 0)) contradict the edge-case test of
  `combined_pixel_traversal`, which is built on it and must end with every cell inside
  0..2048; the crate keeps the ending traversal.
- `separate_traversal` (`XBoundaryTraversal`, `YBoundaryTraversal`) is endless and starts with
  the boundary at the start when the ray starts on one, as its test expects; `new` returns
  `None` exactly when the ray does not move along the axis.
- `in_bounds_combined_traversal` reports only crossings inside the bounds, with 0 < t < 1, and
  nothing more once the ray has left the bounds, as its documentation says.
- The ray (0, 2048) + (2048, 46852776000) is outside the coordinates the traversals accept
  (`COORD_LIMIT`, 10^9 grid units, which keeps every cell index inside `i32`).
