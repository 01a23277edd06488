//! Building blocks of line-of-sight checks over gridded height maps: exact traversals of the
//! grid cells and boundaries that a ray passes, two-dimensional maps and matrices of heights,
//! tiles and regions of tiles, and the pairs of a list of nodes.

pub mod fixed;
pub mod bounds;
pub mod ray;
pub mod ray_z;
pub mod grid_steps;
pub mod boundary_traversal;
pub mod traversal;
pub mod thin_combined_traversal;
pub mod combined_traversal;
pub mod in_bounds_combined_traversal;
pub mod separate_traversal;
pub mod pixel_traversal;
pub mod combined_pixel_traversal;
pub mod separate_pixel_traversal;
pub mod map;
pub mod matrix;
pub mod tile;
pub mod tiles;
pub mod download;
pub mod node_pairs;
