//! Traversals of the boundaries of one axis only.
pub mod x;
pub mod y;

pub use x::{XBoundaryCrossing, XBoundaryTraversal};

pub use y::{YBoundaryCrossing, YBoundaryTraversal};
