//! Grid traversals that keep separate budgets for the two axes.
pub mod boundary;
