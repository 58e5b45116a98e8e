//! The Gosper curve as an L-system: symbolic rewriting, a turtle that walks the
//! triangular lattice, and the bounding box of the walk.

pub mod bounds;
pub mod curve;
pub mod rewrite;
pub mod symbol;
pub mod turtle;
