//! Points, bounding rectangles and the shapes that are drawn.

pub mod arith;
pub mod bounds;
pub mod geometry;
pub mod path;
pub mod point;
pub mod polygon;
pub mod rect;
pub mod xform;
