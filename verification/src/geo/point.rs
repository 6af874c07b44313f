//! Positions on the drawing plane.

use vstd::prelude::*;

verus! {

/// A position on the drawing plane. Both coordinates count micrometres; `x`
/// grows to the right and `y` grows downwards.
#[derive(Clone, Copy, Debug, PartialEq, Eq, Structural)]
pub struct V {
    pub x: i32,
    pub y: i32,
}

/// The point at (`x`, `y`).
pub fn v(x: i32, y: i32) -> (p: V)
    ensures
        p.x == x,
        p.y == y,
{
    V { x, y }
}

} // verus!
