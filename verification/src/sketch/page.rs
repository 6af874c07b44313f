//! Page sizes.

use vstd::prelude::*;

verus! {

/// The size of a page: width and height, in micrometres.
#[derive(Clone, Copy, Debug, PartialEq, Eq, Structural)]
pub struct Page(pub i32, pub i32);

impl Page {
    /// ISO A0, upright.
    pub fn a0() -> (p: Page)
        ensures
            p == Page(841_000, 1_189_000),
    {
        Page(841_000, 1_189_000)
    }

    /// ISO A1, upright.
    pub fn a1() -> (p: Page)
        ensures
            p == Page(594_000, 841_000),
    {
        Page(594_000, 841_000)
    }

    /// ISO A2, upright.
    pub fn a2() -> (p: Page)
        ensures
            p == Page(420_000, 594_000),
    {
        Page(420_000, 594_000)
    }

    /// ISO A3, upright.
    pub fn a3() -> (p: Page)
        ensures
            p == Page(297_000, 420_000),
    {
        Page(297_000, 420_000)
    }

    /// ISO A4, upright.
    pub fn a4() -> (p: Page)
        ensures
            p == Page(210_000, 297_000),
    {
        Page(210_000, 297_000)
    }

    /// ISO A5, upright.
    pub fn a5() -> (p: Page)
        ensures
            p == Page(148_000, 210_000),
    {
        Page(148_000, 210_000)
    }

    /// ISO A6, upright.
    pub fn a6() -> (p: Page)
        ensures
            p == Page(105_000, 148_000),
    {
        Page(105_000, 148_000)
    }
}

} // verus!
