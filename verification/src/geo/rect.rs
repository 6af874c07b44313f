//! Axis-aligned bounding rectangles.
//!
//! A [`Rect`] stores its two corners as machine integers. Its contracts are
//! stated over [`Bounds`], the same rectangle with unbounded coordinates, so
//! that they read as plain arithmetic.

use vstd::prelude::*;
use crate::geo::arith::floor_div;
use crate::geo::bounds::{
    is_coord, join, lemma_cut_range, lemma_union_all_push, union_all, Bounds,
};
use crate::geo::point::V;

verus! {

/// An axis-aligned rectangle between two corner points.
///
/// A rectangle made by [`Rect::new`], [`Rect::with_dimensions`],
/// [`Rect::expand`] and [`Rect::union`] never has an edge beyond its opposite
/// edge. [`Rect::pad`] with a negative amount can push the edges past each
/// other; the rectangle is then kept as it is, inverted.
#[derive(Clone, Copy, Debug, PartialEq, Eq, Structural)]
pub struct Rect {
    min: V,
    max: V,
}

impl View for Rect {
    type V = Bounds;

    closed spec fn view(&self) -> Bounds {
        Bounds {
            left: self.min.x as int,
            top: self.min.y as int,
            right: self.max.x as int,
            bottom: self.max.y as int,
        }
    }
}

/// What an optional rectangle stands for.
pub open spec fn opt_bounds(r: Option<Rect>) -> Option<Bounds> {
    match r {
        Some(x) => Some(x@),
        None => None,
    }
}

/// Anything that may report the rectangle it occupies.
pub trait Bbox {
    /// The rectangle occupied; `None` for a shape without a single point.
    spec fn bounds(&self) -> Option<Bounds>;

    /// The smallest rectangle that encloses the shape, or `None` where the
    /// shape is empty and is to be left out of any union.
    fn bbox(&self) -> (r: Option<Rect>)
        ensures
            opt_bounds(r) == self.bounds(),
    ;
}

/// The largest `r` whose square does not exceed `n`.
fn isqrt(n: u128) -> (r: u64)
    requires
        n < 0x4_0000_0000_0000_0000,
    ensures
        r * r <= n < (r + 1) * (r + 1),
{
    let mut lo: u128 = 0;
    let mut hi: u128 = 0x2_0000_0000;
    assert(hi * hi == 0x4_0000_0000_0000_0000) by (nonlinear_arith)
        requires
            hi == 0x2_0000_0000,
    ;
    while hi - lo > 1
        invariant
            lo < hi <= 0x2_0000_0000,
            lo * lo <= n < hi * hi,
        decreases hi - lo,
    {
        let mid: u128 = lo + (hi - lo) / 2;
        assert(mid * mid <= 0x2_0000_0000 * 0x2_0000_0000) by (nonlinear_arith)
            requires
                mid <= 0x2_0000_0000,
        ;
        if mid * mid <= n {
            lo = mid;
        } else {
            hi = mid;
        }
    }
    lo as u64
}

/// The `k`-th of `n` equal cuts between `lo` and `hi`.
fn cut(lo: i32, hi: i32, n: u32, k: u32) -> (x: i32)
    requires
        0 < n,
        k <= n,
    ensures
        x == Bounds::cut(lo as int, hi as int, n as int, k as int),
{
    let w: i128 = hi as i128 - lo as i128;
    let steps: i128 = k as i128;
    assert(-0x1_0000_0000 * 0x1_0000_0000 <= steps * w <= 0x1_0000_0000 * 0x1_0000_0000)
        by (nonlinear_arith)
        requires
            0 <= steps <= 0x1_0000_0000,
            -0x1_0000_0000 <= w <= 0x1_0000_0000,
    ;
    let q: i128 = floor_div(steps * w, n as i128);
    proof {
        lemma_cut_range(lo as int, hi as int, n as int, k as int);
    }
    (lo as i128 + q) as i32
}

impl Rect {
    /// The rectangle of no extent at the point `v`.
    pub fn new(v: V) -> (r: Rect)
        ensures
            r@ == Bounds::at(v),
            r@.wf(),
    {
        Rect { min: v, max: v }
    }

    /// Every rectangle has edges that fit the coordinates of a point.
    pub proof fn lemma_representable(self)
        ensures
            self@.representable(),
    {
    }

    /// The rectangle from `tl` to the point `width` to its right and `height`
    /// below it. Where `width` or `height` is negative the far corner lies to
    /// the left of `tl` or above it, and the rectangle still comes out with
    /// its edges the right way round.
    pub fn with_dimensions(tl: V, width: i64, height: i64) -> (r: Rect)
        requires
            is_coord(tl.x + width),
            is_coord(tl.y + height),
        ensures
            r@ == Bounds::between(tl.x as int, tl.y as int, tl.x + width, tl.y + height),
            r@.wf(),
    {
        let far = V { x: (tl.x as i64 + width) as i32, y: (tl.y as i64 + height) as i32 };
        let mut b = Rect::new(tl);
        b.expand(far);
        b
    }

    /// Moves every edge outwards by `p`; a negative `p` moves them inwards.
    /// Edges that cross stay crossed: the rectangle is not put right again.
    pub fn pad(&mut self, p: i64)
        requires
            old(self)@.pad(p as int).representable(),
        ensures
            final(self)@ == old(self)@.pad(p as int),
    {
        let min = V { x: (self.min.x as i64 - p) as i32, y: (self.min.y as i64 - p) as i32 };
        let max = V { x: (self.max.x as i64 + p) as i32, y: (self.max.y as i64 + p) as i32 };
        self.min = min;
        self.max = max;
    }

    /// A copy with every edge moved outwards by `p`.
    pub fn padded(&self, p: i64) -> (r: Rect)
        requires
            self@.pad(p as int).representable(),
        ensures
            r@ == self@.pad(p as int),
    {
        let mut a = *self;
        a.pad(p);
        a
    }

    /// Grows the rectangle as far as it takes to contain `v`.
    pub fn expand(&mut self, v: V)
        ensures
            final(self)@ == old(self)@.expand(v),
            old(self)@.wf() ==> final(self)@.wf(),
    {
        if v.x < self.min.x {
            self.min.x = v.x;
        }
        if v.y < self.min.y {
            self.min.y = v.y;
        }
        if v.x > self.max.x {
            self.max.x = v.x;
        }
        if v.y > self.max.y {
            self.max.y = v.y;
        }
    }

    /// A copy grown as far as it takes to contain `v`.
    pub fn expanded(&self, v: V) -> (r: Rect)
        ensures
            r@ == self@.expand(v),
            self@.wf() ==> r@.wf(),
    {
        let mut a = *self;
        a.expand(v);
        a
    }

    /// Grows the rectangle as far as it takes to enclose `bbox`.
    pub fn union(&mut self, bbox: &Rect)
        ensures
            final(self)@ == old(self)@.union(bbox@),
            old(self)@.wf() ==> final(self)@.wf(),
    {
        if bbox.min.x < self.min.x {
            self.min.x = bbox.min.x;
        }
        if bbox.min.y < self.min.y {
            self.min.y = bbox.min.y;
        }
        if bbox.max.x > self.max.x {
            self.max.x = bbox.max.x;
        }
        if bbox.max.y > self.max.y {
            self.max.y = bbox.max.y;
        }
    }

    /// How far `x` lies outside the interval from `lo` to `hi`.
    fn excess(lo: i32, hi: i32, x: i32) -> (e: u128)
        ensures
            e == Bounds::excess(lo as int, hi as int, x as int),
            e <= 0xffff_ffff,
    {
        let below: i64 = lo as i64 - x as i64;
        let above: i64 = x as i64 - hi as i64;
        let most: i64 = if below >= above {
            below
        } else {
            above
        };
        if most > 0 {
            most as u128
        } else {
            0
        }
    }

    /// The square of the distance from `v` to the nearest point of the
    /// rectangle; 0 where `v` lies inside it.
    pub fn dist2(&self, v: V) -> (d: u128)
        ensures
            d == self@.dist2(v),
    {
        let dx: u128 = Self::excess(self.min.x, self.max.x, v.x);
        let dy: u128 = Self::excess(self.min.y, self.max.y, v.y);
        assert(dx * dx <= 0xffff_ffff * 0xffff_ffff) by (nonlinear_arith)
            requires
                dx <= 0xffff_ffff,
        ;
        assert(dy * dy <= 0xffff_ffff * 0xffff_ffff) by (nonlinear_arith)
            requires
                dy <= 0xffff_ffff,
        ;
        dx * dx + dy * dy
    }

    /// The distance from `v` to the nearest point of the rectangle, rounded
    /// down to the grid; 0 where `v` lies inside it.
    pub fn dist(&self, v: V) -> (d: u64)
        ensures
            d * d <= self@.dist2(v) < (d + 1) * (d + 1),
    {
        let d2: u128 = self.dist2(v);
        proof {
            let dx = Bounds::excess(self@.left, self@.right, v.x as int);
            let dy = Bounds::excess(self@.top, self@.bottom, v.y as int);
            assert(dx * dx <= 0xffff_ffff * 0xffff_ffff) by (nonlinear_arith)
                requires
                    0 <= dx <= 0xffff_ffff,
            ;
            assert(dy * dy <= 0xffff_ffff * 0xffff_ffff) by (nonlinear_arith)
                requires
                    0 <= dy <= 0xffff_ffff,
            ;
        }
        isqrt(d2)
    }

    /// Half of `s`, rounded towards negative infinity.
    fn half(s: i64) -> (h: i32)
        requires
            2 * i32::MIN <= s <= 2 * i32::MAX,
        ensures
            h == s as int / 2,
    {
        if s >= 0 {
            (s / 2) as i32
        } else {
            let m: i64 = -s;
            (-((m + 1) / 2)) as i32
        }
    }

    /// The centre of the rectangle, each coordinate rounded down to the grid.
    pub fn center(&self) -> (c: V)
        ensures
            (c.x as int, c.y as int) == self@.center(),
    {
        V {
            x: Self::half(self.min.x as i64 + self.max.x as i64),
            y: Self::half(self.min.y as i64 + self.max.y as i64),
        }
    }

    /// Width and height.
    pub fn dimensions(&self) -> (d: (i64, i64))
        ensures
            d.0 == self@.width(),
            d.1 == self@.height(),
    {
        (self.width(), self.height())
    }

    /// The width; negative where the edges are crossed.
    pub fn width(&self) -> (w: i64)
        ensures
            w == self@.width(),
    {
        self.max.x as i64 - self.min.x as i64
    }

    /// The height; negative where the edges are crossed.
    pub fn height(&self) -> (h: i64)
        ensures
            h == self@.height(),
    {
        self.max.y as i64 - self.min.y as i64
    }

    /// Width times height.
    pub fn area(&self) -> (a: i128)
        ensures
            a == self@.area(),
    {
        let w: i128 = self.width() as i128;
        let h: i128 = self.height() as i128;
        assert(-0x1_0000_0000 * 0x1_0000_0000 <= w * h <= 0x1_0000_0000 * 0x1_0000_0000)
            by (nonlinear_arith)
            requires
                -0x1_0000_0000 <= w <= 0x1_0000_0000,
                -0x1_0000_0000 <= h <= 0x1_0000_0000,
        ;
        w * h
    }

    /// The y coordinate of the top edge.
    pub fn top(&self) -> (y: i32)
        ensures
            y == self@.top,
    {
        self.min.y
    }

    /// The x coordinate of the left edge.
    pub fn left(&self) -> (x: i32)
        ensures
            x == self@.left,
    {
        self.min.x
    }

    /// The y coordinate of the bottom edge.
    pub fn bottom(&self) -> (y: i32)
        ensures
            y == self@.bottom,
    {
        self.max.y
    }

    /// The x coordinate of the right edge.
    pub fn right(&self) -> (x: i32)
        ensures
            x == self@.right,
    {
        self.max.x
    }

    /// The corner with the smallest coordinates.
    pub fn min(&self) -> (p: V)
        ensures
            p.x == self@.left,
            p.y == self@.top,
    {
        self.min
    }

    /// The corner with the largest coordinates.
    pub fn max(&self) -> (p: V)
        ensures
            p.x == self@.right,
            p.y == self@.bottom,
    {
        self.max
    }

    /// Divides the rectangle into `xdivs` columns and `ydivs` rows and returns
    /// the cells row by row, each row from left to right. The cells share
    /// their edges and cover the rectangle; where a side does not divide
    /// evenly on the grid, the cells along it differ by one unit at most.
    pub fn subdivide(&self, xdivs: u32, ydivs: u32) -> (cells: Vec<Rect>)
        requires
            xdivs > 0,
            ydivs > 0,
            xdivs * ydivs <= usize::MAX,
        ensures
            cells@.len() == xdivs * ydivs,
            forall|i: int|
                0 <= i < cells@.len() ==> (#[trigger] cells@[i])@ == self@.cell(
                    xdivs as int,
                    ydivs as int,
                    i % (xdivs as int),
                    i / (xdivs as int),
                ),
    {
        let mut cells: Vec<Rect> = Vec::new();
        let mut r: u32 = 0;
        while r < ydivs
            invariant
                xdivs > 0,
                ydivs > 0,
                r <= ydivs,
                cells@.len() == r * xdivs,
                forall|i: int|
                    0 <= i < cells@.len() ==> (#[trigger] cells@[i])@ == self@.cell(
                        xdivs as int,
                        ydivs as int,
                        i % (xdivs as int),
                        i / (xdivs as int),
                    ),
            decreases ydivs - r,
        {
            let top: i32 = cut(self.min.y, self.max.y, ydivs, r);
            let bottom: i32 = cut(self.min.y, self.max.y, ydivs, r + 1);
            let mut c: u32 = 0;
            while c < xdivs
                invariant
                    xdivs > 0,
                    ydivs > 0,
                    r < ydivs,
                    c <= xdivs,
                    top == Bounds::cut(self@.top, self@.bottom, ydivs as int, r as int),
                    bottom == Bounds::cut(self@.top, self@.bottom, ydivs as int, r + 1),
                    cells@.len() == r * xdivs + c,
                    forall|i: int|
                        0 <= i < cells@.len() ==> (#[trigger] cells@[i])@ == self@.cell(
                            xdivs as int,
                            ydivs as int,
                            i % (xdivs as int),
                            i / (xdivs as int),
                        ),
                decreases xdivs - c,
            {
                let left: i32 = cut(self.min.x, self.max.x, xdivs, c);
                let right: i32 = cut(self.min.x, self.max.x, xdivs, c + 1);
                let mut cell = Rect::new(V { x: left, y: top });
                cell.expand(V { x: right, y: bottom });
                proof {
                    let i = r * xdivs + c;
                    vstd::arithmetic::div_mod::lemma_fundamental_div_mod_converse(
                        i,
                        xdivs as int,
                        r as int,
                        c as int,
                    );
                }
                cells.push(cell);
                c = c + 1;
            }
            assert((r + 1) * xdivs == r * xdivs + xdivs) by (nonlinear_arith);
            r = r + 1;
        }
        assert(r * xdivs == xdivs * ydivs) by (nonlinear_arith)
            requires
                r == ydivs,
        ;
        cells
    }
}

/// The rectangles that the items of `items` occupy, in order.
pub open spec fn boxes_of<B: Bbox>(items: Seq<B>) -> Seq<Option<Bounds>> {
    items.map_values(|b: B| b.bounds())
}

/// The union of two rectangles either of which may be absent.
pub(crate) fn merged(a: Option<Rect>, b: Option<Rect>) -> (r: Option<Rect>)
    ensures
        opt_bounds(r) == join(opt_bounds(a), opt_bounds(b)),
{
    match (a, b) {
        (None, _) => b,
        (_, None) => a,
        (Some(p), Some(q)) => {
            let mut u = p;
            u.union(&q);
            Some(u)
        },
    }
}

/// The union of the rectangles of all the items that have one; `None` where
/// `items` is empty or every item in it is.
pub fn bbox_union<B: Bbox>(items: &[B]) -> (r: Option<Rect>)
    ensures
        opt_bounds(r) == union_all(boxes_of(items@)),
{
    let mut acc: Option<Rect> = None;
    let mut i: usize = 0;
    assert(boxes_of(items@.take(0)) =~= Seq::<Option<Bounds>>::empty());
    while i < items.len()
        invariant
            i <= items.len(),
            opt_bounds(acc) == union_all(boxes_of(items@.take(i as int))),
        decreases items.len() - i,
    {
        let b = items[i].bbox();
        proof {
            let seen = boxes_of(items@.take(i as int));
            assert(boxes_of(items@.take(i + 1)) =~= seen.push(items@[i as int].bounds()));
            lemma_union_all_push(seen, items@[i as int].bounds());
        }
        acc = merged(acc, b);
        i = i + 1;
    }
    assert(items@.take(i as int) =~= items@);
    acc
}

impl Bbox for Rect {
    open spec fn bounds(&self) -> Option<Bounds> {
        Some(self@)
    }

    fn bbox(&self) -> (r: Option<Rect>) {
        Some(*self)
    }
}

} // verus!
