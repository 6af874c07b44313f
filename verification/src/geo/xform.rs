//! The transform that fits one rectangle into another.
//!
//! A [`Xform`] scales every point by the same ratio about a fixed point and
//! then shifts it. The only way to make one is [`Xform::rect_to_rect`], which
//! picks the largest ratio at which a source rectangle still fits into a
//! target rectangle and centres what room is left over.

use vstd::prelude::*;
use crate::geo::point::V;
use crate::geo::arith::floor_div;
use crate::geo::bounds::{greater, hull, is_coord, join, lesser, union_all, Bounds};
use crate::geo::rect::Rect;

verus! {

/// The transform as plain numbers: a point `p` goes to
/// `to + (p - from) * num / den`, each coordinate rounded down to the grid.
pub struct Scaling {
    pub from_x: int,
    pub from_y: int,
    pub to_x: int,
    pub to_y: int,
    pub num: int,
    pub den: int,
}

impl Scaling {
    /// The ratio is not negative and its denominator is positive.
    pub open spec fn wf(self) -> bool {
        0 <= self.num && 0 < self.den
    }

    /// Where the transform takes the x coordinate `x`.
    pub open spec fn apply_x(self, x: int) -> int {
        self.to_x + ((x - self.from_x) * self.num) / self.den
    }

    /// Where the transform takes the y coordinate `y`.
    pub open spec fn apply_y(self, y: int) -> int {
        self.to_y + ((y - self.from_y) * self.num) / self.den
    }

    /// The image of `p` is a point of the grid that a `V` can hold.
    pub open spec fn lands(self, p: V) -> bool {
        is_coord(self.apply_x(p.x as int)) && is_coord(self.apply_y(p.y as int))
    }

    /// The image of `p`, where it lands.
    pub open spec fn image(self, p: V) -> V {
        V { x: self.apply_x(p.x as int) as i32, y: self.apply_y(p.y as int) as i32 }
    }

    /// Every point of `points` lands.
    pub open spec fn lands_all(self, points: Seq<V>) -> bool {
        forall|i: int| 0 <= i < points.len() ==> self.lands(#[trigger] points[i])
    }

    /// The images of `points`, in order.
    pub open spec fn images(self, points: Seq<V>) -> Seq<V> {
        points.map_values(|p: V| self.image(p))
    }

    /// The numerator of the ratio at which `src` fits into `dst`: the target
    /// extent along the axis that runs out of room first.
    pub open spec fn fit_num(src: Bounds, dst: Bounds) -> int {
        if src.width() == 0 && src.height() == 0 {
            1
        } else if src.height() == 0 || (src.width() != 0 && dst.width() * src.height()
            <= dst.height() * src.width()) {
            dst.width()
        } else {
            dst.height()
        }
    }

    /// The denominator of that ratio: the source extent along the same axis.
    pub open spec fn fit_den(src: Bounds, dst: Bounds) -> int {
        if src.width() == 0 && src.height() == 0 {
            1
        } else if src.height() == 0 || (src.width() != 0 && dst.width() * src.height()
            <= dst.height() * src.width()) {
            src.width()
        } else {
            src.height()
        }
    }

    /// The transform that fits `src` into `dst`. `src` is scaled about its
    /// top left corner by the larger of the two ratios at which it still fits
    /// (a side of `src` without extent sets no limit, and a `src` without any
    /// extent is not scaled at all); the scaled rectangle is then placed so
    /// that the room left over in `dst` is the same on both sides, up to one
    /// grid unit.
    pub open spec fn fit(src: Bounds, dst: Bounds) -> Scaling {
        let num = Self::fit_num(src, dst);
        let den = Self::fit_den(src, dst);
        Scaling {
            from_x: src.left,
            from_y: src.top,
            to_x: dst.left + (dst.width() - (src.width() * num) / den) / 2,
            to_y: dst.top + (dst.height() - (src.height() * num) / den) / 2,
            num,
            den,
        }
    }

    /// A transform with a ratio that is not negative keeps points in order
    /// along each axis.
    pub proof fn lemma_monotone(self, a: int, b: int)
        requires
            self.wf(),
            a <= b,
        ensures
            self.apply_x(a) <= self.apply_x(b),
            self.apply_y(a) <= self.apply_y(b),
    {
        assert((a - self.from_x) * self.num <= (b - self.from_x) * self.num) by (nonlinear_arith)
            requires
                a <= b,
                0 <= self.num,
        ;
        assert((a - self.from_y) * self.num <= (b - self.from_y) * self.num) by (nonlinear_arith)
            requires
                a <= b,
                0 <= self.num,
        ;
        vstd::arithmetic::div_mod::lemma_div_is_ordered(
            (a - self.from_x) * self.num,
            (b - self.from_x) * self.num,
            self.den,
        );
        vstd::arithmetic::div_mod::lemma_div_is_ordered(
            (a - self.from_y) * self.num,
            (b - self.from_y) * self.num,
            self.den,
        );
    }

    /// The fitted extents. The ratio is well formed and no larger than the
    /// coordinates allow; the scaled source is no wider and no higher than
    /// the target; and along the axis that set the ratio it is exactly as
    /// long as the target.
    pub proof fn lemma_fit_extents(src: Bounds, dst: Bounds)
        requires
            src.wf(),
            dst.wf(),
        ensures
            Self::fit(src, dst).wf(),
            0 <= (src.width() * Self::fit_num(src, dst)) / Self::fit_den(src, dst) <= dst.width(),
            0 <= (src.height() * Self::fit_num(src, dst)) / Self::fit_den(src, dst)
                <= dst.height(),
            src.width() > 0 || src.height() > 0 ==> (src.width() * Self::fit_num(src, dst))
                / Self::fit_den(src, dst) == dst.width() || (src.height() * Self::fit_num(
                src,
                dst,
            )) / Self::fit_den(src, dst) == dst.height(),
            Self::fit_den(src, dst) <= greater(1, greater(src.width(), src.height())),
            Self::fit_num(src, dst) <= greater(1, greater(dst.width(), dst.height())),
    {
        let sw = src.width();
        let sh = src.height();
        let dw = dst.width();
        let dh = dst.height();
        let num = Self::fit_num(src, dst);
        let den = Self::fit_den(src, dst);
        vstd::arithmetic::div_mod::lemma_div_basics_1(den);
        if sw == 0 && sh == 0 {
            assert(sw * num == 0 && sh * num == 0) by (nonlinear_arith)
                requires
                    sw == 0,
                    sh == 0,
            ;
        } else if sh == 0 || (sw != 0 && dw * sh <= dh * sw) {
            // The width sets the ratio dw / sw.
            vstd::arithmetic::div_mod::lemma_div_multiples_vanish(dw, sw);
            vstd::arithmetic::div_mod::lemma_div_multiples_vanish(dh, sw);
            assert(0 <= sh * dw <= sw * dh) by (nonlinear_arith)
                requires
                    0 <= sh,
                    0 <= dw,
                    0 <= dh,
                    0 < sw,
                    sh == 0 || dw * sh <= dh * sw,
            ;
            vstd::arithmetic::div_mod::lemma_div_is_ordered(0, sh * dw, sw);
            vstd::arithmetic::div_mod::lemma_div_is_ordered(sh * dw, sw * dh, sw);
            assert((sw * num) / den == dw);
            assert(0 <= (sh * num) / den <= dh);
        } else {
            // The height sets the ratio dh / sh.
            vstd::arithmetic::div_mod::lemma_div_multiples_vanish(dh, sh);
            vstd::arithmetic::div_mod::lemma_div_multiples_vanish(dw, sh);
            assert(0 <= sw * dh <= sh * dw) by (nonlinear_arith)
                requires
                    0 <= sw,
                    0 <= dw,
                    0 <= dh,
                    0 < sh,
                    sw == 0 || dw * sh > dh * sw,
            ;
            vstd::arithmetic::div_mod::lemma_div_is_ordered(0, sw * dh, sh);
            vstd::arithmetic::div_mod::lemma_div_is_ordered(sw * dh, sh * dw, sh);
            assert((sh * num) / den == dh);
            assert(0 <= (sw * num) / den <= dw);
        }
    }

    /// Fitting `src` into `dst` takes every point of `src` to a point of
    /// `dst`.
    pub proof fn lemma_fit_inscribes(src: Bounds, dst: Bounds, p: V)
        requires
            src.wf(),
            dst.wf(),
            src.contains(p),
        ensures
            dst.left <= Self::fit(src, dst).apply_x(p.x as int) <= dst.right,
            dst.top <= Self::fit(src, dst).apply_y(p.y as int) <= dst.bottom,
            dst.representable() ==> Self::fit(src, dst).lands(p) && dst.contains(
                Self::fit(src, dst).image(p),
            ),
    {
        let f = Self::fit(src, dst);
        Self::lemma_fit_extents(src, dst);
        Self::lemma_fit_corners(src, dst);
        f.lemma_monotone(src.left, p.x as int);
        f.lemma_monotone(p.x as int, src.right);
        f.lemma_monotone(src.top, p.y as int);
        f.lemma_monotone(p.y as int, src.bottom);
    }

    /// Where fitting takes the corners of `src`: to a rectangle inside `dst`
    /// that has the same room to its left as to its right and the same room
    /// above as below, up to one grid unit, and that reaches from edge to
    /// opposite edge of `dst` along one axis at least, unless `src` has no
    /// extent at all.
    pub proof fn lemma_fit_corners(src: Bounds, dst: Bounds)
        requires
            src.wf(),
            dst.wf(),
        ensures
            ({
                let f = Self::fit(src, dst);
                let left = f.apply_x(src.left);
                let right = f.apply_x(src.right);
                let top = f.apply_y(src.top);
                let bottom = f.apply_y(src.bottom);
                &&& dst.left <= left <= right <= dst.right
                &&& dst.top <= top <= bottom <= dst.bottom
                &&& 0 <= (dst.right - right) - (left - dst.left) <= 1
                &&& 0 <= (dst.bottom - bottom) - (top - dst.top) <= 1
                &&& src.width() > 0 || src.height() > 0 ==> (left == dst.left && right
                    == dst.right) || (top == dst.top && bottom == dst.bottom)
            }),
    {
        let f = Self::fit(src, dst);
        Self::lemma_fit_extents(src, dst);
        assert((src.left - f.from_x) * f.num == 0) by (nonlinear_arith)
            requires
                src.left == f.from_x,
        ;
        assert((src.top - f.from_y) * f.num == 0) by (nonlinear_arith)
            requires
                src.top == f.from_y,
        ;
        assert(0int / f.den == 0) by {
            vstd::arithmetic::div_mod::lemma_div_basics_1(f.den);
        }
    }
}

impl Scaling {
    /// The rectangle between the images of the corners of `b`.
    pub open spec fn image_of(self, b: Bounds) -> Bounds {
        Bounds {
            left: self.apply_x(b.left),
            top: self.apply_y(b.top),
            right: self.apply_x(b.right),
            bottom: self.apply_y(b.bottom),
        }
    }

    /// The image of a rectangle that may be absent.
    pub open spec fn image_of_opt(self, b: Option<Bounds>) -> Option<Bounds> {
        match b {
            Some(x) => Some(self.image_of(x)),
            None => None,
        }
    }

    /// A transform that keeps points in order takes the smaller of two
    /// coordinates to the smaller of their images, and the larger to the
    /// larger.
    proof fn lemma_extremes(self, a: int, b: int)
        requires
            self.wf(),
        ensures
            self.apply_x(lesser(a, b)) == lesser(
                self.apply_x(a),
                self.apply_x(b),
            ),
            self.apply_x(greater(a, b)) == greater(self.apply_x(a), self.apply_x(b)),
            self.apply_y(lesser(a, b)) == lesser(
                self.apply_y(a),
                self.apply_y(b),
            ),
            self.apply_y(greater(a, b)) == greater(self.apply_y(a), self.apply_y(b)),
    {
        if a <= b {
            self.lemma_monotone(a, b);
        } else {
            self.lemma_monotone(b, a);
        }
    }

    /// The image of a union is the union of the images.
    pub proof fn lemma_image_union(self, a: Bounds, b: Bounds)
        requires
            self.wf(),
        ensures
            self.image_of(a.union(b)) == self.image_of(a).union(self.image_of(b)),
    {
        self.lemma_extremes(a.left, b.left);
        self.lemma_extremes(a.top, b.top);
        self.lemma_extremes(a.right, b.right);
        self.lemma_extremes(a.bottom, b.bottom);
    }

    /// The same for rectangles that may be absent.
    pub proof fn lemma_image_join(self, a: Option<Bounds>, b: Option<Bounds>)
        requires
            self.wf(),
        ensures
            self.image_of_opt(join(a, b)) == join(self.image_of_opt(a), self.image_of_opt(b)),
    {
        if a is Some && b is Some {
            self.lemma_image_union(a->Some_0, b->Some_0);
        }
    }

    /// The rectangle around the images of points is the image of the
    /// rectangle around the points.
    pub proof fn lemma_hull_of_images(self, points: Seq<V>)
        requires
            self.wf(),
            self.lands_all(points),
        ensures
            hull(self.images(points)) == self.image_of_opt(hull(points)),
        decreases points.len(),
    {
        let images = self.images(points);
        if points.len() > 0 {
            let front = points.drop_last();
            let p = points.last();
            assert(self.lands(points[points.len() - 1]));
            assert forall|i: int| 0 <= i < front.len() implies self.lands(#[trigger] front[i]) by {
                assert(front[i] == points[i]);
            }
            self.lemma_hull_of_images(front);
            assert(images.drop_last() =~= self.images(front));
            assert(images.last() == self.image(p));
            match hull(front) {
                None => {},
                Some(b) => {
                    self.lemma_extremes(b.left, p.x as int);
                    self.lemma_extremes(b.top, p.y as int);
                    self.lemma_extremes(b.right, p.x as int);
                    self.lemma_extremes(b.bottom, p.y as int);
                },
            }
        }
    }

    /// The union of the images of rectangles is the image of their union.
    pub proof fn lemma_union_all_of_images(self, boxes: Seq<Option<Bounds>>)
        requires
            self.wf(),
        ensures
            union_all(boxes.map_values(|b: Option<Bounds>| self.image_of_opt(b)))
                == self.image_of_opt(union_all(boxes)),
        decreases boxes.len(),
    {
        let images = boxes.map_values(|b: Option<Bounds>| self.image_of_opt(b));
        if boxes.len() > 0 {
            let front = boxes.drop_last();
            self.lemma_union_all_of_images(front);
            assert(images.drop_last() =~= front.map_values(
                |b: Option<Bounds>| self.image_of_opt(b),
            ));
            self.lemma_image_join(union_all(front), boxes.last());
        }
    }
}

/// A uniform scaling followed by a shift, on the grid of the drawing plane.
pub struct Xform {
    from: V,
    to: V,
    num: u32,
    den: u32,
}

impl View for Xform {
    type V = Scaling;

    closed spec fn view(&self) -> Scaling {
        Scaling {
            from_x: self.from.x as int,
            from_y: self.from.y as int,
            to_x: self.to.x as int,
            to_y: self.to.y as int,
            num: self.num as int,
            den: self.den as int,
        }
    }
}

impl Xform {
    /// The denominator of the ratio is never 0.
    #[verifier::type_invariant]
    spec fn inv(self) -> bool {
        self.den > 0
    }

    /// The transform that fits `src` into `dst`: see [`Scaling::fit`].
    pub fn rect_to_rect(src: &Rect, dst: &Rect) -> (xf: Xform)
        requires
            src@.wf(),
            dst@.wf(),
        ensures
            xf@ == Scaling::fit(src@, dst@),
    {
        let sw: i64 = src.width();
        let sh: i64 = src.height();
        let dw: i64 = dst.width();
        let dh: i64 = dst.height();
        proof {
            src.lemma_representable();
            dst.lemma_representable();
            Scaling::lemma_fit_extents(src@, dst@);
        }
        let width_rules: bool = if sh == 0 {
            true
        } else if sw == 0 {
            false
        } else {
            let a: i128 = dw as i128;
            let b: i128 = sh as i128;
            let c: i128 = dh as i128;
            let d: i128 = sw as i128;
            assert(0 <= a * b <= 0x1_0000_0000 * 0x1_0000_0000) by (nonlinear_arith)
                requires
                    0 <= a <= 0x1_0000_0000,
                    0 <= b <= 0x1_0000_0000,
            ;
            assert(0 <= c * d <= 0x1_0000_0000 * 0x1_0000_0000) by (nonlinear_arith)
                requires
                    0 <= c <= 0x1_0000_0000,
                    0 <= d <= 0x1_0000_0000,
            ;
            a * b <= c * d
        };
        let (num, den): (i64, i64) = if sw == 0 && sh == 0 {
            (1, 1)
        } else if width_rules {
            (dw, sw)
        } else {
            (dh, sh)
        };
        assert(num == Scaling::fit_num(src@, dst@));
        assert(den == Scaling::fit_den(src@, dst@));
        let n: i128 = num as i128;
        let d: i128 = den as i128;
        assert(0 <= (sw as i128) * n <= 0x1_0000_0000 * 0x1_0000_0000) by (nonlinear_arith)
            requires
                0 <= sw <= 0x1_0000_0000,
                0 <= n <= 0x1_0000_0000,
        ;
        assert(0 <= (sh as i128) * n <= 0x1_0000_0000 * 0x1_0000_0000) by (nonlinear_arith)
            requires
                0 <= sh <= 0x1_0000_0000,
                0 <= n <= 0x1_0000_0000,
        ;
        let ew: i128 = ((sw as i128) * n) / d;
        let eh: i128 = ((sh as i128) * n) / d;
        let ox: i128 = (dw as i128 - ew) / 2;
        let oy: i128 = (dh as i128 - eh) / 2;
        let to = V { x: (dst.left() as i128 + ox) as i32, y: (dst.top() as i128 + oy) as i32 };
        Xform { from: src.min(), to, num: num as u32, den: den as u32 }
    }

    /// The image of `p`.
    pub fn apply(&self, p: V) -> (q: V)
        requires
            self@.lands(p),
        ensures
            q == self@.image(p),
    {
        proof {
            use_type_invariant(self);
        }
        let n: i128 = self.num as i128;
        let d: i128 = self.den as i128;
        let dx: i128 = p.x as i128 - self.from.x as i128;
        let dy: i128 = p.y as i128 - self.from.y as i128;
        assert(-0x1_0000_0000 * 0x1_0000_0000 <= dx * n <= 0x1_0000_0000 * 0x1_0000_0000)
            by (nonlinear_arith)
            requires
                -0x1_0000_0000 <= dx <= 0x1_0000_0000,
                0 <= n <= 0x1_0000_0000,
        ;
        assert(-0x1_0000_0000 * 0x1_0000_0000 <= dy * n <= 0x1_0000_0000 * 0x1_0000_0000)
            by (nonlinear_arith)
            requires
                -0x1_0000_0000 <= dy <= 0x1_0000_0000,
                0 <= n <= 0x1_0000_0000,
        ;
        let qx: i128 = floor_div(dx * n, d);
        let qy: i128 = floor_div(dy * n, d);
        V { x: (self.to.x as i128 + qx) as i32, y: (self.to.y as i128 + qy) as i32 }
    }
}

} // verus!
