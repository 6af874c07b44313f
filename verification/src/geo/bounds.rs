//! Rectangles as plain numbers.
//!
//! [`Bounds`] is a rectangle with unbounded integer coordinates. The
//! contracts of [`Rect`](crate::geo::rect::Rect) and of everything that has a
//! bounding box are stated over it, and what holds of unions, hulls and
//! subdivisions is proved here.

use vstd::prelude::*;
use crate::geo::point::V;

verus! {


/// The smaller of two integers.
pub open spec fn lesser(a: int, b: int) -> int {
    if a <= b {
        a
    } else {
        b
    }
}

/// The larger of two integers.
pub open spec fn greater(a: int, b: int) -> int {
    if a >= b {
        a
    } else {
        b
    }
}

/// Whether `n` is a coordinate that a point can hold.
pub open spec fn is_coord(n: int) -> bool {
    i32::MIN <= n <= i32::MAX
}

/// A rectangle given by its four edges, with unbounded coordinates.
pub struct Bounds {
    pub left: int,
    pub top: int,
    pub right: int,
    pub bottom: int,
}

impl Bounds {
    /// The rectangle of no extent at `p`.
    pub open spec fn at(p: V) -> Bounds {
        Bounds { left: p.x as int, top: p.y as int, right: p.x as int, bottom: p.y as int }
    }

    /// The rectangle with (`x0`, `y0`) and (`x1`, `y1`) as opposite corners,
    /// whichever way round they are given.
    pub open spec fn between(x0: int, y0: int, x1: int, y1: int) -> Bounds {
        Bounds {
            left: lesser(x0, x1),
            top: lesser(y0, y1),
            right: greater(x0, x1),
            bottom: greater(y0, y1),
        }
    }

    /// No edge lies beyond its opposite edge.
    pub open spec fn wf(self) -> bool {
        self.left <= self.right && self.top <= self.bottom
    }

    /// All four edges are coordinates that a point can hold.
    pub open spec fn representable(self) -> bool {
        is_coord(self.left) && is_coord(self.top) && is_coord(self.right) && is_coord(self.bottom)
    }

    /// `p` lies inside the rectangle or on its border.
    pub open spec fn contains(self, p: V) -> bool {
        self.left <= p.x <= self.right && self.top <= p.y <= self.bottom
    }

    /// `p` lies inside the rectangle, or on its left or top border: the half
    /// open rectangle, which takes each point between two neighbours once.
    pub open spec fn covers(self, p: V) -> bool {
        self.left <= p.x < self.right && self.top <= p.y < self.bottom
    }

    /// Every edge of `other` lies inside the rectangle or on its border.
    pub open spec fn encloses(self, other: Bounds) -> bool {
        &&& self.left <= other.left
        &&& self.top <= other.top
        &&& other.right <= self.right
        &&& other.bottom <= self.bottom
    }

    /// The rectangle grown as far as it takes to contain `p`.
    pub open spec fn expand(self, p: V) -> Bounds {
        Bounds {
            left: lesser(self.left, p.x as int),
            top: lesser(self.top, p.y as int),
            right: greater(self.right, p.x as int),
            bottom: greater(self.bottom, p.y as int),
        }
    }

    /// The rectangle grown as far as it takes to enclose `other`.
    pub open spec fn union(self, other: Bounds) -> Bounds {
        Bounds {
            left: lesser(self.left, other.left),
            top: lesser(self.top, other.top),
            right: greater(self.right, other.right),
            bottom: greater(self.bottom, other.bottom),
        }
    }

    /// The rectangle with every edge moved outwards by `p`, or inwards by
    /// `-p` where `p` is negative. Nothing stops the edges from crossing.
    pub open spec fn pad(self, p: int) -> Bounds {
        Bounds {
            left: self.left - p,
            top: self.top - p,
            right: self.right + p,
            bottom: self.bottom + p,
        }
    }

    /// The width; negative where the edges are crossed.
    pub open spec fn width(self) -> int {
        self.right - self.left
    }

    /// The height; negative where the edges are crossed.
    pub open spec fn height(self) -> int {
        self.bottom - self.top
    }

    /// Width times height.
    pub open spec fn area(self) -> int {
        self.width() * self.height()
    }

    /// How far `x` lies outside the interval from `lo` to `hi`.
    pub open spec fn excess(lo: int, hi: int, x: int) -> int {
        greater(greater(lo - x, x - hi), 0)
    }

    /// The square of the Euclidean distance from `p` to the nearest point of
    /// the rectangle: the squared excess along x plus the one along y.
    pub open spec fn dist2(self, p: V) -> int {
        let dx = Self::excess(self.left, self.right, p.x as int);
        let dy = Self::excess(self.top, self.bottom, p.y as int);
        dx * dx + dy * dy
    }

    /// The centre, each coordinate rounded down.
    pub open spec fn center(self) -> (int, int) {
        ((self.left + self.right) / 2, (self.top + self.bottom) / 2)
    }

    /// Where the `k`-th of `n` equal cuts falls between `lo` and `hi`, rounded
    /// down to the grid. Cut 0 is `lo` and cut `n` is `hi`.
    pub open spec fn cut(lo: int, hi: int, n: int, k: int) -> int {
        lo + (k * (hi - lo)) / n
    }

    /// The cell in column `c` and row `r` when the rectangle is divided into
    /// `cols` columns and `rows` rows.
    pub open spec fn cell(self, cols: int, rows: int, c: int, r: int) -> Bounds {
        Bounds::between(
            Self::cut(self.left, self.right, cols, c),
            Self::cut(self.top, self.bottom, rows, r),
            Self::cut(self.left, self.right, cols, c + 1),
            Self::cut(self.top, self.bottom, rows, r + 1),
        )
    }
}

/// The rectangle that `Rect::new` on the first point and `expand` on each
/// further point, in order, arrive at; `None` where there is no point.
pub open spec fn hull(points: Seq<V>) -> Option<Bounds>
    decreases points.len(),
{
    if points.len() == 0 {
        None
    } else {
        match hull(points.drop_last()) {
            None => Some(Bounds::at(points.last())),
            Some(b) => Some(b.expand(points.last())),
        }
    }
}

/// The union of two rectangles either of which may be absent. An absent
/// rectangle adds nothing.
pub open spec fn join(a: Option<Bounds>, b: Option<Bounds>) -> Option<Bounds> {
    match (a, b) {
        (None, _) => b,
        (_, None) => a,
        (Some(p), Some(q)) => Some(p.union(q)),
    }
}

/// The union of all the rectangles in `boxes` that are present, taken from
/// left to right; `None` where none is present.
pub open spec fn union_all(boxes: Seq<Option<Bounds>>) -> Option<Bounds>
    decreases boxes.len(),
{
    if boxes.len() == 0 {
        None
    } else {
        join(union_all(boxes.drop_last()), boxes.last())
    }
}

impl Bounds {
    /// Union does not depend on the order of its operands.
    pub proof fn lemma_union_commutative(self, other: Bounds)
        ensures
            self.union(other) == other.union(self),
    {
    }

    /// Union does not depend on how its operands are grouped.
    pub proof fn lemma_union_associative(self, b: Bounds, c: Bounds)
        ensures
            self.union(b).union(c) == self.union(b.union(c)),
    {
    }

    /// The union of a rectangle with itself is that rectangle.
    pub proof fn lemma_union_idempotent(self)
        ensures
            self.union(self) == self,
    {
    }

    /// A union encloses both of its operands, and is the smallest rectangle
    /// that does: whatever encloses both encloses their union.
    pub proof fn lemma_union_least(self, other: Bounds, outer: Bounds)
        ensures
            self.union(other).encloses(self),
            self.union(other).encloses(other),
            outer.encloses(self) && outer.encloses(other) ==> outer.encloses(self.union(other)),
            self.wf() ==> self.union(other).wf(),
    {
    }

    /// Expanding keeps what the rectangle held and takes in the new point.
    pub proof fn lemma_expand_grows(self, p: V)
        ensures
            self.expand(p).encloses(self),
            self.expand(p).contains(p),
            self.contains(p) ==> self.expand(p) == self,
            self.wf() ==> self.expand(p).wf(),
    {
    }

    /// Padding by `p` and then by `-p` gives back the rectangle.
    pub proof fn lemma_pad_inverse(self, p: int)
        ensures
            self.pad(p).pad(-p) == self,
    {
    }

    /// Padding keeps the edges the right way round exactly as long as it does
    /// not take more than the width and the height away.
    pub proof fn lemma_pad_wf(self, p: int)
        requires
            self.wf(),
        ensures
            self.pad(p).wf() <==> self.width() + 2 * p >= 0 && self.height() + 2 * p >= 0,
    {
    }
}

/// Joining optional rectangles does not depend on the order or the grouping
/// of the operands, an absent rectangle changes nothing, and a rectangle
/// joined with itself stays as it is.
pub proof fn lemma_join_laws(a: Option<Bounds>, b: Option<Bounds>, c: Option<Bounds>)
    ensures
        join(a, b) == join(b, a),
        join(join(a, b), c) == join(a, join(b, c)),
        join(a, None) == a,
        join(None, a) == a,
        join(a, a) == a,
{
}

/// The hull of at least one point exists and has its edges the right way
/// round.
pub proof fn lemma_hull_wf(points: Seq<V>)
    ensures
        hull(points) is Some <==> points.len() > 0,
        hull(points) matches Some(b) ==> b.wf() && b.representable(),
    decreases points.len(),
{
    if points.len() > 0 {
        lemma_hull_wf(points.drop_last());
    }
}

/// The hull contains every one of its points.
pub proof fn lemma_hull_contains(points: Seq<V>, i: int)
    requires
        0 <= i < points.len(),
    ensures
        hull(points) matches Some(b) && b.contains(points[i]),
    decreases points.len(),
{
    if i < points.len() - 1 {
        lemma_hull_contains(points.drop_last(), i);
    }
}

/// The hull is the tightest rectangle around its points: every rectangle
/// that contains them all encloses it.
pub proof fn lemma_hull_tightest(points: Seq<V>, outer: Bounds)
    requires
        forall|i: int| 0 <= i < points.len() ==> outer.contains(#[trigger] points[i]),
    ensures
        hull(points) matches Some(b) ==> outer.encloses(b),
    decreases points.len(),
{
    if points.len() > 0 {
        let front = points.drop_last();
        assert forall|i: int| 0 <= i < front.len() implies outer.contains(#[trigger] front[i]) by {
            assert(front[i] == points[i]);
        }
        lemma_hull_tightest(front, outer);
        assert(outer.contains(points[points.len() - 1]));
    }
}

/// The hull does not depend on the order of the points, nor on how often one
/// of them occurs: two sequences that hold the same points have the same
/// hull.
pub proof fn lemma_hull_order_independent(s: Seq<V>, t: Seq<V>)
    requires
        forall|i: int| 0 <= i < s.len() ==> t.contains(#[trigger] s[i]),
        forall|j: int| 0 <= j < t.len() ==> s.contains(#[trigger] t[j]),
    ensures
        hull(s) == hull(t),
{
    lemma_hull_wf(s);
    lemma_hull_wf(t);
    if s.len() == 0 {
        if t.len() > 0 {
            assert(s.contains(t[0]));
        }
    } else if t.len() == 0 {
        assert(t.contains(s[0]));
    } else {
        let a = hull(s)->Some_0;
        let b = hull(t)->Some_0;
        assert forall|i: int| 0 <= i < s.len() implies b.contains(#[trigger] s[i]) by {
            let j = choose|j: int| 0 <= j < t.len() && t[j] == s[i];
            lemma_hull_contains(t, j);
        }
        assert forall|j: int| 0 <= j < t.len() implies a.contains(#[trigger] t[j]) by {
            let i = choose|i: int| 0 <= i < s.len() && s[i] == t[j];
            lemma_hull_contains(s, i);
        }
        lemma_hull_tightest(s, b);
        lemma_hull_tightest(t, a);
    }
}

/// A cut never leaves the interval it divides: cut 0 is its start, cut `n`
/// its end, and the cuts between them lie between the two.
pub proof fn lemma_cut_range(lo: int, hi: int, n: int, k: int)
    requires
        0 < n,
        0 <= k <= n,
    ensures
        Bounds::cut(lo, hi, n, 0) == lo,
        Bounds::cut(lo, hi, n, n) == hi,
        lo <= hi ==> lo <= Bounds::cut(lo, hi, n, k) <= hi,
        hi <= lo ==> hi <= Bounds::cut(lo, hi, n, k) <= lo,
{
    let w = hi - lo;
    assert(0 * w == 0);
    vstd::arithmetic::div_mod::lemma_div_multiples_vanish(w, n);
    assert(n * w == w * n) by (nonlinear_arith);
    if w >= 0 {
        assert(0 <= k * w <= n * w) by (nonlinear_arith)
            requires
                0 <= k <= n,
                0 <= w,
        ;
        vstd::arithmetic::div_mod::lemma_div_is_ordered(0, k * w, n);
        vstd::arithmetic::div_mod::lemma_div_is_ordered(k * w, n * w, n);
    } else {
        assert(n * w <= k * w <= 0) by (nonlinear_arith)
            requires
                0 <= k <= n,
                w < 0,
        ;
        vstd::arithmetic::div_mod::lemma_div_is_ordered(k * w, 0, n);
        vstd::arithmetic::div_mod::lemma_div_is_ordered(n * w, k * w, n);
    }
}

/// Later cuts never fall before earlier ones.
pub proof fn lemma_cut_monotone(lo: int, hi: int, n: int, j: int, k: int)
    requires
        0 < n,
        lo <= hi,
        j <= k,
    ensures
        Bounds::cut(lo, hi, n, j) <= Bounds::cut(lo, hi, n, k),
{
    let w = hi - lo;
    assert(j * w <= k * w) by (nonlinear_arith)
        requires
            j <= k,
            0 <= w,
    ;
    vstd::arithmetic::div_mod::lemma_div_is_ordered(j * w, k * w, n);
}

/// Two neighbouring cuts are a whole share of the interval apart, or one
/// grid unit more.
pub proof fn lemma_cut_step(lo: int, hi: int, n: int, k: int)
    requires
        0 < n,
        lo <= hi,
    ensures
        (hi - lo) / n <= Bounds::cut(lo, hi, n, k + 1) - Bounds::cut(lo, hi, n, k) <= (hi - lo) / n
            + 1,
        (hi - lo) % n == 0 ==> Bounds::cut(lo, hi, n, k + 1) - Bounds::cut(lo, hi, n, k) == (hi
            - lo) / n,
{
    let w = hi - lo;
    let q = w / n;
    let r = w % n;
    let a = (k * w) / n;
    let ra = (k * w) % n;
    vstd::arithmetic::div_mod::lemma_fundamental_div_mod(w, n);
    vstd::arithmetic::div_mod::lemma_mod_bound(w, n);
    vstd::arithmetic::div_mod::lemma_fundamental_div_mod(k * w, n);
    vstd::arithmetic::div_mod::lemma_mod_bound(k * w, n);
    assert((k + 1) * w == k * w + w) by (nonlinear_arith);
    // (k + 1) * w == n * (a + q) + (ra + r), with 0 <= ra + r < 2 * n.
    assert((k + 1) * w == n * (a + q) + (ra + r)) by (nonlinear_arith)
        requires
            (k + 1) * w == k * w + w,
            k * w == n * a + ra,
            w == n * q + r,
    ;
    if ra + r < n {
        vstd::arithmetic::div_mod::lemma_fundamental_div_mod_converse_div(
            (k + 1) * w,
            n,
            a + q,
            ra + r,
        );
    } else {
        assert((k + 1) * w == n * (a + q + 1) + (ra + r - n)) by (nonlinear_arith)
            requires
                (k + 1) * w == n * (a + q) + (ra + r),
        ;
        vstd::arithmetic::div_mod::lemma_fundamental_div_mod_converse_div(
            (k + 1) * w,
            n,
            a + q + 1,
            ra + r - n,
        );
    }
    if r == 0 {
        // Every product k * w is then a multiple of n as well.
        assert(k * w == n * (k * q)) by (nonlinear_arith)
            requires
                w == n * q,
        ;
        vstd::arithmetic::div_mod::lemma_fundamental_div_mod_converse_mod(k * w, n, k * q, 0);
    }
}

/// Searches upwards from cut `j` for the share of the interval that holds
/// `x`.
proof fn lemma_cut_locate_from(lo: int, hi: int, n: int, x: int, j: int) -> (k: int)
    requires
        0 < n,
        0 <= j < n,
        Bounds::cut(lo, hi, n, j) <= x < hi,
    ensures
        j <= k < n,
        Bounds::cut(lo, hi, n, k) <= x < Bounds::cut(lo, hi, n, k + 1),
    decreases n - j,
{
    lemma_cut_range(lo, hi, n, n);
    if x < Bounds::cut(lo, hi, n, j + 1) {
        j
    } else {
        lemma_cut_locate_from(lo, hi, n, x, j + 1)
    }
}

impl Bounds {
    /// With its edges the right way round, a rectangle divides into cells
    /// whose edges are the cuts themselves: each cell has its edges the right
    /// way round, lies inside the rectangle, and shares its right edge with
    /// the left edge of the next cell in its row and its bottom edge with the
    /// top edge of the cell below. The first and last cuts are the edges of
    /// the rectangle.
    pub proof fn lemma_cell_edges(self, cols: int, rows: int, c: int, r: int)
        requires
            self.wf(),
            0 < cols,
            0 < rows,
            0 <= c < cols,
            0 <= r < rows,
        ensures
            self.cell(cols, rows, c, r).left == Self::cut(self.left, self.right, cols, c),
            self.cell(cols, rows, c, r).right == Self::cut(self.left, self.right, cols, c + 1),
            self.cell(cols, rows, c, r).top == Self::cut(self.top, self.bottom, rows, r),
            self.cell(cols, rows, c, r).bottom == Self::cut(self.top, self.bottom, rows, r + 1),
            self.cell(cols, rows, c, r).wf(),
            self.encloses(self.cell(cols, rows, c, r)),
            self.cell(cols, rows, 0, r).left == self.left,
            self.cell(cols, rows, cols - 1, r).right == self.right,
            self.cell(cols, rows, c, 0).top == self.top,
            self.cell(cols, rows, c, rows - 1).bottom == self.bottom,
            c + 1 < cols ==> self.cell(cols, rows, c, r).right == self.cell(
                cols,
                rows,
                c + 1,
                r,
            ).left,
            r + 1 < rows ==> self.cell(cols, rows, c, r).bottom == self.cell(
                cols,
                rows,
                c,
                r + 1,
            ).top,
    {
        lemma_cut_monotone(self.left, self.right, cols, c, c + 1);
        lemma_cut_monotone(self.top, self.bottom, rows, r, r + 1);
        lemma_cut_monotone(self.left, self.right, cols, 0, 1);
        lemma_cut_monotone(self.top, self.bottom, rows, 0, 1);
        lemma_cut_monotone(self.left, self.right, cols, cols - 1, cols);
        lemma_cut_monotone(self.top, self.bottom, rows, rows - 1, rows);
        lemma_cut_range(self.left, self.right, cols, c);
        lemma_cut_range(self.left, self.right, cols, c + 1);
        lemma_cut_range(self.top, self.bottom, rows, r);
        lemma_cut_range(self.top, self.bottom, rows, r + 1);
        if c + 1 < cols {
            lemma_cut_monotone(self.left, self.right, cols, c + 1, c + 2);
        }
        if r + 1 < rows {
            lemma_cut_monotone(self.top, self.bottom, rows, r + 1, r + 2);
        }
    }

    /// The cells leave no gap: a point that the rectangle covers is covered
    /// by the cell in the column and row returned.
    pub proof fn lemma_cells_cover(self, cols: int, rows: int, p: V) -> (at: (int, int))
        requires
            self.wf(),
            0 < cols,
            0 < rows,
            self.covers(p),
        ensures
            0 <= at.0 < cols,
            0 <= at.1 < rows,
            self.cell(cols, rows, at.0, at.1).covers(p),
    {
        lemma_cut_range(self.left, self.right, cols, 0);
        lemma_cut_range(self.top, self.bottom, rows, 0);
        let c = lemma_cut_locate_from(self.left, self.right, cols, p.x as int, 0);
        let r = lemma_cut_locate_from(self.top, self.bottom, rows, p.y as int, 0);
        self.lemma_cell_edges(cols, rows, c, r);
        (c, r)
    }

    /// The cells do not overlap: two cells that cover the same point are the
    /// same cell.
    pub proof fn lemma_cells_disjoint(
        self,
        cols: int,
        rows: int,
        p: V,
        c1: int,
        r1: int,
        c2: int,
        r2: int,
    )
        requires
            self.wf(),
            0 < cols,
            0 < rows,
            0 <= c1 < cols,
            0 <= r1 < rows,
            0 <= c2 < cols,
            0 <= r2 < rows,
            self.cell(cols, rows, c1, r1).covers(p),
            self.cell(cols, rows, c2, r2).covers(p),
        ensures
            c1 == c2,
            r1 == r2,
    {
        self.lemma_cell_edges(cols, rows, c1, r1);
        self.lemma_cell_edges(cols, rows, c2, r2);
        if c1 < c2 {
            lemma_cut_monotone(self.left, self.right, cols, c1 + 1, c2);
        }
        if c2 < c1 {
            lemma_cut_monotone(self.left, self.right, cols, c2 + 1, c1);
        }
        if r1 < r2 {
            lemma_cut_monotone(self.top, self.bottom, rows, r1 + 1, r2);
        }
        if r2 < r1 {
            lemma_cut_monotone(self.top, self.bottom, rows, r2 + 1, r1);
        }
    }

    /// The cells are equal up to the grid: each is a whole share of the width
    /// wide and of the height high, or one unit more, and exactly the share
    /// where the side divides evenly.
    pub proof fn lemma_cell_size(self, cols: int, rows: int, c: int, r: int)
        requires
            self.wf(),
            0 < cols,
            0 < rows,
            0 <= c < cols,
            0 <= r < rows,
        ensures
            self.width() / cols <= self.cell(cols, rows, c, r).width() <= self.width() / cols + 1,
            self.height() / rows <= self.cell(cols, rows, c, r).height() <= self.height() / rows
                + 1,
            self.width() % cols == 0 ==> self.cell(cols, rows, c, r).width() == self.width()
                / cols,
            self.height() % rows == 0 ==> self.cell(cols, rows, c, r).height() == self.height()
                / rows,
    {
        self.lemma_cell_edges(cols, rows, c, r);
        lemma_cut_step(self.left, self.right, cols, c);
        lemma_cut_step(self.top, self.bottom, rows, r);
    }
}

/// Adding one more rectangle to the end of `boxes` joins it to their union.
pub proof fn lemma_union_all_push(boxes: Seq<Option<Bounds>>, last: Option<Bounds>)
    ensures
        union_all(boxes.push(last)) == join(union_all(boxes), last),
{
    assert(boxes.push(last).drop_last() =~= boxes);
}

/// The union of rectangles encloses each of them.
pub proof fn lemma_union_all_encloses(boxes: Seq<Option<Bounds>>, i: int)
    requires
        0 <= i < boxes.len(),
        boxes[i] is Some,
    ensures
        union_all(boxes) matches Some(u) && u.encloses(boxes[i]->Some_0),
    decreases boxes.len(),
{
    if i < boxes.len() - 1 {
        lemma_union_all_encloses(boxes.drop_last(), i);
    }
}

/// The union of rectangles that have their edges the right way round has
/// them the right way round, and it is absent only where all of them are.
pub proof fn lemma_union_all_wf(boxes: Seq<Option<Bounds>>)
    requires
        forall|i: int| 0 <= i < boxes.len() ==> ((#[trigger] boxes[i]) matches Some(b) ==> b.wf()),
    ensures
        union_all(boxes) matches Some(u) ==> u.wf(),
        union_all(boxes) is None ==> forall|i: int| 0 <= i < boxes.len() ==> (#[trigger] boxes[i]) is None,
    decreases boxes.len(),
{
    if boxes.len() > 0 {
        let front = boxes.drop_last();
        assert forall|i: int| 0 <= i < front.len() implies ((#[trigger] front[i]) matches Some(b)
            ==> b.wf()) by {
            assert(front[i] == boxes[i]);
        }
        lemma_union_all_wf(front);
        assert(boxes[boxes.len() - 1] == boxes.last());
        if union_all(boxes) is None {
            assert forall|i: int| 0 <= i < boxes.len() implies (#[trigger] boxes[i]) is None by {
                if i < front.len() {
                    assert(front[i] == boxes[i]);
                }
            }
        }
    }
}

} // verus!
