//! The shapes of one layer.

use vstd::prelude::*;
use crate::geo::path::{views, Path};
use crate::geo::point::V;
use crate::geo::polygon::{areas_bounds, areas_images, areas_land, outline, Polygon};
use crate::geo::bounds::{
    hull, join, lemma_hull_contains, lemma_hull_wf, lemma_join_laws, lemma_union_all_encloses,
    lemma_union_all_push, lemma_union_all_wf, union_all, Bounds,
};
use crate::geo::rect::{bbox_union, boxes_of, merged, opt_bounds, Bbox, Rect};
use crate::geo::xform::{Scaling, Xform};

verus! {

/// What a [`Geometry`] holds: its polygons, each a sequence of areas, and its
/// paths, each a sequence of points.
pub struct Shapes {
    pub polygons: Seq<Seq<Seq<V>>>,
    pub paths: Seq<Seq<V>>,
}

impl Shapes {
    /// No shape at all.
    pub open spec fn empty() -> Shapes {
        Shapes { polygons: Seq::empty(), paths: Seq::empty() }
    }

    /// The shapes of `self` followed by those of `other`, polygons and paths
    /// each in their own sequence.
    pub open spec fn extend(self, other: Shapes) -> Shapes {
        Shapes { polygons: self.polygons + other.polygons, paths: self.paths + other.paths }
    }

    /// The rectangle of each polygon, in order.
    pub open spec fn polygon_boxes(self) -> Seq<Option<Bounds>> {
        self.polygons.map_values(|p: Seq<Seq<V>>| areas_bounds(p))
    }

    /// The rectangle of each path, in order.
    pub open spec fn path_boxes(self) -> Seq<Option<Bounds>> {
        self.paths.map_values(|p: Seq<V>| hull(p))
    }

    /// The union of the rectangles of all polygons and all paths; `None`
    /// where no shape has a point.
    pub open spec fn bounds(self) -> Option<Bounds> {
        union_all(self.polygon_boxes() + self.path_boxes())
    }

    /// No shape has a point.
    pub open spec fn is_empty(self) -> bool {
        &&& forall|i: int, j: int|
            0 <= i < self.polygons.len() && 0 <= j < self.polygons[i].len()
                ==> (#[trigger] self.polygons[i][j]).len() == 0
        &&& forall|i: int| 0 <= i < self.paths.len() ==> (#[trigger] self.paths[i]).len() == 0
    }

    /// Every point of every shape lands under `xf`.
    pub open spec fn lands(self, xf: Scaling) -> bool {
        &&& forall|i: int| 0 <= i < self.polygons.len() ==> areas_land(xf, #[trigger] self.polygons[i])
        &&& forall|i: int| 0 <= i < self.paths.len() ==> xf.lands_all(#[trigger] self.paths[i])
    }

    /// The images of all shapes under `xf`.
    pub open spec fn images(self, xf: Scaling) -> Shapes {
        Shapes {
            polygons: self.polygons.map_values(|p: Seq<Seq<V>>| areas_images(xf, p)),
            paths: self.paths.map_values(|p: Seq<V>| xf.images(p)),
        }
    }
}

/// What each of `polygons` stands for, in order.
pub open spec fn polygon_views(polygons: Seq<Polygon>) -> Seq<Seq<Seq<V>>> {
    polygons.map_values(|p: Polygon| p@)
}

/// The union of a sequence of rectangles in two parts is the join of the
/// unions of the parts.
pub proof fn lemma_union_all_concat(a: Seq<Option<Bounds>>, b: Seq<Option<Bounds>>)
    ensures
        union_all(a + b) == join(union_all(a), union_all(b)),
    decreases b.len(),
{
    if b.len() == 0 {
        assert(a + b =~= a);
    } else {
        assert((a + b).drop_last() =~= a + b.drop_last());
        lemma_union_all_concat(a, b.drop_last());
        lemma_join_laws(union_all(a), union_all(b.drop_last()), b.last());
    }
}

impl Shapes {
    /// Every point of every shape lies inside `b` or on its border.
    pub open spec fn within(self, b: Bounds) -> bool {
        &&& forall|i: int, j: int, k: int|
            0 <= i < self.polygons.len() && 0 <= j < self.polygons[i].len() && 0 <= k
                < self.polygons[i][j].len() ==> b.contains(#[trigger] self.polygons[i][j][k])
        &&& forall|i: int, k: int|
            0 <= i < self.paths.len() && 0 <= k < self.paths[i].len() ==> b.contains(
                #[trigger] self.paths[i][k],
            )
    }

    /// The rectangle of a geometry has its edges the right way round and
    /// holds every point of every shape; so does every rectangle that
    /// encloses it.
    pub proof fn lemma_bounds_hold(self, outer: Bounds)
        requires
            self.bounds() matches Some(b) && outer.encloses(b),
        ensures
            self.bounds()->Some_0.wf(),
            self.within(outer),
    {
        let boxes = self.polygon_boxes() + self.path_boxes();
        let b = self.bounds()->Some_0;
        assert forall|n: int| 0 <= n < boxes.len() implies ((#[trigger] boxes[n]) matches Some(x)
            ==> x.wf()) by {
            if n < self.polygons.len() {
                let areas = self.polygons[n];
                let hulls = areas.map_values(|a: Seq<V>| hull(a));
                assert forall|j: int| 0 <= j < hulls.len() implies ((#[trigger] hulls[j]) matches Some(
                    x,
                ) ==> x.wf()) by {
                    lemma_hull_wf(areas[j]);
                }
                lemma_union_all_wf(hulls);
            } else {
                lemma_hull_wf(self.paths[n - self.polygons.len()]);
            }
        }
        lemma_union_all_wf(boxes);
        assert forall|i: int, j: int, k: int|
            0 <= i < self.polygons.len() && 0 <= j < self.polygons[i].len() && 0 <= k
                < self.polygons[i][j].len() implies outer.contains(
            #[trigger] self.polygons[i][j][k],
        ) by {
            let areas = self.polygons[i];
            let hulls = areas.map_values(|a: Seq<V>| hull(a));
            lemma_hull_contains(areas[j], k);
            lemma_union_all_encloses(hulls, j);
            assert(boxes[i] == areas_bounds(areas));
            lemma_union_all_encloses(boxes, i);
        }
        assert forall|i: int, k: int|
            0 <= i < self.paths.len() && 0 <= k < self.paths[i].len() implies outer.contains(
            #[trigger] self.paths[i][k],
        ) by {
            lemma_hull_contains(self.paths[i], k);
            assert(boxes[self.polygons.len() + i] == hull(self.paths[i]));
            lemma_union_all_encloses(boxes, self.polygons.len() + i);
        }
    }

    /// Shapes without a rectangle have no point, and so lie inside every
    /// rectangle.
    pub proof fn lemma_empty_within(self, outer: Bounds)
        requires
            self.bounds() is None,
        ensures
            self.within(outer),
    {
        let boxes = self.polygon_boxes() + self.path_boxes();
        assert forall|n: int| 0 <= n < boxes.len() implies ((#[trigger] boxes[n]) matches Some(x)
            ==> x.wf()) by {
            if n < self.polygons.len() {
                let areas = self.polygons[n];
                let hulls = areas.map_values(|a: Seq<V>| hull(a));
                assert forall|j: int| 0 <= j < hulls.len() implies ((#[trigger] hulls[j]) matches Some(
                    x,
                ) ==> x.wf()) by {
                    lemma_hull_wf(areas[j]);
                }
                lemma_union_all_wf(hulls);
            } else {
                lemma_hull_wf(self.paths[n - self.polygons.len()]);
            }
        }
        lemma_union_all_wf(boxes);
        assert forall|i: int, j: int, k: int|
            0 <= i < self.polygons.len() && 0 <= j < self.polygons[i].len() && 0 <= k
                < self.polygons[i][j].len() implies outer.contains(
            #[trigger] self.polygons[i][j][k],
        ) by {
            let areas = self.polygons[i];
            let hulls = areas.map_values(|a: Seq<V>| hull(a));
            assert(boxes[i] is None);
            assert(boxes[i] == areas_bounds(areas));
            assert forall|m: int| 0 <= m < hulls.len() implies ((#[trigger] hulls[m]) matches Some(
                x,
            ) ==> x.wf()) by {
                lemma_hull_wf(areas[m]);
            }
            lemma_union_all_wf(hulls);
            assert(hulls[j] is None);
            lemma_hull_wf(areas[j]);
        }
        assert forall|i: int, k: int|
            0 <= i < self.paths.len() && 0 <= k < self.paths[i].len() implies outer.contains(
            #[trigger] self.paths[i][k],
        ) by {
            assert(boxes[self.polygons.len() + i] is None);
            assert(boxes[self.polygons.len() + i] == hull(self.paths[i]));
            lemma_hull_wf(self.paths[i]);
        }
    }

    /// The rectangle around moved shapes is the image of the rectangle
    /// around the shapes.
    pub proof fn lemma_bounds_of_images(self, xf: Scaling)
        requires
            xf.wf(),
            self.lands(xf),
        ensures
            self.images(xf).bounds() == xf.image_of_opt(self.bounds()),
    {
        let moved = self.images(xf);
        let image = |b: Option<Bounds>| xf.image_of_opt(b);
        assert forall|i: int| 0 <= i < self.polygons.len() implies #[trigger] moved.polygon_boxes()[i]
            == xf.image_of_opt(self.polygon_boxes()[i]) by {
            let areas = self.polygons[i];
            let hulls = areas.map_values(|a: Seq<V>| hull(a));
            assert(areas_land(xf, areas));
            let moved_hulls = areas_images(xf, areas).map_values(|a: Seq<V>| hull(a));
            let hull_images = hulls.map_values(image);
            assert forall|j: int| 0 <= j < areas.len() implies #[trigger] moved_hulls[j]
                == hull_images[j] by {
                assert(xf.lands_all(areas[j]));
                xf.lemma_hull_of_images(areas[j]);
            }
            assert(moved_hulls =~= hull_images);
            xf.lemma_union_all_of_images(hulls);
        }
        assert forall|i: int| 0 <= i < self.paths.len() implies #[trigger] moved.path_boxes()[i]
            == xf.image_of_opt(self.path_boxes()[i]) by {
            assert(xf.lands_all(self.paths[i]));
            xf.lemma_hull_of_images(self.paths[i]);
        }
        let boxes = self.polygon_boxes() + self.path_boxes();
        assert(moved.polygon_boxes() + moved.path_boxes() =~= boxes.map_values(image));
        xf.lemma_union_all_of_images(boxes);
    }

    /// Shapes that lie inside `src` land when `src` is fitted into a
    /// rectangle whose edges are coordinates, and their images lie inside
    /// that rectangle.
    pub proof fn lemma_fit_lands(self, src: Bounds, dst: Bounds)
        requires
            src.wf(),
            dst.wf(),
            dst.representable(),
            self.within(src),
        ensures
            self.lands(Scaling::fit(src, dst)),
            self.images(Scaling::fit(src, dst)).within(dst),
    {
        let xf = Scaling::fit(src, dst);
        assert forall|i: int| 0 <= i < self.polygons.len() implies areas_land(
            xf,
            #[trigger] self.polygons[i],
        ) by {
            assert forall|j: int| 0 <= j < self.polygons[i].len() implies xf.lands_all(
                #[trigger] self.polygons[i][j],
            ) by {
                assert forall|k: int| 0 <= k < self.polygons[i][j].len() implies xf.lands(
                    #[trigger] self.polygons[i][j][k],
                ) by {
                    Scaling::lemma_fit_inscribes(src, dst, self.polygons[i][j][k]);
                }
            }
        }
        assert forall|i: int| 0 <= i < self.paths.len() implies xf.lands_all(
            #[trigger] self.paths[i],
        ) by {
            assert forall|k: int| 0 <= k < self.paths[i].len() implies xf.lands(
                #[trigger] self.paths[i][k],
            ) by {
                Scaling::lemma_fit_inscribes(src, dst, self.paths[i][k]);
            }
        }
        let im = self.images(xf);
        assert forall|i: int, j: int, k: int|
            0 <= i < im.polygons.len() && 0 <= j < im.polygons[i].len() && 0 <= k
                < im.polygons[i][j].len() implies dst.contains(#[trigger] im.polygons[i][j][k]) by {
            Scaling::lemma_fit_inscribes(src, dst, self.polygons[i][j][k]);
        }
        assert forall|i: int, k: int|
            0 <= i < im.paths.len() && 0 <= k < im.paths[i].len() implies dst.contains(
            #[trigger] im.paths[i][k],
        ) by {
            Scaling::lemma_fit_inscribes(src, dst, self.paths[i][k]);
        }
    }
}

/// An unordered collection of polygons and paths: all that is drawn on one
/// layer. Shapes are added and never taken away.
#[derive(Debug)]
pub struct Geometry {
    polygons: Vec<Polygon>,
    paths: Vec<Path>,
}

impl View for Geometry {
    type V = Shapes;

    closed spec fn view(&self) -> Shapes {
        Shapes { polygons: polygon_views(self.polygons@), paths: views(self.paths@) }
    }
}

impl Geometry {
    /// The geometry without a shape.
    pub fn new() -> (g: Geometry)
        ensures
            g@ == Shapes::empty(),
    {
        let g = Geometry { polygons: Vec::new(), paths: Vec::new() };
        assert(g@.polygons =~= Seq::empty());
        assert(g@.paths =~= Seq::empty());
        g
    }

    /// The geometry of `polygons` and no path.
    pub fn from_polygons(polygons: Vec<Polygon>) -> (g: Geometry)
        ensures
            g@ == (Shapes { polygons: polygon_views(polygons@), paths: Seq::empty() }),
    {
        let g = Geometry { polygons, paths: Vec::new() };
        assert(g@.paths =~= Seq::empty());
        g
    }

    /// The geometry of `paths` and no polygon.
    pub fn from_paths(paths: Vec<Path>) -> (g: Geometry)
        ensures
            g@ == (Shapes { polygons: Seq::empty(), paths: views(paths@) }),
    {
        let g = Geometry { polygons: Vec::new(), paths };
        assert(g@.polygons =~= Seq::empty());
        g
    }

    /// Whether nothing would be drawn: every polygon and every path is
    /// without a point.
    pub fn is_empty(&self) -> (e: bool)
        ensures
            e == self@.is_empty(),
    {
        let mut i: usize = 0;
        while i < self.polygons.len()
            invariant
                i <= self.polygons.len(),
                forall|k: int, j: int|
                    0 <= k < i && 0 <= j < self@.polygons[k].len()
                        ==> (#[trigger] self@.polygons[k][j]).len() == 0,
            decreases self.polygons.len() - i,
        {
            if !self.polygons[i].is_empty() {
                let ghost areas = self@.polygons[i as int];
                let ghost j = choose|j: int| 0 <= j < areas.len() && (#[trigger] areas[j]).len() != 0;
                assert(self@.polygons[i as int][j].len() != 0);
                return false;
            }
            i = i + 1;
        }
        let mut i: usize = 0;
        while i < self.paths.len()
            invariant
                i <= self.paths.len(),
                forall|k: int| 0 <= k < i ==> (#[trigger] self@.paths[k]).len() == 0,
            decreases self.paths.len() - i,
        {
            if !self.paths[i].is_empty() {
                assert(self@.paths[i as int].len() != 0);
                return false;
            }
            i = i + 1;
        }
        true
    }

    /// The polygons, in the order in which they were added.
    pub fn polygons(&self) -> (s: &[Polygon])
        ensures
            polygon_views(s@) == self@.polygons,
    {
        self.polygons.as_slice()
    }

    /// The paths, in the order in which they were added.
    pub fn lines(&self) -> (s: &[Path])
        ensures
            views(s@) == self@.paths,
    {
        self.paths.as_slice()
    }

    /// Adds the polygon `p`.
    pub fn push_polygon(&mut self, p: Polygon)
        ensures
            final(self)@ == (Shapes { polygons: old(self)@.polygons.push(p@), ..old(self)@ }),
    {
        self.polygons.push(p);
        assert(self@.polygons =~= old(self)@.polygons.push(p@));
    }

    /// Adds the polygons of `p`, in order.
    pub fn push_polygons(&mut self, p: Vec<Polygon>)
        ensures
            final(self)@ == (Shapes {
                polygons: old(self)@.polygons + polygon_views(p@),
                ..old(self)@
            }),
    {
        let mut rest = p;
        self.polygons.append(&mut rest);
        assert(self@.polygons =~= old(self)@.polygons + polygon_views(p@));
    }

    /// Adds the path `p`.
    pub fn push_path(&mut self, p: Path)
        ensures
            final(self)@ == (Shapes { paths: old(self)@.paths.push(p@), ..old(self)@ }),
    {
        self.paths.push(p);
        assert(self@.paths =~= old(self)@.paths.push(p@));
    }

    /// Adds the paths of `p`, in order.
    pub fn push_paths(&mut self, p: Vec<Path>)
        ensures
            final(self)@ == (Shapes { paths: old(self)@.paths + views(p@), ..old(self)@ }),
    {
        let mut rest = p;
        self.paths.append(&mut rest);
        assert(self@.paths =~= old(self)@.paths + views(p@));
    }

    /// Adds a copy of every shape of `o`; `o` keeps its own.
    pub fn extend(&mut self, o: &Self)
        ensures
            final(self)@ == old(self)@.extend(o@),
    {
        let mut i: usize = 0;
        while i < o.polygons.len()
            invariant
                i <= o.polygons.len(),
                self@.polygons == old(self)@.polygons + o@.polygons.take(i as int),
                self@.paths == old(self)@.paths,
            decreases o.polygons.len() - i,
        {
            let p = o.polygons[i].clone();
            let ghost before = self@.polygons;
            self.polygons.push(p);
            assert(self@.polygons =~= before.push(p@));
            assert(o@.polygons.take(i + 1) =~= o@.polygons.take(i as int).push(
                o@.polygons[i as int],
            ));
            assert(self@.polygons =~= old(self)@.polygons + o@.polygons.take(i + 1));
            i = i + 1;
        }
        assert(o@.polygons.take(i as int) =~= o@.polygons);
        let mut i: usize = 0;
        while i < o.paths.len()
            invariant
                i <= o.paths.len(),
                self@.polygons == old(self)@.polygons + o@.polygons,
                self@.paths == old(self)@.paths + o@.paths.take(i as int),
            decreases o.paths.len() - i,
        {
            let p = o.paths[i].clone();
            let ghost before = self@.paths;
            self.paths.push(p);
            assert(self@.paths =~= before.push(p@));
            assert(o@.paths.take(i + 1) =~= o@.paths.take(i as int).push(o@.paths[i as int]));
            assert(self@.paths =~= old(self)@.paths + o@.paths.take(i + 1));
            i = i + 1;
        }
        assert(o@.paths.take(i as int) =~= o@.paths);
    }

    /// The smallest rectangle around all polygons and all paths, or `None`
    /// where no shape has a point.
    pub fn bbox(&self) -> (r: Option<Rect>)
        ensures
            opt_bounds(r) == self@.bounds(),
    {
        let mut acc: Option<Rect> = None;
        let mut i: usize = 0;
        assert(self@.polygon_boxes().take(0) =~= Seq::empty());
        while i < self.polygons.len()
            invariant
                i <= self.polygons.len(),
                opt_bounds(acc) == union_all(self@.polygon_boxes().take(i as int)),
            decreases self.polygons.len() - i,
        {
            let b = self.polygons[i].bbox();
            proof {
                let seen = self@.polygon_boxes().take(i as int);
                assert(self@.polygon_boxes().take(i + 1) =~= seen.push(opt_bounds(b)));
                lemma_union_all_push(seen, opt_bounds(b));
            }
            acc = merged(acc, b);
            i = i + 1;
        }
        assert(self@.polygon_boxes().take(i as int) =~= self@.polygon_boxes());
        let mut i: usize = 0;
        assert(self@.polygon_boxes() + self@.path_boxes().take(0) =~= self@.polygon_boxes());
        while i < self.paths.len()
            invariant
                i <= self.paths.len(),
                opt_bounds(acc) == union_all(
                    self@.polygon_boxes() + self@.path_boxes().take(i as int),
                ),
            decreases self.paths.len() - i,
        {
            let b = self.paths[i].bbox();
            proof {
                let seen = self@.polygon_boxes() + self@.path_boxes().take(i as int);
                assert(self@.polygon_boxes() + self@.path_boxes().take(i + 1) =~= seen.push(
                    opt_bounds(b),
                ));
                lemma_union_all_push(seen, opt_bounds(b));
            }
            acc = merged(acc, b);
            i = i + 1;
        }
        assert(self@.path_boxes().take(i as int) =~= self@.path_boxes());
        acc
    }

    /// Moves every point of every shape to its image under `xf`.
    pub fn transform(&mut self, xf: &Xform)
        requires
            old(self)@.lands(xf@),
        ensures
            final(self)@ == old(self)@.images(xf@),
    {
        let mut i: usize = 0;
        while i < self.polygons.len()
            invariant
                i <= self.polygons.len(),
                self.polygons@.len() == old(self)@.polygons.len(),
                self@.paths == old(self)@.paths,
                old(self)@.lands(xf@),
                forall|j: int|
                    0 <= j < i ==> (#[trigger] self.polygons@[j])@ == areas_images(
                        xf@,
                        old(self)@.polygons[j],
                    ),
                forall|j: int|
                    i <= j < self.polygons@.len() ==> (#[trigger] self.polygons@[j])@ == old(
                        self,
                    )@.polygons[j],
            decreases self.polygons.len() - i,
        {
            assert(areas_land(xf@, old(self)@.polygons[i as int]));
            self.polygons[i].transform(xf);
            i = i + 1;
        }
        let mut i: usize = 0;
        while i < self.paths.len()
            invariant
                i <= self.paths.len(),
                self.paths@.len() == old(self)@.paths.len(),
                self@.polygons == old(self)@.images(xf@).polygons,
                old(self)@.lands(xf@),
                forall|j: int|
                    0 <= j < i ==> (#[trigger] self.paths@[j])@ == xf@.images(old(self)@.paths[j]),
                forall|j: int|
                    i <= j < self.paths@.len() ==> (#[trigger] self.paths@[j])@ == old(
                        self,
                    )@.paths[j],
            decreases self.paths.len() - i,
        {
            assert(xf@.lands_all(old(self)@.paths[i as int]));
            self.paths[i].transform(xf);
            i = i + 1;
        }
        assert(self@.paths =~= old(self)@.images(xf@).paths);
    }
}

impl Bbox for Geometry {
    open spec fn bounds(&self) -> Option<Bounds> {
        self@.bounds()
    }

    fn bbox(&self) -> (r: Option<Rect>) {
        proof {
            assert(boxes_of(self.polygons@) =~= self@.polygon_boxes());
            assert(boxes_of(self.paths@) =~= self@.path_boxes());
            lemma_union_all_concat(self@.polygon_boxes(), self@.path_boxes());
        }
        match (bbox_union(self.polygons.as_slice()), bbox_union(self.paths.as_slice())) {
            (None, None) => None,
            (Some(b), None) | (None, Some(b)) => Some(b),
            (Some(b1), Some(b2)) => {
                let mut b1 = b1;
                b1.union(&b2);
                Some(b1)
            },
        }
    }
}

impl vstd::std_specs::convert::FromSpecImpl<Polygon> for Geometry {
    open spec fn obeys_from_spec() -> bool {
        false
    }

    open spec fn from_spec(p: Polygon) -> Geometry {
        arbitrary()
    }
}

impl From<Polygon> for Geometry {
    fn from(p: Polygon) -> (g: Geometry)
        ensures
            g@ == (Shapes { polygons: seq![p@], paths: Seq::empty() }),
    {
        let mut g = Geometry::new();
        g.push_polygon(p);
        assert(g@.polygons =~= seq![p@]);
        g
    }
}

impl vstd::std_specs::convert::FromSpecImpl<Path> for Geometry {
    open spec fn obeys_from_spec() -> bool {
        false
    }

    open spec fn from_spec(p: Path) -> Geometry {
        arbitrary()
    }
}

impl From<Path> for Geometry {
    fn from(p: Path) -> (g: Geometry)
        ensures
            g@ == (Shapes { polygons: Seq::empty(), paths: seq![p@] }),
    {
        let mut g = Geometry::new();
        g.push_path(p);
        assert(g@.paths =~= seq![p@]);
        g
    }
}

impl vstd::std_specs::convert::FromSpecImpl<Rect> for Geometry {
    open spec fn obeys_from_spec() -> bool {
        false
    }

    open spec fn from_spec(r: Rect) -> Geometry {
        arbitrary()
    }
}

impl From<Rect> for Geometry {
    fn from(r: Rect) -> (g: Geometry)
        ensures
            g@ == (Shapes { polygons: seq![seq![outline(r@)]], paths: Seq::empty() }),
    {
        Geometry::from(Polygon::from_rect(&r))
    }
}

} // verus!
