//! Filled shapes.

use vstd::prelude::*;
use crate::geo::path::{views, Path};
use crate::geo::point::V;
use crate::geo::bounds::{hull, union_all, Bounds};
use crate::geo::rect::{bbox_union, boxes_of, Bbox, Rect};
use crate::geo::xform::{Scaling, Xform};

verus! {

/// The union of the hulls of `areas`.
pub open spec fn areas_bounds(areas: Seq<Seq<V>>) -> Option<Bounds> {
    union_all(areas.map_values(|a: Seq<V>| hull(a)))
}

/// Every point of every area lands under `xf`.
pub open spec fn areas_land(xf: Scaling, areas: Seq<Seq<V>>) -> bool {
    forall|i: int| 0 <= i < areas.len() ==> xf.lands_all(#[trigger] areas[i])
}

/// The images of `areas` under `xf`, area by area.
pub open spec fn areas_images(xf: Scaling, areas: Seq<Seq<V>>) -> Seq<Seq<V>> {
    areas.map_values(|a: Seq<V>| xf.images(a))
}

/// The four corners of `b`, clockwise from the top left one.
pub open spec fn outline(b: Bounds) -> Seq<V> {
    seq![
        V { x: b.left as i32, y: b.top as i32 },
        V { x: b.right as i32, y: b.top as i32 },
        V { x: b.right as i32, y: b.bottom as i32 },
        V { x: b.left as i32, y: b.bottom as i32 },
    ]
}

/// A filled shape made of areas, each the closed outline through the points
/// of one path.
#[derive(Debug)]
pub struct Polygon {
    areas: Vec<Path>,
}

impl View for Polygon {
    type V = Seq<Seq<V>>;

    closed spec fn view(&self) -> Seq<Seq<V>> {
        views(self.areas@)
    }
}

impl Clone for Polygon {
    fn clone(&self) -> (p: Polygon)
        ensures
            p@ == self@,
    {
        let mut areas: Vec<Path> = Vec::new();
        let mut i: usize = 0;
        while i < self.areas.len()
            invariant
                i <= self.areas.len(),
                views(areas@) == views(self.areas@.take(i as int)),
            decreases self.areas.len() - i,
        {
            let a = self.areas[i].clone();
            let ghost before = areas@;
            areas.push(a);
            assert(views(areas@) =~= views(before).push(a@));
            assert(views(self.areas@.take(i + 1)) =~= views(self.areas@.take(i as int)).push(
                self.areas@[i as int]@,
            ));
            i = i + 1;
        }
        assert(self.areas@.take(i as int) =~= self.areas@);
        Polygon { areas }
    }
}

impl Polygon {
    /// The polygon without an area.
    pub fn new() -> (p: Polygon)
        ensures
            p@ == Seq::<Seq<V>>::empty(),
    {
        let p = Polygon { areas: Vec::new() };
        assert(p@ =~= Seq::<Seq<V>>::empty());
        p
    }

    /// The polygon made of `areas`, in order.
    pub fn from_areas(areas: Vec<Path>) -> (p: Polygon)
        ensures
            p@ == views(areas@),
    {
        Polygon { areas }
    }

    /// The rectangle `r` as a polygon of one area, through its four corners.
    pub fn from_rect(r: &Rect) -> (p: Polygon)
        ensures
            p@ == seq![outline(r@)],
    {
        let mut area = Path::new();
        area.push(V { x: r.left(), y: r.top() });
        area.push(V { x: r.right(), y: r.top() });
        area.push(V { x: r.right(), y: r.bottom() });
        area.push(V { x: r.left(), y: r.bottom() });
        assert(area@ =~= outline(r@));
        let mut areas: Vec<Path> = Vec::new();
        areas.push(area);
        let p = Polygon { areas };
        assert(p@ =~= seq![outline(r@)]);
        p
    }

    /// The areas, in the order in which they were given.
    pub fn areas(&self) -> (s: &[Path])
        ensures
            views(s@) == self@,
    {
        self.areas.as_slice()
    }

    /// Whether the polygon has no point: it has no area, or none of its
    /// areas has a point.
    pub fn is_empty(&self) -> (e: bool)
        ensures
            e == (forall|i: int| 0 <= i < self@.len() ==> (#[trigger] self@[i]).len() == 0),
    {
        let mut i: usize = 0;
        while i < self.areas.len()
            invariant
                i <= self.areas.len(),
                forall|j: int| 0 <= j < i ==> (#[trigger] self@[j]).len() == 0,
            decreases self.areas.len() - i,
        {
            if !self.areas[i].is_empty() {
                assert(self@[i as int].len() != 0);
                return false;
            }
            i = i + 1;
        }
        true
    }

    /// Moves every point of every area to its image under `xf`.
    pub fn transform(&mut self, xf: &Xform)
        requires
            areas_land(xf@, old(self)@),
        ensures
            final(self)@ == areas_images(xf@, old(self)@),
    {
        let mut i: usize = 0;
        while i < self.areas.len()
            invariant
                i <= self.areas.len(),
                self.areas@.len() == old(self)@.len(),
                areas_land(xf@, old(self)@),
                forall|j: int| 0 <= j < i ==> (#[trigger] self.areas@[j])@ == xf@.images(old(self)@[j]),
                forall|j: int|
                    i <= j < self.areas@.len() ==> (#[trigger] self.areas@[j])@ == old(self)@[j],
            decreases self.areas.len() - i,
        {
            assert(xf@.lands_all(old(self)@[i as int]));
            self.areas[i].transform(xf);
            i = i + 1;
        }
        assert(self@ =~= areas_images(xf@, old(self)@));
    }
}

impl Bbox for Polygon {
    open spec fn bounds(&self) -> Option<Bounds> {
        areas_bounds(self@)
    }

    fn bbox(&self) -> (r: Option<Rect>) {
        assert(boxes_of(self.areas@) =~= self@.map_values(|a: Seq<V>| hull(a)));
        bbox_union(self.areas.as_slice())
    }
}

} // verus!
