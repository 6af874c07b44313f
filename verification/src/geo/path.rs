//! Open polylines.

use vstd::prelude::*;
use crate::geo::point::V;
use crate::geo::bounds::{hull, Bounds};
use crate::geo::rect::{Bbox, Rect};
use crate::geo::xform::Xform;

verus! {

/// An open polyline: the pen goes down at the first point and visits the
/// others in order.
#[derive(Debug)]
pub struct Path {
    points: Vec<V>,
}

impl View for Path {
    type V = Seq<V>;

    closed spec fn view(&self) -> Seq<V> {
        self.points@
    }
}

/// What each of `paths` stands for, in order.
pub open spec fn views(paths: Seq<Path>) -> Seq<Seq<V>> {
    paths.map_values(|p: Path| p@)
}

impl Clone for Path {
    fn clone(&self) -> (p: Path)
        ensures
            p@ == self@,
    {
        let mut points: Vec<V> = Vec::new();
        let mut i: usize = 0;
        while i < self.points.len()
            invariant
                i <= self.points.len(),
                points@ == self.points@.take(i as int),
            decreases self.points.len() - i,
        {
            points.push(self.points[i]);
            assert(self.points@.take(i + 1) =~= self.points@.take(i as int).push(
                self.points@[i as int],
            ));
            i = i + 1;
        }
        assert(self.points@.take(i as int) =~= self.points@);
        Path { points }
    }
}

impl Path {
    /// The path without a point.
    pub fn new() -> (p: Path)
        ensures
            p@ == Seq::<V>::empty(),
    {
        Path { points: Vec::new() }
    }

    /// The path through `points`, in order.
    pub fn from_points(points: Vec<V>) -> (p: Path)
        ensures
            p@ == points@,
    {
        Path { points }
    }

    /// Adds `v` as the last point.
    pub fn push(&mut self, v: V)
        ensures
            final(self)@ == old(self)@.push(v),
    {
        self.points.push(v);
    }

    /// The points, in the order in which the pen visits them.
    pub fn points(&self) -> (s: &[V])
        ensures
            s@ == self@,
    {
        self.points.as_slice()
    }

    /// Whether the path has no point.
    pub fn is_empty(&self) -> (e: bool)
        ensures
            e == (self@.len() == 0),
    {
        self.points.len() == 0
    }

    /// Moves every point to its image under `xf`.
    pub fn transform(&mut self, xf: &Xform)
        requires
            xf@.lands_all(old(self)@),
        ensures
            final(self)@ == xf@.images(old(self)@),
    {
        let mut i: usize = 0;
        while i < self.points.len()
            invariant
                i <= self.points.len(),
                self.points@.len() == old(self)@.len(),
                xf@.lands_all(old(self)@),
                forall|j: int| 0 <= j < i ==> self.points@[j] == xf@.image(old(self)@[j]),
                forall|j: int| i <= j < self.points@.len() ==> self.points@[j] == old(self)@[j],
            decreases self.points.len() - i,
        {
            assert(xf@.lands(old(self)@[i as int]));
            let q = xf.apply(self.points[i]);
            self.points[i] = q;
            i = i + 1;
        }
        assert(self.points@ =~= xf@.images(old(self)@));
    }
}

impl Bbox for Path {
    open spec fn bounds(&self) -> Option<Bounds> {
        hull(self@)
    }

    fn bbox(&self) -> (r: Option<Rect>) {
        if self.points.len() == 0 {
            return None;
        }
        let mut b = Rect::new(self.points[0]);
        let mut i: usize = 1;
        assert(self.points@.take(1).drop_last() =~= Seq::<V>::empty());
        assert(hull(Seq::<V>::empty()) is None);
        assert(self.points@.take(1).last() == self.points@[0]);
        while i < self.points.len()
            invariant
                1 <= i <= self.points.len(),
                hull(self.points@.take(i as int)) == Some(b@),
            decreases self.points.len() - i,
        {
            b.expand(self.points[i]);
            assert(self.points@.take(i + 1).drop_last() =~= self.points@.take(i as int));
            i = i + 1;
        }
        assert(self.points@.take(i as int) =~= self.points@);
        Some(b)
    }
}

} // verus!
