//! One drawing surface of the canvas, with its pen and fill.

use vstd::prelude::*;
use vstd::string::*;
use crate::geo::geometry::{Geometry, Shapes};
use crate::geo::rect::{opt_bounds, Rect};
use crate::geo::xform::Xform;
use crate::sketch::svg::{polygons_text, polylines_text, push_polygons, push_polylines};
use crate::sketch::text::{mm, push_mm, push_signed, signed};

verus! {

/// What a [`Layer`] holds: its shapes, its fill and stroke colours as they
/// go into the document, and the width of its pen in micrometres.
pub struct LayerView {
    pub geo: Shapes,
    pub fill: Seq<char>,
    pub stroke: Seq<char>,
    pub pen_width: int,
}

impl LayerView {
    /// The layer that a canvas makes when one is asked for that it does not
    /// have yet: no shape, no fill, a black stroke and a pen of 0.2 mm.
    pub open spec fn fresh() -> LayerView {
        LayerView { geo: Shapes::empty(), fill: "none"@, stroke: "black"@, pen_width: 200 }
    }

    /// Whether the layer goes into the document: it does as soon as it holds
    /// a polygon or a path, with or without points.
    pub open spec fn is_drawn(self) -> bool {
        self.geo.polygons.len() > 0 || self.geo.paths.len() > 0
    }

    /// The layer as a group element under the number `id`: its paths, then
    /// its polygons. Nothing for a layer that is not drawn.
    pub open spec fn text(self, id: int) -> Seq<char> {
        if self.is_drawn() {
            self.open_tag(id) + polylines_text(self.geo.paths) + polygons_text(self.geo.polygons)
                + "</g>\n"@
        } else {
            Seq::empty()
        }
    }

    /// The opening tag of the group, on a line of its own: the number of the
    /// layer, its fill, its stroke and the width of its pen in millimetres.
    pub open spec fn open_tag(self, id: int) -> Seq<char> {
        "<g id=\"layer"@ + signed(id) + "\" fill=\""@ + self.fill + "\" stroke=\""@
            + self.stroke + "\" stroke-width=\""@ + mm(self.pen_width) + "\">\n"@
    }
}

/// A drawing surface: shapes that are drawn with one pen and one fill.
pub struct Layer {
    geo: Geometry,
    fill: String,
    stroke: String,
    pen_width: u32,
}

impl View for Layer {
    type V = LayerView;

    closed spec fn view(&self) -> LayerView {
        LayerView {
            geo: self.geo@,
            fill: self.fill@,
            stroke: self.stroke@,
            pen_width: self.pen_width as int,
        }
    }
}

impl Default for Layer {
    fn default() -> (l: Layer)
        ensures
            l@ == LayerView::fresh(),
    {
        Layer {
            geo: Geometry::new(),
            fill: "none".to_owned(),
            stroke: "black".to_owned(),
            pen_width: 200,
        }
    }
}

impl Layer {
    /// Sets the fill colour, as SVG spells it.
    pub fn with_fill(&mut self, fill: &str) -> (r: &mut Self)
        ensures
            r@ == (LayerView { fill: fill@, ..old(self)@ }),
            *final(self) == *final(r),
    {
        self.fill = fill.to_owned();
        self
    }

    /// Sets the stroke colour, as SVG spells it.
    pub fn with_stroke(&mut self, stroke: &str) -> (r: &mut Self)
        ensures
            r@ == (LayerView { stroke: stroke@, ..old(self)@ }),
            *final(self) == *final(r),
    {
        self.stroke = stroke.to_owned();
        self
    }

    /// Sets the width of the pen, in micrometres.
    pub fn with_pen_width(&mut self, pen_width: u32) -> (r: &mut Self)
        ensures
            r@ == (LayerView { pen_width: pen_width as int, ..old(self)@ }),
            *final(self) == *final(r),
    {
        self.pen_width = pen_width;
        self
    }

    /// The shapes on the layer.
    pub fn geo(&self) -> (g: &Geometry)
        ensures
            g@ == self@.geo,
    {
        &self.geo
    }

    /// Adds a copy of the shapes of `g`.
    pub(crate) fn add(&mut self, g: &Geometry)
        ensures
            final(self)@ == (LayerView { geo: old(self)@.geo.extend(g@), ..old(self)@ }),
    {
        self.geo.extend(g);
    }

    /// Moves every shape to its image under `xf`.
    pub(crate) fn transform(&mut self, xf: &Xform)
        requires
            old(self)@.geo.lands(xf@),
        ensures
            final(self)@ == (LayerView { geo: old(self)@.geo.images(xf@), ..old(self)@ }),
    {
        self.geo.transform(xf);
    }

    /// The smallest rectangle around the shapes of the layer.
    pub(crate) fn bbox(&self) -> (r: Option<Rect>)
        ensures
            opt_bounds(r) == self@.geo.bounds(),
    {
        self.geo.bbox()
    }

    /// Appends the opening tag of the group under the number `id`.
    fn push_open_tag(&self, out: &mut String, id: i32)
        ensures
            final(out)@ == old(out)@ + self@.open_tag(id as int),
    {
        out.append("<g id=\"layer");
        push_signed(out, id as i64);
        out.append("\" fill=\"");
        out.append(self.fill.as_str());
        let ghost half = out@;
        assert(half =~= old(out)@ + ("<g id=\"layer"@ + signed(id as int) + "\" fill=\""@
            + self@.fill));
        out.append("\" stroke=\"");
        out.append(self.stroke.as_str());
        out.append("\" stroke-width=\"");
        push_mm(out, self.pen_width as i64);
        out.append("\">\n");
        assert(out@ =~= half + ("\" stroke=\""@ + self@.stroke + "\" stroke-width=\""@ + mm(
            self@.pen_width,
        ) + "\">\n"@));
        assert(out@ =~= old(out)@ + self@.open_tag(id as int));
    }

    /// Appends the group element of the layer under the number `id`.
    pub(crate) fn push_text(&self, out: &mut String, id: i32)
        ensures
            final(out)@ == old(out)@ + self@.text(id as int),
    {
        let polygons = self.geo.polygons();
        let paths = self.geo.lines();
        if polygons.len() == 0 && paths.len() == 0 {
            assert(out@ =~= old(out)@ + self@.text(id as int));
            return ;
        }
        self.push_open_tag(out, id);
        let ghost a = out@;
        push_polylines(out, paths);
        let ghost b = out@;
        push_polygons(out, polygons);
        let ghost c = out@;
        out.append("</g>\n");
        assert(out@ =~= old(out)@ + self@.text(id as int)) by {
            assert(a == old(out)@ + self@.open_tag(id as int));
            assert(b == a + polylines_text(self@.geo.paths));
            assert(c == b + polygons_text(self@.geo.polygons));
            assert(out@ == c + "</g>\n"@);
        }
    }
}

} // verus!
