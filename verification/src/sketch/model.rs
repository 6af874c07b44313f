//! The canvas as plain values, and what its documents and its layers are.

use vstd::prelude::*;
use crate::geo::bounds::{lemma_union_all_encloses, lemma_union_all_wf, union_all, Bounds};
use crate::geo::xform::Scaling;
use crate::sketch::layer::LayerView;
use crate::sketch::svg::{concat_all, lemma_concat_all_push};
use crate::sketch::text::mm;

verus! {

/// The layers of a canvas: each with its number, in the order in which they
/// are painted.
pub type Layers = Seq<(int, LayerView)>;

/// The numbers of the layers rise from each layer to the next, so that no
/// number occurs twice and the lowest is painted first.
pub open spec fn ordered(layers: Layers) -> bool {
    forall|i: int, j: int| 0 <= i < j < layers.len() ==> layers[i].0 < layers[j].0
}

/// The layer with the number `id`, if there is one.
pub open spec fn lookup(layers: Layers, id: int) -> Option<LayerView>
    decreases layers.len(),
{
    if layers.len() == 0 {
        None
    } else if layers.last().0 == id {
        Some(layers.last().1)
    } else {
        lookup(layers.drop_last(), id)
    }
}

/// The layer with the number `id`, or a fresh one where there is none.
pub open spec fn layer_or_fresh(layers: Layers, id: int) -> LayerView {
    match lookup(layers, id) {
        Some(l) => l,
        None => LayerView::fresh(),
    }
}

/// The layers with `l` under the number `id`: in place of the layer that
/// had the number, or else between the layers with smaller and those with
/// larger numbers.
pub open spec fn put(layers: Layers, id: int, l: LayerView) -> Layers
    decreases layers.len(),
{
    if layers.len() == 0 {
        seq![(id, l)]
    } else if layers.last().0 < id {
        layers.push((id, l))
    } else if layers.last().0 == id {
        layers.drop_last().push((id, l))
    } else {
        put(layers.drop_last(), id, l).push(layers.last())
    }
}

/// Where `id` belongs among ordered layers: `k` layers have smaller numbers.
pub open spec fn is_rank(layers: Layers, id: int, k: int) -> bool {
    &&& 0 <= k <= layers.len()
    &&& forall|i: int| 0 <= i < k ==> (#[trigger] layers[i]).0 < id
    &&& forall|i: int| k <= i < layers.len() ==> (#[trigger] layers[i]).0 >= id
}

/// Putting a layer at its rank: the layer there is replaced where it has
/// the number already, and the new layer is inserted there where not.
pub proof fn lemma_put_at(layers: Layers, id: int, l: LayerView, k: int)
    requires
        ordered(layers),
        is_rank(layers, id, k),
    ensures
        k < layers.len() && layers[k].0 == id ==> put(layers, id, l) == layers.update(k, (id, l))
            && lookup(layers, id) == Some(layers[k].1),
        !(k < layers.len() && layers[k].0 == id) ==> put(layers, id, l) == layers.insert(
            k,
            (id, l),
        ) && lookup(layers, id) is None,
    decreases layers.len(),
{
    if layers.len() == 0 {
        assert(seq![(id, l)] =~= layers.insert(0, (id, l)));
    } else {
        let n = layers.len() - 1;
        let last = layers.last();
        let front = layers.drop_last();
        assert(layers[n] == last);
        if last.0 < id {
            assert(k == layers.len());
            assert(layers.push((id, l)) =~= layers.insert(k, (id, l)));
            lemma_lookup_none(layers, id);
        } else if last.0 == id {
            if n > 0 {
                assert(layers[n - 1].0 < layers[n].0);
            }
            assert(k == n);
            assert(front.push((id, l)) =~= layers.update(k, (id, l)));
        } else {
            assert(k <= n);
            assert(ordered(front));
            assert(is_rank(front, id, k)) by {
                assert forall|i: int| 0 <= i < k implies (#[trigger] front[i]).0 < id by {
                    assert(front[i] == layers[i]);
                }
                assert forall|i: int| k <= i < front.len() implies (#[trigger] front[i]).0
                    >= id by {
                    assert(front[i] == layers[i]);
                }
            }
            lemma_put_at(front, id, l, k);
            if k < front.len() && front[k].0 == id {
                assert(front.update(k, (id, l)).push(last) =~= layers.update(k, (id, l)));
            } else {
                if k < layers.len() && layers[k].0 == id {
                    assert(k == n);
                }
                assert(front.insert(k, (id, l)).push(last) =~= layers.insert(k, (id, l)));
            }
        }
    }
}

/// No layer is found under a number that no layer has.
pub proof fn lemma_lookup_none(layers: Layers, id: int)
    requires
        forall|i: int| 0 <= i < layers.len() ==> (#[trigger] layers[i]).0 != id,
    ensures
        lookup(layers, id) is None,
    decreases layers.len(),
{
    if layers.len() > 0 {
        let front = layers.drop_last();
        assert(layers[layers.len() - 1] == layers.last());
        assert forall|i: int| 0 <= i < front.len() implies (#[trigger] front[i]).0 != id by {
            assert(front[i] == layers[i]);
        }
        lemma_lookup_none(front, id);
    }
}

/// Putting a layer keeps the layers ordered, makes it the layer that is
/// found under its number, and leaves every other number as it was.
pub proof fn lemma_put_laws(layers: Layers, id: int, l: LayerView, other: int)
    requires
        ordered(layers),
    ensures
        ordered(put(layers, id, l)),
        lookup(put(layers, id, l), id) == Some(l),
        other != id ==> lookup(put(layers, id, l), other) == lookup(layers, other),
    decreases layers.len(),
{
    if layers.len() == 0 {
        let s = seq![(id, l)];
        assert(s.drop_last() =~= layers);
    } else {
        let n = layers.len() - 1;
        let last = layers.last();
        let front = layers.drop_last();
        assert(layers[n] == last);
        assert(ordered(front));
        if last.0 < id {
            let s = layers.push((id, l));
            assert(s.drop_last() =~= layers);
            assert(ordered(s));
        } else if last.0 == id {
            let s = front.push((id, l));
            assert(s.drop_last() =~= front);
            assert(ordered(s)) by {
                assert forall|i: int, j: int| 0 <= i < j < s.len() implies s[i].0 < s[j].0 by {
                    assert(s[i] == layers[i]);
                    assert(s[j].0 == layers[j].0);
                }
            }
        } else {
            lemma_put_laws(front, id, l, other);
            let r = put(front, id, l);
            let s = r.push(last);
            assert(s.drop_last() =~= r);
            lemma_put_bound(front, id, l, last.0);
            assert(ordered(s));
        }
    }
}

/// Putting a layer under a number below `bound` among layers below `bound`
/// leaves all layers below `bound`.
proof fn lemma_put_bound(layers: Layers, id: int, l: LayerView, bound: int)
    requires
        id < bound,
        forall|i: int| 0 <= i < layers.len() ==> (#[trigger] layers[i]).0 < bound,
    ensures
        forall|i: int|
            0 <= i < put(layers, id, l).len() ==> (#[trigger] put(layers, id, l)[i]).0 < bound,
    decreases layers.len(),
{
    let r = put(layers, id, l);
    if layers.len() == 0 {
        assert(r[0] == (id, l));
    } else {
        let front = layers.drop_last();
        let last = layers.last();
        assert(layers[layers.len() - 1] == last);
        assert forall|i: int| 0 <= i < front.len() implies (#[trigger] front[i]).0 < bound by {
            assert(front[i] == layers[i]);
        }
        if last.0 < id {
            assert forall|i: int| 0 <= i < r.len() implies (#[trigger] r[i]).0 < bound by {
                if i < layers.len() {
                    assert(r[i] == layers[i]);
                }
            }
        } else if last.0 == id {
            assert forall|i: int| 0 <= i < r.len() implies (#[trigger] r[i]).0 < bound by {
                if i < front.len() {
                    assert(r[i] == front[i]);
                }
            }
        } else {
            lemma_put_bound(front, id, l, bound);
            let inner = put(front, id, l);
            assert forall|i: int| 0 <= i < r.len() implies (#[trigger] r[i]).0 < bound by {
                if i < inner.len() {
                    assert(r[i] == inner[i]);
                }
            }
        }
    }
}

/// A layer that is not drawn leaves no mark: putting one under a number
/// that no layer has adds nothing to the text of the layers.
pub proof fn lemma_undrawn_layer_adds_nothing(layers: Layers, id: int, l: LayerView)
    requires
        lookup(layers, id) is None,
        !l.is_drawn(),
    ensures
        concat_all(put(layers, id, l).map_values(|e: (int, LayerView)| e.1.text(e.0)))
            == concat_all(layers.map_values(|e: (int, LayerView)| e.1.text(e.0))),
    decreases layers.len(),
{
    let text = |e: (int, LayerView)| e.1.text(e.0);
    let texts = layers.map_values(text);
    let none = Seq::<char>::empty();
    if layers.len() == 0 {
        let one = put(layers, id, l).map_values(text);
        assert(one.len() == 1);
        assert(one.last() == l.text(id));
        assert(one.drop_last() =~= Seq::<Seq<char>>::empty());
        assert(concat_all(one.drop_last()) =~= none);
        assert(concat_all(one) =~= none);
        assert(texts =~= Seq::<Seq<char>>::empty());
    } else {
        let last = layers.last();
        let front = layers.drop_last();
        assert(texts.drop_last() =~= front.map_values(text));
        if last.0 < id {
            let more = layers.push((id, l)).map_values(text);
            assert(more =~= texts.push(none));
            lemma_concat_all_push(texts, none);
            assert(concat_all(texts) + none =~= concat_all(texts));
        } else {
            lemma_undrawn_layer_adds_nothing(front, id, l);
            let inner = put(front, id, l).map_values(text);
            let more = put(front, id, l).push(last).map_values(text);
            assert(more =~= inner.push(text(last)));
            lemma_concat_all_push(inner, text(last));
        }
    }
}

/// A canvas as plain values.
pub struct Canvas {
    /// The name, which the output directory and the output files carry.
    pub name: Seq<char>,
    /// Width and height of the page, in micrometres.
    pub page: (int, int),
    /// The seed that the generator was last made from.
    pub seed: u64,
    /// The state of the generator.
    pub rng: Seq<u64>,
    /// The number of the layer that geometry is added to.
    pub layer_id: int,
    /// The layers, ordered by their numbers.
    pub layers: Layers,
    /// How many plugins are registered.
    pub plugins: nat,
    /// The colour behind the artwork; empty for none.
    pub background: Seq<char>,
}

impl Canvas {
    /// The page as a rectangle with a corner at the origin.
    pub open spec fn page_bounds(self) -> Bounds {
        Bounds::between(0, 0, self.page.0, self.page.1)
    }

    /// The rectangle of each layer, in order.
    pub open spec fn boxes(self) -> Seq<Option<Bounds>> {
        self.layers.map_values(|e: (int, LayerView)| e.1.geo.bounds())
    }

    /// The rectangle around everything that is drawn; `None` for a canvas
    /// without a point.
    pub open spec fn bounds(self) -> Option<Bounds> {
        union_all(self.boxes())
    }

    /// The canvas with every shape of every layer moved to its image under
    /// `xf`.
    pub open spec fn moved(self, xf: Scaling) -> Canvas {
        Canvas {
            layers: self.layers.map_values(
                |e: (int, LayerView)| (e.0, LayerView { geo: e.1.geo.images(xf), ..e.1 }),
            ),
            ..self
        }
    }

    /// Every point of every layer lies inside `b` or on its border.
    pub open spec fn within(self, b: Bounds) -> bool {
        forall|i: int| 0 <= i < self.layers.len() ==> (#[trigger] self.layers[i]).1.geo.within(b)
    }

    /// The page with every edge moved inwards by `margin`.
    pub open spec fn inset(self, margin: int) -> Bounds {
        self.page_bounds().pad(-margin)
    }

    /// The content of a canvas has its edges the right way round, and every
    /// layer lies inside it.
    pub proof fn lemma_bounds_hold(self)
        ensures
            self.bounds() matches Some(b) ==> b.wf() && self.within(b),
    {
        let boxes = self.boxes();
        assert forall|i: int| 0 <= i < boxes.len() implies ((#[trigger] boxes[i]) matches Some(x)
            ==> x.wf()) by {
            let shapes = self.layers[i].1.geo;
            if shapes.bounds() is Some {
                shapes.lemma_bounds_hold(shapes.bounds()->Some_0);
            }
        }
        lemma_union_all_wf(boxes);
        if self.bounds() is Some {
            let b = self.bounds()->Some_0;
            assert forall|i: int| 0 <= i < self.layers.len() implies (
            #[trigger] self.layers[i]).1.geo.within(b) by {
                let shapes = self.layers[i].1.geo;
                assert(boxes[i] == shapes.bounds());
                if shapes.bounds() is Some {
                    lemma_union_all_encloses(boxes, i);
                    shapes.lemma_bounds_hold(b);
                } else {
                    shapes.lemma_empty_within(b);
                }
            }
        }
    }

    /// Every point of every layer lands under `xf`.
    pub open spec fn lands(self, xf: Scaling) -> bool {
        forall|i: int| 0 <= i < self.layers.len() ==> (#[trigger] self.layers[i]).1.geo.lands(xf)
    }

    /// The rectangle around a moved canvas is the image of the rectangle
    /// around the canvas.
    pub proof fn lemma_bounds_of_moved(self, xf: Scaling)
        requires
            xf.wf(),
            self.lands(xf),
        ensures
            self.moved(xf).bounds() == xf.image_of_opt(self.bounds()),
    {
        let image = |b: Option<Bounds>| xf.image_of_opt(b);
        assert forall|i: int| 0 <= i < self.layers.len() implies #[trigger] self.moved(
            xf,
        ).boxes()[i] == xf.image_of_opt(self.boxes()[i]) by {
            assert(self.layers[i].1.geo.lands(xf));
            self.layers[i].1.geo.lemma_bounds_of_images(xf);
        }
        assert(self.moved(xf).boxes() =~= self.boxes().map_values(image));
        xf.lemma_union_all_of_images(self.boxes());
    }

    /// Fitting the content of a canvas into `dst` leaves it inside `dst`,
    /// with the same room on opposite sides up to one grid unit, and
    /// reaching from edge to opposite edge of `dst` along one axis at least,
    /// unless the content is a single point.
    pub proof fn lemma_fit_fills(self, dst: Bounds)
        requires
            dst.wf(),
            dst.representable(),
            self.bounds() is Some,
        ensures
            ({
                let content = self.bounds()->Some_0;
                let fitted = self.moved(Scaling::fit(content, dst)).bounds();
                &&& fitted matches Some(b) && b.wf() && dst.encloses(b)
                &&& 0 <= (dst.right - fitted->Some_0.right) - (fitted->Some_0.left - dst.left) <= 1
                &&& 0 <= (dst.bottom - fitted->Some_0.bottom) - (fitted->Some_0.top - dst.top) <= 1
                &&& content.width() > 0 || content.height() > 0 ==> (fitted->Some_0.left
                    == dst.left && fitted->Some_0.right == dst.right) || (fitted->Some_0.top
                    == dst.top && fitted->Some_0.bottom == dst.bottom)
            }),
    {
        let content = self.bounds()->Some_0;
        let xf = Scaling::fit(content, dst);
        self.lemma_bounds_hold();
        Scaling::lemma_fit_extents(content, dst);
        Scaling::lemma_fit_corners(content, dst);
        assert forall|i: int| 0 <= i < self.layers.len() implies (#[trigger] self.layers[i]).1.geo.lands(
            xf,
        ) by {
            self.layers[i].1.geo.lemma_fit_lands(content, dst);
        }
        self.lemma_bounds_of_moved(xf);
    }

    /// The first two lines of the document: the XML declaration, and the
    /// opening `svg` tag with the page in millimetres.
    pub open spec fn header(self) -> Seq<char> {
        "<?xml version=\"1.0\" encoding=\"utf-8\" ?>\n<svg xmlns=\"http://www.w3.org/2000/svg\" viewBox=\"0 0 "@
            + mm(self.page.0) + " "@ + mm(self.page.1) + "\" width=\""@ + mm(self.page.0)
            + "mm\" height=\""@ + mm(self.page.1) + "mm\">\n"@
    }

    /// The rectangle that fills the page with the background colour, on a
    /// line of its own; nothing where no colour is set.
    pub open spec fn backdrop(self) -> Seq<char> {
        if self.background.len() == 0 {
            Seq::empty()
        } else {
            "<rect x=\"0\" y=\"0\" width=\""@ + mm(self.page.0) + "\" height=\""@ + mm(self.page.1)
                + "\" stroke=\"none\" fill=\""@ + self.background + "\" />\n"@
        }
    }

    /// The group elements of the layers, lowest number first.
    pub open spec fn layers_text(self) -> Seq<char> {
        concat_all(self.layers.map_values(|e: (int, LayerView)| e.1.text(e.0)))
    }

    /// The whole SVG document.
    pub open spec fn document(self) -> Seq<char> {
        self.header() + self.backdrop() + self.layers_text() + "</svg>\n"@
    }

    /// A layer that was made and never given a shape is left out of the
    /// document: the document is the same with it as without it.
    pub proof fn lemma_fresh_layer_is_left_out(self, id: int)
        requires
            lookup(self.layers, id) is None,
        ensures
            (Canvas { layers: put(self.layers, id, LayerView::fresh()), ..self }).document()
                == self.document(),
    {
        lemma_undrawn_layer_adds_nothing(self.layers, id, LayerView::fresh());
    }
}

} // verus!
