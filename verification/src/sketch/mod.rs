//! The canvas: a page, its layers and the generator that artwork draws from.

pub mod layer;
pub mod model;
pub mod naming;
pub mod page;
pub mod rng;
pub mod svg;
pub mod text;

use vstd::prelude::*;
use vstd::string::*;
use crate::geo::bounds::{lemma_union_all_push, union_all, Bounds};
use crate::geo::geometry::Geometry;
use crate::geo::point::V;
use crate::geo::rect::{merged, opt_bounds, Rect};
use crate::geo::xform::{Scaling, Xform};
use crate::sketch::layer::{Layer, LayerView};
use crate::sketch::model::{
    is_rank, layer_or_fresh, lemma_put_at, lemma_put_laws, ordered, put, Canvas,
};
use crate::sketch::page::Page;
use crate::sketch::rng::{drawn_bytes, drawn_u64, rng_words, seeded_words, MyRng, RngError};
use crate::sketch::svg::{concat_all, lemma_concat_all_push};
use crate::sketch::text::push_mm;

verus! {

/// A step that runs on every document after it has been written.
pub trait Plugin {
    /// Runs the step on the file at `svg`, an absolute path.
    fn execute(&self, svg: &str);
}

/// A registered plugin.
struct Hook {
    step: Box<dyn Plugin>,
}

/// Boxes `plugin` as a trait object.
///
/// Verus gives the step from a plugin to a trait object no meaning, and a
/// plugin has nothing but `execute` to be known by, so there is nothing that
/// a contract could say of the result. The boxing stands in a function of
/// its own so that the value arrives at its caller as a well-typed `Hook`.
fn hook<P: Plugin + 'static>(plugin: P) -> Hook {
    Hook { step: Box::new(plugin) }
}

/// A layer under its number.
struct Slot {
    id: i32,
    layer: Layer,
}

/// The canvas: a page, the layers that are drawn on it, and the random
/// generator that artwork draws its numbers from.
///
/// A sketch keeps its layers ordered by their numbers. [`Sketch::wf`] says
/// so; every sketch that [`Sketch::new`] makes has it, and every function
/// here keeps it.
pub struct Sketch {
    name: String,
    page: Page,
    seed: u64,
    rng: MyRng,
    layer_id: i32,
    slots: Vec<Slot>,
    plugins: Vec<Hook>,
    background: String,
}

impl View for Sketch {
    type V = Canvas;

    closed spec fn view(&self) -> Canvas {
        Canvas {
            name: self.name@,
            page: (self.page.0 as int, self.page.1 as int),
            seed: self.seed,
            rng: rng_words(self.rng),
            layer_id: self.layer_id as int,
            layers: self.slots@.map_values(|s: Slot| (s.id as int, s.layer@)),
            plugins: self.plugins@.len(),
            background: self.background@,
        }
    }
}

impl Canvas {
    /// The canvas that a new sketch starts as: an A4 page, a generator made
    /// from `seed`, layer 1 selected, and no layer, plugin or background.
    pub open spec fn blank(name: Seq<char>, seed: u64) -> Canvas {
        Canvas {
            name,
            page: (210_000, 297_000),
            seed,
            rng: seeded_words(seed),
            layer_id: 1,
            layers: Seq::empty(),
            plugins: 0,
            background: Seq::empty(),
        }
    }
}

impl Sketch {
    /// The layers are kept in the order of their numbers.
    pub closed spec fn wf(&self) -> bool {
        ordered(self@.layers)
    }

    /// The blank canvas `name` with the seed `seed`.
    fn seeded(name: &str, seed: u64) -> (s: Sketch)
        ensures
            s@ == Canvas::blank(name@, seed),
            s.wf(),
    {
        let s = Sketch {
            name: name.to_owned(),
            page: Page::a4(),
            seed,
            rng: rng::seeded(seed),
            layer_id: 1,
            slots: Vec::new(),
            plugins: Vec::new(),
            background: String::new(),
        };
        assert(s@.layers =~= Seq::empty());
        s
    }

    /// A blank canvas called `name`, with a seed that is drawn at random.
    pub fn new(name: &str) -> (s: Sketch)
        ensures
            s@ == Canvas::blank(name@, s@.seed),
            s.wf(),
    {
        Self::seeded(name, rng::fresh_seed())
    }

    /// The canvas with the page `page`.
    pub fn with_page(self, page: Page) -> (s: Sketch)
        ensures
            s@ == (Canvas { page: (page.0 as int, page.1 as int), ..self@ }),
            self.wf() ==> s.wf(),
    {
        let mut s = self;
        s.page = page;
        assert(s@.layers =~= self@.layers);
        s
    }

    /// The canvas under the name `name`.
    pub fn with_name(self, name: &str) -> (s: Sketch)
        ensures
            s@ == (Canvas { name: name@, ..self@ }),
            self.wf() ==> s.wf(),
    {
        let mut s = self;
        s.name = name.to_owned();
        assert(s@.layers =~= self@.layers);
        s
    }

    /// The canvas with a generator made afresh from `seed`, whatever was
    /// drawn before.
    pub fn with_seed(self, seed: u64) -> (s: Sketch)
        ensures
            s@ == (Canvas { seed, rng: seeded_words(seed), ..self@ }),
            self.wf() ==> s.wf(),
    {
        let mut s = self;
        s.seed = seed;
        s.rng = rng::seeded(seed);
        assert(s@.layers =~= self@.layers);
        s
    }

    /// The canvas with `plugin` registered behind the plugins that it has.
    pub fn plugin<P: Plugin + 'static>(self, plugin: P) -> (s: Sketch)
        ensures
            s@ == (Canvas { plugins: self@.plugins + 1, ..self@ }),
            self.wf() ==> s.wf(),
    {
        let mut s = self;
        let h = hook(plugin);
        s.plugins.push(h);
        assert(s@.layers =~= self@.layers);
        s
    }

    /// The canvas on a background of the colour `color`, as SVG spells it;
    /// an empty `color` takes the background away.
    pub fn with_background(self, color: &str) -> (s: Sketch)
        ensures
            s@ == (Canvas { background: color@, ..self@ }),
            self.wf() ==> s.wf(),
    {
        let mut s = self;
        s.background = color.to_owned();
        assert(s@.layers =~= self@.layers);
        s
    }

    /// The generator, to draw from directly.
    pub fn rng(&mut self) -> (r: &mut MyRng)
        ensures
            rng_words(*r) == old(self)@.rng,
            final(self)@ == (Canvas { rng: rng_words(*final(r)), ..old(self)@ }),
            old(self).wf() ==> final(self).wf(),
    {
        &mut self.rng
    }

    /// The name, which the output directory and the output files carry.
    pub fn name(&self) -> (name: &str)
        ensures
            name@ == self@.name,
    {
        self.name.as_str()
    }

    /// The seed that the generator was last made from.
    pub fn seed(&self) -> (seed: u64)
        ensures
            seed == self@.seed,
    {
        self.seed
    }

    /// Width and height of the page, in micrometres.
    pub fn dimensions(&self) -> (d: (i32, i32))
        ensures
            d.0 == self@.page.0,
            d.1 == self@.page.1,
    {
        (self.page.0, self.page.1)
    }

    /// The page as a rectangle with a corner at the origin.
    pub fn page_bbox(&self) -> (r: Rect)
        ensures
            r@ == self@.page_bounds(),
    {
        Rect::with_dimensions(V { x: 0, y: 0 }, self.page.0 as i64, self.page.1 as i64)
    }

    /// The next 32 random bits.
    pub fn next_u32(&mut self) -> (r: u32)
        ensures
            r == drawn_u64(old(self)@.rng).0 / 0x1_0000_0000,
            final(self)@ == (Canvas { rng: drawn_u64(old(self)@.rng).1, ..old(self)@ }),
            old(self).wf() ==> final(self).wf(),
    {
        rng::next_u32(&mut self.rng)
    }

    /// The next 64 random bits.
    pub fn next_u64(&mut self) -> (r: u64)
        ensures
            r == drawn_u64(old(self)@.rng).0,
            final(self)@ == (Canvas { rng: drawn_u64(old(self)@.rng).1, ..old(self)@ }),
            old(self).wf() ==> final(self).wf(),
    {
        rng::next_u64(&mut self.rng)
    }

    /// Fills `dest` with random bytes.
    pub fn fill_bytes(&mut self, dest: &mut [u8])
        ensures
            final(dest)@ == drawn_bytes(old(self)@.rng, old(dest)@.len()).0,
            final(self)@ == (Canvas {
                rng: drawn_bytes(old(self)@.rng, old(dest)@.len()).1,
                ..old(self)@
            }),
            old(self).wf() ==> final(self).wf(),
    {
        rng::fill_bytes(&mut self.rng, dest)
    }

    /// How many layers have a number below `id`.
    fn rank(&self, id: i32) -> (k: usize)
        requires
            self.wf(),
        ensures
            is_rank(self@.layers, id as int, k as int),
            k <= self.slots@.len(),
    {
        let mut k: usize = 0;
        while k < self.slots.len() && self.slots[k].id < id
            invariant
                k <= self.slots.len(),
                self.wf(),
                forall|i: int| 0 <= i < k ==> (#[trigger] self@.layers[i]).0 < id,
            decreases self.slots.len() - k,
        {
            k = k + 1;
        }
        proof {
            let layers = self@.layers;
            assert forall|i: int| k <= i < layers.len() implies (#[trigger] layers[i]).0 >= id by {
                if k < i {
                    assert(layers[k as int].0 < layers[i].0);
                }
            }
        }
        k
    }

    /// Selects the layer with the number `lid` as the layer that geometry is
    /// added to, and hands it out. Where the canvas has no such layer yet,
    /// a fresh one is made first.
    pub fn layer(&mut self, lid: i32) -> (r: &mut Layer)
        requires
            old(self).wf(),
        ensures
            r@ == layer_or_fresh(old(self)@.layers, lid as int),
            final(self)@ == (Canvas {
                layer_id: lid as int,
                layers: put(old(self)@.layers, lid as int, final(r)@),
                ..old(self)@
            }),
            final(self).wf(),
    {
        let k = self.rank(lid);
        let ghost before = self@.layers;
        let ghost id = lid as int;
        self.layer_id = lid;
        assert(self@.layers =~= before);
        let found = k < self.slots.len() && self.slots[k].id == lid;
        if !found {
            self.slots.insert(k, Slot { id: lid, layer: Layer::default() });
            assert(self@.layers =~= before.insert(k as int, (id, LayerView::fresh())));
        }
        proof {
            let now = self@.layers;
            lemma_put_at(before, id, LayerView::fresh(), k as int);
            assert(now[k as int].1 == layer_or_fresh(before, id));
            assert forall|l: LayerView| #[trigger] put(before, id, l) == now.update(k as int, (id, l))
                && ordered(put(before, id, l)) by {
                lemma_put_at(before, id, l, k as int);
                lemma_put_laws(before, id, l, id);
                if !found {
                    assert(before.insert(k as int, (id, l)) =~= now.update(k as int, (id, l)));
                }
            }
        }
        let ghost now = self@.layers;
        let ghost slots = self.slots@;
        let r = &mut self.slots[k].layer;
        proof {
            let after = slots.update(k as int, Slot { id: lid, layer: *final(r) });
            assert(after.map_values(|s: Slot| (s.id as int, s.layer@)) =~= now.update(
                k as int,
                (id, final(r)@),
            ));
        }
        r
    }

    /// Fills `dest` with random bytes. The generator of a canvas has no
    /// source that could fail, so this never returns an error.
    pub fn try_fill_bytes(&mut self, dest: &mut [u8]) -> (r: Result<(), RngError>)
        ensures
            r is Ok,
            final(dest)@ == drawn_bytes(old(self)@.rng, old(dest)@.len()).0,
            final(self)@ == (Canvas {
                rng: drawn_bytes(old(self)@.rng, old(dest)@.len()).1,
                ..old(self)@
            }),
            old(self).wf() ==> final(self).wf(),
    {
        match rng::try_fill_bytes(&mut self.rng, dest) {
            Ok(_) => Ok(()),
            Err(_) => Err(RngError::Source),
        }
    }

    /// Adds a copy of the shapes of `g` to the layer that is selected,
    /// making the layer first where the canvas does not have it yet.
    pub fn geometry(&mut self, g: Geometry)
        requires
            old(self).wf(),
        ensures
            ({
                let id = old(self)@.layer_id;
                let start = layer_or_fresh(old(self)@.layers, id);
                final(self)@ == (Canvas {
                    layers: put(
                        old(self)@.layers,
                        id,
                        LayerView { geo: start.geo.extend(g@), ..start },
                    ),
                    ..old(self)@
                })
            }),
            final(self).wf(),
    {
        let lid = self.layer_id;
        let layer = self.layer(lid);
        layer.add(&g);
    }

    /// The smallest rectangle around everything that is drawn, or `None`
    /// where no layer has a point.
    pub fn layers_bbox(&self) -> (r: Option<Rect>)
        ensures
            opt_bounds(r) == self@.bounds(),
    {
        let mut bbox: Option<Rect> = None;
        let mut i: usize = 0;
        let ghost boxes = self@.boxes();
        assert(boxes.take(0) =~= Seq::<Option<Bounds>>::empty());
        while i < self.slots.len()
            invariant
                i <= self.slots.len(),
                boxes == self@.boxes(),
                opt_bounds(bbox) == union_all(boxes.take(i as int)),
            decreases self.slots.len() - i,
        {
            let b = self.slots[i].layer.bbox();
            proof {
                assert(boxes.take(i + 1) =~= boxes.take(i as int).push(opt_bounds(b)));
                lemma_union_all_push(boxes.take(i as int), opt_bounds(b));
            }
            bbox = merged(bbox, b);
            i = i + 1;
        }
        assert(boxes.take(i as int) =~= boxes);
        bbox
    }

    /// Scales and moves everything that is drawn so that it fills the page
    /// up to `margin` on every side, as far as its proportions allow, and
    /// centres it. A canvas without a point is left as it is.
    pub fn fit_to_page(&mut self, margin: i64)
        requires
            old(self)@.inset(margin as int).wf(),
            old(self)@.inset(margin as int).representable(),
        ensures
            match old(self)@.bounds() {
                None => final(self)@ == old(self)@,
                Some(content) => {
                    let xf = Scaling::fit(content, old(self)@.inset(margin as int));
                    &&& final(self)@ == old(self)@.moved(xf)
                    &&& final(self)@.within(old(self)@.inset(margin as int))
                },
            },
            old(self).wf() ==> final(self).wf(),
    {
        let bbox = match self.layers_bbox() {
            None => {
                return ;
            },
            Some(b) => b,
        };
        let mut page = self.page_bbox();
        page.pad(-margin);
        let ghost content = bbox@;
        let ghost inset = page@;
        let ghost before = self@;
        proof {
            before.lemma_bounds_hold();
        }
        let xf = Xform::rect_to_rect(&bbox, &page);
        let mut i: usize = 0;
        while i < self.slots.len()
            invariant
                i <= self.slots.len(),
                self.slots@.len() == before.layers.len(),
                content.wf(),
                inset.wf(),
                inset.representable(),
                before.within(content),
                xf@ == Scaling::fit(content, inset),
                self@ == (Canvas { layers: self@.layers, ..before }),
                forall|j: int|
                    0 <= j < i ==> #[trigger] self@.layers[j] == before.moved(xf@).layers[j],
                forall|j: int|
                    i <= j < self.slots@.len() ==> #[trigger] self@.layers[j] == before.layers[j],
            decreases self.slots.len() - i,
        {
            proof {
                let shapes = before.layers[i as int].1.geo;
                assert(self@.layers[i as int] == before.layers[i as int]);
                shapes.lemma_fit_lands(content, inset);
            }
            let ghost was = self@.layers;
            self.slots[i].layer.transform(&xf);
            proof {
                let l = was[i as int];
                assert(self@.layers =~= was.update(
                    i as int,
                    (l.0, LayerView { geo: l.1.geo.images(xf@), ..l.1 }),
                ));
            }
            i = i + 1;
        }
        proof {
            let moved = before.moved(xf@);
            assert(self@.layers =~= moved.layers);
            assert forall|j: int| 0 <= j < moved.layers.len() implies (
            #[trigger] moved.layers[j]).1.geo.within(inset) by {
                before.layers[j].1.geo.lemma_fit_lands(content, inset);
            }
        }
    }

    /// The canvas as an SVG document: the page in millimetres, the
    /// background where one is set, and a group for each layer that holds a
    /// shape, lowest number first.
    pub fn render(&self) -> (doc: String)
        ensures
            doc@ == self@.document(),
    {
        let mut out = String::new();
        self.push_header(&mut out);
        let ghost a = out@;
        self.push_backdrop(&mut out);
        let ghost b = out@;
        let ghost texts = self@.layers.map_values(|e: (int, LayerView)| e.1.text(e.0));
        let mut i: usize = 0;
        assert(texts.take(0) =~= Seq::<Seq<char>>::empty());
        assert(out@ =~= b + concat_all(texts.take(0)));
        while i < self.slots.len()
            invariant
                i <= self.slots.len(),
                texts == self@.layers.map_values(|e: (int, LayerView)| e.1.text(e.0)),
                out@ == b + concat_all(texts.take(i as int)),
            decreases self.slots.len() - i,
        {
            let slot = &self.slots[i];
            proof {
                let t = slot.layer@.text(slot.id as int);
                assert(texts[i as int] == t);
                assert(texts.take(i + 1) =~= texts.take(i as int).push(t));
                lemma_concat_all_push(texts.take(i as int), t);
            }
            slot.layer.push_text(&mut out, slot.id);
            assert(out@ =~= b + concat_all(texts.take(i + 1)));
            i = i + 1;
        }
        assert(texts.take(i as int) =~= texts);
        let ghost c = out@;
        out.append("</svg>\n");
        assert(out@ =~= self@.document()) by {
            assert(a =~= self@.header());
            assert(b == a + self@.backdrop());
            assert(c == b + self@.layers_text());
        }
        out
    }

    /// Appends the first two lines of the document.
    fn push_header(&self, out: &mut String)
        ensures
            final(out)@ == old(out)@ + self@.header(),
    {
        out.append(
            "<?xml version=\"1.0\" encoding=\"utf-8\" ?>\n<svg xmlns=\"http://www.w3.org/2000/svg\" viewBox=\"0 0 ",
        );
        push_mm(out, self.page.0 as i64);
        out.append(" ");
        push_mm(out, self.page.1 as i64);
        let ghost half = out@;
        out.append("\" width=\"");
        push_mm(out, self.page.0 as i64);
        out.append("mm\" height=\"");
        push_mm(out, self.page.1 as i64);
        out.append("mm\">\n");
        assert(out@ =~= old(out)@ + self@.header());
    }

    /// Appends the background rectangle, where a background is set.
    fn push_backdrop(&self, out: &mut String)
        ensures
            final(out)@ == old(out)@ + self@.backdrop(),
    {
        if self.background.as_str().unicode_len() == 0 {
            assert(out@ =~= old(out)@ + self@.backdrop());
            return ;
        }
        out.append("<rect x=\"0\" y=\"0\" width=\"");
        push_mm(out, self.page.0 as i64);
        out.append("\" height=\"");
        push_mm(out, self.page.1 as i64);
        out.append("\" stroke=\"none\" fill=\"");
        out.append(self.background.as_str());
        out.append("\" />\n");
        assert(out@ =~= old(out)@ + self@.backdrop());
    }

    /// The name for the next output file, given the names of the files
    /// that the output directory holds: see [`naming::next_free_name`].
    pub fn next_free_name(&self, existing: &[String]) -> (r: Option<String>)
        ensures
            match r {
                Some(s) => naming::max_index(self@.name, naming::names_of(existing@)) < u64::MAX
                    && s@ == naming::file_name(
                    self@.name,
                    naming::max_index(self@.name, naming::names_of(existing@)) + 1,
                ),
                None => naming::max_index(self@.name, naming::names_of(existing@)) >= u64::MAX,
            },
    {
        naming::next_free_name(self.name.as_str(), existing)
    }

    /// Calls every plugin with `path`, in the order in which they were
    /// registered.
    pub fn run_plugins(&self, path: &str) {
        let mut i: usize = 0;
        while i < self.plugins.len()
            invariant
                i <= self.plugins.len(),
            decreases self.plugins.len() - i,
        {
            self.plugins[i].step.execute(path);
            i = i + 1;
        }
    }
}

} // verus!
