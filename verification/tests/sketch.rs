use pensketch::{v, Geometry, Layer, Page, Path, Plugin, Polygon, Rect, RngError, Sketch};
use rand::RngCore;
use std::sync::{Arc, Mutex};

fn rect(x0: i32, y0: i32, x1: i32, y1: i32) -> Rect {
    Rect::new(v(x0, y0)).expanded(v(x1, y1))
}

fn path(points: &[(i32, i32)]) -> Path {
    Path::from_points(points.iter().map(|p| v(p.0, p.1)).collect())
}

struct Recorder {
    tag: &'static str,
    log: Arc<Mutex<Vec<String>>>,
}

impl Plugin for Recorder {
    fn execute(&self, svg: &str) {
        self.log.lock().unwrap().push(format!("{}:{}", self.tag, svg));
    }
}

#[test]
fn a_new_sketch_is_a_blank_a4_page() {
    let s = Sketch::new("x");
    assert_eq!(s.dimensions(), (210_000, 297_000));
    assert_eq!(s.page_bbox(), rect(0, 0, 210_000, 297_000));
    assert_eq!(s.layers_bbox(), None);
    assert_eq!(
        s.render(),
        "<?xml version=\"1.0\" encoding=\"utf-8\" ?>\n<svg xmlns=\"http://www.w3.org/2000/svg\" viewBox=\"0 0 210 297\" width=\"210mm\" height=\"297mm\">\n</svg>\n"
    );
}

#[test]
fn a_sketch_keeps_its_name() {
    let s = Sketch::new("spiral");
    assert_eq!(s.name(), "spiral");
    assert_eq!(s.with_name("rings").name(), "rings");
}

#[test]
fn page_sizes() {
    assert_eq!(Page::a0(), Page(841_000, 1_189_000));
    assert_eq!(Page::a1(), Page(594_000, 841_000));
    assert_eq!(Page::a2(), Page(420_000, 594_000));
    assert_eq!(Page::a3(), Page(297_000, 420_000));
    assert_eq!(Page::a4(), Page(210_000, 297_000));
    assert_eq!(Page::a5(), Page(148_000, 210_000));
    assert_eq!(Page::a6(), Page(105_000, 148_000));
    let s = Sketch::new("x").with_page(Page::a3());
    assert_eq!(s.dimensions(), (297_000, 420_000));
    assert_eq!(s.page_bbox(), rect(0, 0, 297_000, 420_000));
}

#[test]
fn a_fresh_layer_has_the_default_pen() {
    let l = Layer::default();
    assert!(l.geo().is_empty());
    assert_eq!(l.geo().lines().len(), 0);
    let mut s = Sketch::new("x").with_seed(0);
    s.layer(3);
    s.geometry(Geometry::from(path(&[(0, 0)])));
    assert!(s.render().contains("<g id=\"layer3\" fill=\"none\" stroke=\"black\" stroke-width=\"0.2\">\n"));
}

#[test]
fn the_same_seed_gives_the_same_draws() {
    let mut a = Sketch::new("a").with_seed(12345);
    let mut b = Sketch::new("b").with_seed(12345);
    assert_eq!(a.seed(), 12345);
    for _ in 0..100 {
        assert_eq!(a.next_u64(), b.next_u64());
        assert_eq!(a.next_u32(), b.next_u32());
    }
    let mut x = [0u8; 37];
    let mut y = [0u8; 37];
    a.fill_bytes(&mut x);
    b.fill_bytes(&mut y);
    assert_eq!(x, y);
}

#[test]
fn draws_are_those_of_xoshiro256_star_star() {
    let mut s = Sketch::new("x").with_seed(42);
    assert_eq!(s.next_u64(), 1546998764402558742);
    assert_eq!(s.next_u64(), 6990951692964543102);
    assert_eq!(s.next_u64(), 12544586762248559009);
    let mut t = Sketch::new("x").with_seed(7);
    assert_eq!(t.next_u64(), 12923355070828475994);
    let mut u = Sketch::new("x").with_seed(42);
    assert_eq!(u.next_u32(), 360188718);
    assert_eq!(u.next_u64(), 6990951692964543102);
}

#[test]
fn different_seeds_give_different_draws() {
    let mut a = Sketch::new("x").with_seed(1);
    let mut b = Sketch::new("x").with_seed(2);
    assert_ne!(a.next_u64(), b.next_u64());
}

#[test]
fn seeding_again_starts_the_stream_again() {
    let mut s = Sketch::new("x").with_seed(42);
    let first = s.next_u64();
    s.next_u64();
    let mut s = s.with_seed(42);
    assert_eq!(s.next_u64(), first);
}

#[test]
fn a_new_sketch_draws_from_its_own_seed() {
    let mut s = Sketch::new("x");
    let seed = s.seed();
    let mut t = Sketch::new("y").with_seed(seed);
    assert_eq!(s.next_u64(), t.next_u64());
}

#[test]
fn fill_bytes_writes_the_bytes_of_the_draws() {
    let mut s = Sketch::new("x").with_seed(42);
    let mut buf = [0u8; 11];
    s.fill_bytes(&mut buf);
    assert_eq!(buf, [22, 199, 46, 12, 46, 11, 120, 21, 134, 217, 4]);
    assert_eq!(s.next_u64(), 12544586762248559009);
    let mut none: [u8; 0] = [];
    s.fill_bytes(&mut none);
}

#[test]
fn try_fill_bytes_never_fails() {
    let mut s = Sketch::new("x").with_seed(42);
    let mut buf = [0u8; 11];
    let r: Result<(), RngError> = s.try_fill_bytes(&mut buf);
    assert_eq!(r, Ok(()));
    assert_eq!(buf, [22, 199, 46, 12, 46, 11, 120, 21, 134, 217, 4]);
    assert_ne!(Err(RngError::Source), r);
}

#[test]
fn the_generator_can_be_borrowed() {
    let mut s = Sketch::new("x").with_seed(42);
    assert_eq!(s.rng().next_u64(), 1546998764402558742);
    assert_eq!(s.next_u64(), 6990951692964543102);
}

#[test]
fn geometry_goes_to_the_selected_layer() {
    let mut s = Sketch::new("x").with_seed(0);
    s.geometry(Geometry::from(path(&[(1, 1)])));
    s.layer(7);
    s.geometry(Geometry::from(path(&[(2, 2)])));
    s.geometry(Geometry::from(path(&[(3, 3)])));
    assert_eq!(s.layer(1).geo().lines().len(), 1);
    assert_eq!(s.layer(7).geo().lines().len(), 2);
    assert_eq!(s.layer(7).geo().lines()[1].points(), &[v(3, 3)]);
    s.layer(1);
    s.geometry(Geometry::from(Polygon::from_rect(&rect(0, 0, 5, 5))));
    assert_eq!(s.layer(1).geo().polygons().len(), 1);
    assert_eq!(s.layer(7).geo().polygons().len(), 0);
}

#[test]
fn layers_bbox_joins_all_layers() {
    let mut s = Sketch::new("x").with_seed(0);
    s.layer(4);
    s.geometry(Geometry::from(path(&[(0, 0), (10, 0)])));
    s.layer(-2);
    s.geometry(Geometry::from(path(&[(5, -7), (6, 30)])));
    s.layer(9);
    assert_eq!(s.layers_bbox(), Some(rect(0, -7, 10, 30)));
}

#[test]
fn document_paints_layers_in_the_order_of_their_numbers() {
    let mut s = Sketch::new("x").with_seed(1).with_background("white");
    s.layer(2).with_stroke("red").with_pen_width(350);
    s.geometry(Geometry::from(path(&[(0, 0), (10_000, 5_500)])));
    s.layer(5);
    s.layer(-1).with_fill("#00f");
    s.geometry(Geometry::from(Polygon::from_rect(&rect(0, 0, 1_000, 1_000))));
    s.geometry(Geometry::from(path(&[(-1_250, 7)])));
    let expected = "<?xml version=\"1.0\" encoding=\"utf-8\" ?>\n\
<svg xmlns=\"http://www.w3.org/2000/svg\" viewBox=\"0 0 210 297\" width=\"210mm\" height=\"297mm\">\n\
<rect x=\"0\" y=\"0\" width=\"210\" height=\"297\" stroke=\"none\" fill=\"white\" />\n\
<g id=\"layer-1\" fill=\"#00f\" stroke=\"black\" stroke-width=\"0.2\">\n\
<polyline points=\"-1.25,0.007 \"/>\n\
<path d=\"M0,0 L1,0 L1,1 L0,1 Z \"/>\n\
</g>\n\
<g id=\"layer2\" fill=\"none\" stroke=\"red\" stroke-width=\"0.35\">\n\
<polyline points=\"0,0 10,5.5 \"/>\n\
</g>\n\
</svg>\n";
    assert_eq!(s.render(), expected);
}

#[test]
fn a_layer_without_geometry_is_left_out() {
    let mut s = Sketch::new("x").with_seed(1);
    s.layer(5);
    let doc = s.render();
    assert!(!doc.contains("<g"));
    assert!(!doc.contains("layer5"));
    assert_eq!(doc, Sketch::new("y").with_seed(2).render());
}

#[test]
fn shapes_without_points_leave_their_marks() {
    let mut s = Sketch::new("x").with_seed(1);
    let mut g = Geometry::new();
    g.push_path(Path::new());
    g.push_polygon(Polygon::from_areas(vec![Path::new(), path(&[(1_000, 2_000), (3_000, 4_000)])]));
    g.push_polygon(Polygon::new());
    s.geometry(g);
    let doc = s.render();
    assert!(doc.contains(
        "<g id=\"layer1\" fill=\"none\" stroke=\"black\" stroke-width=\"0.2\">\n<path d=\"M1,2 L3,4 Z \"/>\n<path d=\"\"/>\n</g>\n"
    ));
}

#[test]
fn page_and_numbers_are_written_in_millimetres() {
    let mut s = Sketch::new("x").with_seed(1).with_page(Page(148_500, 1));
    s.layer(i32::MIN).with_pen_width(1_000);
    s.geometry(Geometry::from(path(&[(i32::MIN, i32::MAX), (-10, 100), (-999, 1_010)])));
    let doc = s.render();
    assert!(doc.contains("viewBox=\"0 0 148.5 0.001\" width=\"148.5mm\" height=\"0.001mm\""));
    assert!(doc.contains("<g id=\"layer-2147483648\" fill=\"none\" stroke=\"black\" stroke-width=\"1\">"));
    assert!(doc.contains(
        "<polyline points=\"-2147483.648,2147483.647 -0.01,0.1 -0.999,1.01 \"/>"
    ));
}

#[test]
fn the_background_can_be_taken_away_again() {
    let s = Sketch::new("x").with_seed(1).with_background("black");
    assert!(s.render().contains("<rect x=\"0\" y=\"0\" width=\"210\" height=\"297\" stroke=\"none\" fill=\"black\" />\n"));
    let s = s.with_background("");
    assert!(!s.render().contains("<rect"));
}

#[test]
fn fit_to_page_inscribes_the_content() {
    let mut s = Sketch::new("x").with_seed(1).with_page(Page(210_000, 297_000));
    s.geometry(Geometry::from(Polygon::from_rect(&rect(0, 0, 100_000, 50_000))));
    s.fit_to_page(10_000);
    let b = s.layers_bbox().unwrap();
    assert_eq!(b, rect(10_000, 101_000, 200_000, 196_000));
    let inset = rect(10_000, 10_000, 200_000, 287_000);
    assert!(inset.left() <= b.left() && b.right() <= inset.right());
    assert!(inset.top() <= b.top() && b.bottom() <= inset.bottom());
    assert!(b.left() == inset.left() && b.right() == inset.right());
    assert_eq!(b.top() - inset.top(), inset.bottom() - b.bottom());
}

#[test]
fn fit_to_page_moves_all_layers_alike() {
    let mut s = Sketch::new("x").with_seed(1).with_page(Page(100, 100));
    s.layer(1);
    s.geometry(Geometry::from(path(&[(0, 0), (10, 10)])));
    s.layer(2);
    s.geometry(Geometry::from(path(&[(5, 5), (20, 10)])));
    s.layer(3);
    s.fit_to_page(0);
    assert_eq!(s.layer(1).geo().lines()[0].points(), &[v(0, 25), v(50, 75)]);
    assert_eq!(s.layer(2).geo().lines()[0].points(), &[v(25, 50), v(100, 75)]);
    assert!(s.layer(3).geo().lines().is_empty());
    assert_eq!(s.layers_bbox(), Some(rect(0, 25, 100, 75)));
}

#[test]
fn fit_to_page_twice_changes_nothing_here() {
    let mut s = Sketch::new("x").with_seed(1);
    s.geometry(Geometry::from(Polygon::from_rect(&rect(0, 0, 100_000, 50_000))));
    s.fit_to_page(10_000);
    let once = s.render();
    s.fit_to_page(10_000);
    assert_eq!(s.render(), once);
}

#[test]
fn fit_to_page_without_content_does_nothing() {
    let mut s = Sketch::new("x").with_seed(1);
    s.layer(3);
    s.geometry(Geometry::from(Path::new()));
    let before = s.render();
    s.fit_to_page(10_000);
    assert_eq!(s.render(), before);
    assert_eq!(s.layers_bbox(), None);
}

#[test]
fn fit_to_page_with_a_negative_margin_grows_past_the_page() {
    let mut s = Sketch::new("x").with_seed(1).with_page(Page(100, 100));
    s.geometry(Geometry::from(path(&[(0, 0), (1, 1)])));
    s.fit_to_page(-50);
    assert_eq!(s.layers_bbox(), Some(rect(-50, -50, 150, 150)));
}

#[test]
fn plugins_run_in_the_order_of_registration() {
    let log = Arc::new(Mutex::new(Vec::new()));
    let s = Sketch::new("x")
        .plugin(Recorder { tag: "first", log: log.clone() })
        .plugin(Recorder { tag: "second", log: log.clone() });
    s.run_plugins("/tmp/x/x-1.svg");
    assert_eq!(
        *log.lock().unwrap(),
        vec!["first:/tmp/x/x-1.svg".to_string(), "second:/tmp/x/x-1.svg".to_string()]
    );
    Sketch::new("y").run_plugins("/nowhere");
    assert_eq!(log.lock().unwrap().len(), 2);
}

#[test]
fn render_does_not_change_the_sketch() {
    let mut s = Sketch::new("x").with_seed(9);
    s.geometry(Geometry::from(path(&[(1, 2), (3, 4)])));
    let a = s.render();
    let b = s.render();
    assert_eq!(a, b);
    assert_eq!(s.next_u64(), Sketch::new("z").with_seed(9).next_u64());
}
