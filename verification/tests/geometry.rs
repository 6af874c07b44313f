use pensketch::{bbox_union, v, Bbox, Geometry, Path, Polygon, Rect};

fn rect(x0: i32, y0: i32, x1: i32, y1: i32) -> Rect {
    Rect::new(v(x0, y0)).expanded(v(x1, y1))
}

fn path(points: &[(i32, i32)]) -> Path {
    Path::from_points(points.iter().map(|p| v(p.0, p.1)).collect())
}

#[test]
fn empty_geometry_has_no_bbox() {
    let g = Geometry::new();
    assert_eq!(g.bbox(), None);
    assert_eq!(Bbox::bbox(&g), None);
    assert!(g.is_empty());
    assert!(g.polygons().is_empty());
    assert!(g.lines().is_empty());
}

#[test]
fn one_path_gives_its_own_bbox() {
    let g = Geometry::from_paths(vec![path(&[(0, 0), (10, 0)])]);
    let b = g.bbox().unwrap();
    assert_eq!(b.min(), v(0, 0));
    assert_eq!(b.max(), v(10, 0));
    assert!(!g.is_empty());
}

#[test]
fn paths_without_points_add_nothing() {
    let mut g = Geometry::from_paths(vec![Path::new(), Path::new()]);
    assert!(g.is_empty());
    assert_eq!(g.bbox(), None);
    g.push_polygon(Polygon::from_areas(vec![Path::new()]));
    g.push_polygon(Polygon::new());
    assert!(g.is_empty());
    assert_eq!(g.bbox(), None);
    assert_eq!(g.polygons().len(), 2);
    g.push_path(path(&[(3, 4)]));
    assert!(!g.is_empty());
    assert_eq!(g.bbox(), Some(rect(3, 4, 3, 4)));
}

#[test]
fn bbox_joins_polygons_and_paths() {
    let mut g = Geometry::from_polygons(vec![Polygon::from_rect(&rect(0, 0, 10, 10))]);
    g.push_path(path(&[(-5, 3), (2, 30)]));
    assert_eq!(g.bbox(), Some(rect(-5, 0, 10, 30)));
    assert_eq!(Bbox::bbox(&g), g.bbox());
}

#[test]
fn both_bbox_functions_agree() {
    let mut g = Geometry::new();
    g.push_paths(vec![path(&[(1, 1)]), Path::new(), path(&[(9, -9), (0, 0)])]);
    g.push_polygons(vec![
        Polygon::new(),
        Polygon::from_areas(vec![path(&[(4, 4), (5, 50)]), Path::new()]),
    ]);
    assert_eq!(g.bbox(), Some(rect(0, -9, 9, 50)));
    assert_eq!(Bbox::bbox(&g), Some(rect(0, -9, 9, 50)));
}

#[test]
fn push_keeps_the_order_of_insertion() {
    let mut g = Geometry::new();
    g.push_path(path(&[(1, 1)]));
    g.push_paths(vec![path(&[(2, 2)]), path(&[(3, 3)])]);
    let firsts: Vec<_> = g.lines().iter().map(|p| p.points()[0]).collect();
    assert_eq!(firsts, vec![v(1, 1), v(2, 2), v(3, 3)]);
}

#[test]
fn extend_copies_and_leaves_the_source() {
    let mut a = Geometry::from_paths(vec![path(&[(0, 0)])]);
    let mut b = Geometry::from_paths(vec![path(&[(5, 5), (6, 6)])]);
    b.push_polygon(Polygon::from_rect(&rect(1, 1, 2, 2)));
    a.extend(&b);
    assert_eq!(a.lines().len(), 2);
    assert_eq!(a.polygons().len(), 1);
    assert_eq!(a.lines()[1].points(), &[v(5, 5), v(6, 6)]);
    assert_eq!(b.lines().len(), 1);
    assert_eq!(b.polygons().len(), 1);
    assert_eq!(a.bbox(), Some(rect(0, 0, 6, 6)));
}

#[test]
fn from_a_path() {
    let g = Geometry::from(path(&[(1, 2), (3, 4)]));
    assert_eq!(g.lines().len(), 1);
    assert_eq!(g.polygons().len(), 0);
    assert_eq!(g.lines()[0].points(), &[v(1, 2), v(3, 4)]);
}

#[test]
fn from_a_polygon() {
    let g = Geometry::from(Polygon::from_areas(vec![path(&[(1, 2)]), path(&[(3, 4)])]));
    assert_eq!(g.polygons().len(), 1);
    assert_eq!(g.polygons()[0].areas().len(), 2);
    assert_eq!(g.lines().len(), 0);
}

#[test]
fn from_a_rectangle_is_its_outline() {
    let g: Geometry = rect(0, 0, 4, 3).into();
    assert_eq!(g.polygons().len(), 1);
    let areas = g.polygons()[0].areas();
    assert_eq!(areas.len(), 1);
    assert_eq!(areas[0].points(), &[v(0, 0), v(4, 0), v(4, 3), v(0, 3)]);
    assert_eq!(g.bbox(), Some(rect(0, 0, 4, 3)));
}

#[test]
fn path_basics() {
    let mut p = Path::new();
    assert!(p.is_empty());
    assert_eq!(p.bbox(), None);
    p.push(v(4, 4));
    p.push(v(-1, 8));
    assert!(!p.is_empty());
    assert_eq!(p.points(), &[v(4, 4), v(-1, 8)]);
    assert_eq!(p.bbox(), Some(rect(-1, 4, 4, 8)));
    let q = p.clone();
    p.push(v(100, 100));
    assert_eq!(q.points().len(), 2);
}

#[test]
fn polygon_is_empty_without_points() {
    assert!(Polygon::new().is_empty());
    assert!(Polygon::from_areas(vec![Path::new(), Path::new()]).is_empty());
    let p = Polygon::from_areas(vec![Path::new(), path(&[(1, 1)])]);
    assert!(!p.is_empty());
    assert_eq!(p.bbox(), Some(rect(1, 1, 1, 1)));
    assert_eq!(p.clone().areas().len(), 2);
}

#[test]
fn bbox_union_over_shapes() {
    let paths = vec![Path::new(), path(&[(0, 0), (2, 2)]), path(&[(-3, 1)])];
    assert_eq!(bbox_union(&paths), Some(rect(-3, 0, 2, 2)));
    let polys = vec![Polygon::new()];
    assert_eq!(bbox_union(&polys), None);
}
