use pensketch::{v, Geometry, Path, Polygon, Rect, Xform};

fn rect(x0: i32, y0: i32, x1: i32, y1: i32) -> Rect {
    Rect::new(v(x0, y0)).expanded(v(x1, y1))
}

#[test]
fn fit_scales_by_the_tighter_axis_and_centres_the_other() {
    let xf = Xform::rect_to_rect(&rect(0, 0, 100_000, 50_000), &rect(10_000, 10_000, 200_000, 287_000));
    assert_eq!(xf.apply(v(0, 0)), v(10_000, 101_000));
    assert_eq!(xf.apply(v(100_000, 50_000)), v(200_000, 196_000));
    assert_eq!(xf.apply(v(50_000, 25_000)), v(105_000, 148_500));
}

#[test]
fn fit_by_height_centres_along_x() {
    let xf = Xform::rect_to_rect(&rect(0, 0, 10, 40), &rect(0, 0, 100, 100));
    assert_eq!(xf.apply(v(0, 0)), v(37, 0));
    assert_eq!(xf.apply(v(10, 40)), v(62, 100));
    assert_eq!(xf.apply(v(4, 20)), v(47, 50));
}

#[test]
fn fit_of_a_line_uses_the_axis_that_has_extent() {
    let xf = Xform::rect_to_rect(&rect(5, 7, 15, 7), &rect(0, 0, 100, 50));
    assert_eq!(xf.apply(v(5, 7)), v(0, 25));
    assert_eq!(xf.apply(v(15, 7)), v(100, 25));
    let yf = Xform::rect_to_rect(&rect(5, 7, 5, 17), &rect(0, 0, 100, 50));
    assert_eq!(yf.apply(v(5, 7)), v(50, 0));
    assert_eq!(yf.apply(v(5, 17)), v(50, 50));
}

#[test]
fn fit_of_a_point_moves_it_to_the_centre() {
    let xf = Xform::rect_to_rect(&rect(9, 9, 9, 9), &rect(0, 0, 100, 51));
    assert_eq!(xf.apply(v(9, 9)), v(50, 25));
}

#[test]
fn fit_rounds_down_to_the_grid() {
    let xf = Xform::rect_to_rect(&rect(0, 0, 3, 3), &rect(0, 0, 10, 10));
    assert_eq!(xf.apply(v(1, 1)), v(3, 3));
    assert_eq!(xf.apply(v(2, 2)), v(6, 6));
    assert_eq!(xf.apply(v(3, 3)), v(10, 10));
    assert_eq!(xf.apply(v(-1, -1)), v(-4, -4));
}

#[test]
fn fit_into_a_target_without_extent_collapses() {
    let xf = Xform::rect_to_rect(&rect(0, 0, 10, 10), &rect(4, 4, 4, 20));
    assert_eq!(xf.apply(v(0, 0)), v(4, 12));
    assert_eq!(xf.apply(v(10, 10)), v(4, 12));
}

#[test]
fn fit_across_the_whole_plane() {
    let all = rect(i32::MIN, i32::MIN, i32::MAX, i32::MAX);
    let xf = Xform::rect_to_rect(&all, &all);
    assert_eq!(xf.apply(v(i32::MIN, i32::MAX)), v(i32::MIN, i32::MAX));
    assert_eq!(xf.apply(v(17, -4)), v(17, -4));
}

#[test]
fn transform_moves_every_point_of_every_shape() {
    let xf = Xform::rect_to_rect(&rect(0, 0, 10, 10), &rect(100, 100, 120, 120));
    let mut g = Geometry::from(Path::from_points(vec![v(0, 0), v(5, 10)]));
    g.push_polygon(Polygon::from_rect(&rect(2, 2, 4, 4)));
    g.push_path(Path::new());
    g.transform(&xf);
    assert_eq!(g.lines()[0].points(), &[v(100, 100), v(110, 120)]);
    assert!(g.lines()[1].is_empty());
    assert_eq!(
        g.polygons()[0].areas()[0].points(),
        &[v(104, 104), v(108, 104), v(108, 108), v(104, 108)]
    );
    assert_eq!(g.bbox(), Some(rect(100, 100, 110, 120)));
}
