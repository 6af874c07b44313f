use pensketch::{bbox_union, v, Bbox, Rect, V};

fn rect(x0: i32, y0: i32, x1: i32, y1: i32) -> Rect {
    Rect::new(v(x0, y0)).expanded(v(x1, y1))
}

fn hull_of(points: &[V]) -> Rect {
    let mut r = Rect::new(points[0]);
    for p in &points[1..] {
        r.expand(*p);
    }
    r
}

#[test]
fn new_is_a_rectangle_of_no_extent() {
    let r = Rect::new(v(3, -4));
    assert_eq!(r.min(), v(3, -4));
    assert_eq!(r.max(), v(3, -4));
    assert_eq!(r.width(), 0);
    assert_eq!(r.height(), 0);
    assert_eq!(r.area(), 0);
}

#[test]
fn accessors_name_the_four_edges() {
    let r = rect(1, 2, 30, 40);
    assert_eq!(r.left(), 1);
    assert_eq!(r.top(), 2);
    assert_eq!(r.right(), 30);
    assert_eq!(r.bottom(), 40);
    assert_eq!(r.dimensions(), (29, 38));
    assert_eq!(r.area(), 29 * 38);
}

#[test]
fn with_dimensions_spans_from_the_top_left() {
    let r = Rect::with_dimensions(v(10, 20), 30, 40);
    assert_eq!(r.min(), v(10, 20));
    assert_eq!(r.max(), v(40, 60));
}

#[test]
fn with_dimensions_turns_negative_extents_round() {
    let r = Rect::with_dimensions(v(10, 20), -30, -5);
    assert_eq!(r.min(), v(-20, 15));
    assert_eq!(r.max(), v(10, 20));
    assert!(r.width() >= 0 && r.height() >= 0);
}

#[test]
fn expand_grows_to_take_the_point_in() {
    let mut r = rect(0, 0, 10, 10);
    r.expand(v(-5, 20));
    assert_eq!(r, rect(-5, 0, 10, 20));
}

#[test]
fn expand_leaves_a_rectangle_that_holds_the_point() {
    let mut r = rect(0, 0, 10, 10);
    r.expand(v(10, 3));
    r.expand(v(4, 4));
    assert_eq!(r, rect(0, 0, 10, 10));
}

#[test]
fn expanded_leaves_the_rectangle_alone() {
    let r = rect(0, 0, 1, 1);
    let e = r.expanded(v(5, 5));
    assert_eq!(r, rect(0, 0, 1, 1));
    assert_eq!(e, rect(0, 0, 5, 5));
}

#[test]
fn expanding_gives_the_tightest_rectangle_in_any_order() {
    let points = [v(3, 9), v(-2, 4), v(7, -1), v(0, 0), v(7, 9)];
    let forward = hull_of(&points);
    let mut reversed = points;
    reversed.reverse();
    let backward = hull_of(&reversed);
    let rotated = hull_of(&[points[2], points[3], points[4], points[0], points[1]]);
    assert_eq!(forward, rect(-2, -1, 7, 9));
    assert_eq!(backward, forward);
    assert_eq!(rotated, forward);
}

#[test]
fn union_is_commutative_associative_and_idempotent() {
    let a = rect(0, 0, 4, 4);
    let b = rect(-3, 2, 1, 9);
    let c = rect(10, -10, 11, -9);
    let mut ab = a;
    ab.union(&b);
    let mut ba = b;
    ba.union(&a);
    assert_eq!(ab, ba);
    assert_eq!(ab, rect(-3, 0, 4, 9));
    let mut ab_c = ab;
    ab_c.union(&c);
    let mut bc = b;
    bc.union(&c);
    let mut a_bc = a;
    a_bc.union(&bc);
    assert_eq!(ab_c, a_bc);
    let mut aa = a;
    aa.union(&a);
    assert_eq!(aa, a);
}

#[test]
fn pad_moves_every_edge() {
    let mut r = rect(0, 0, 10, 20);
    r.pad(3);
    assert_eq!(r.min(), v(-3, -3));
    assert_eq!(r.max(), v(13, 23));
    assert_eq!(rect(0, 0, 10, 20).padded(-2), rect(2, 2, 8, 18));
}

#[test]
fn pad_and_its_opposite_restore_the_rectangle() {
    let r = rect(-7, 3, 12, 40);
    for p in [-9, -1, 0, 1, 250] {
        assert_eq!(r.padded(p).padded(-p), r);
    }
}

#[test]
fn pad_past_collapse_leaves_the_edges_crossed() {
    let r = rect(0, 0, 10, 10).padded(-8);
    assert_eq!(r.left(), 8);
    assert_eq!(r.right(), 2);
    assert_eq!(r.width(), -6);
    assert_eq!(r.padded(8), rect(0, 0, 10, 10));
}

#[test]
fn dist2_adds_the_squares_along_both_axes() {
    let r = rect(0, 0, 10, 10);
    assert_eq!(r.dist2(v(13, 14)), 25);
    assert_eq!(r.dist2(v(-2, 5)), 4);
    assert_eq!(r.dist2(v(5, 17)), 49);
    assert_eq!(r.dist2(v(-1, -1)), 2);
}

#[test]
fn dist_is_zero_inside_and_on_the_border() {
    let r = rect(0, 0, 10, 10);
    assert_eq!(r.dist2(v(5, 5)), 0);
    assert_eq!(r.dist(v(5, 5)), 0);
    assert_eq!(r.dist(v(10, 0)), 0);
}

#[test]
fn dist_rounds_the_distance_down() {
    let r = rect(0, 0, 10, 10);
    assert_eq!(r.dist(v(13, 14)), 5);
    assert_eq!(r.dist(v(-1, -1)), 1);
    assert_eq!(r.dist(v(12, 12)), 2);
    assert_eq!(r.dist(v(10, 110)), 100);
}

#[test]
fn dist_across_the_whole_plane_does_not_overflow() {
    let r = Rect::new(v(i32::MIN, i32::MIN));
    let far = v(i32::MAX, i32::MAX);
    let side: u128 = u32::MAX as u128;
    assert_eq!(r.dist2(far), 2 * side * side);
    let d = r.dist(far) as u128;
    assert!(d * d <= 2 * side * side && 2 * side * side < (d + 1) * (d + 1));
    assert_eq!(d, 6074000998);
}

#[test]
fn center_rounds_down() {
    assert_eq!(rect(0, 0, 10, 20).center(), v(5, 10));
    assert_eq!(rect(0, 0, 5, 7).center(), v(2, 3));
    assert_eq!(rect(-5, -7, 0, 0).center(), v(-3, -4));
    assert_eq!(rect(-3, -3, 3, 3).center(), v(0, 0));
    assert_eq!(rect(i32::MAX - 1, 0, i32::MAX, 0).center(), v(i32::MAX - 1, 0));
}

#[test]
fn area_of_the_whole_plane_fits() {
    let r = rect(i32::MIN, i32::MIN, i32::MAX, i32::MAX);
    let side: i128 = u32::MAX as i128;
    assert_eq!(r.width(), u32::MAX as i64);
    assert_eq!(r.area(), side * side);
}

#[test]
fn subdivide_two_by_two() {
    let cells = rect(0, 0, 10, 10).subdivide(2, 2);
    assert_eq!(
        cells,
        vec![rect(0, 0, 5, 5), rect(5, 0, 10, 5), rect(0, 5, 5, 10), rect(5, 5, 10, 10)]
    );
    for c in &cells {
        assert_eq!(c.dimensions(), (5, 5));
    }
}

#[test]
fn subdivide_goes_row_by_row() {
    let cells = rect(0, 0, 30, 20).subdivide(3, 2);
    assert_eq!(cells.len(), 6);
    assert_eq!(cells[0], rect(0, 0, 10, 10));
    assert_eq!(cells[2], rect(20, 0, 30, 10));
    assert_eq!(cells[3], rect(0, 10, 10, 20));
    assert_eq!(cells[5], rect(20, 10, 30, 20));
}

#[test]
fn subdivide_tiles_a_side_that_does_not_divide() {
    let r = rect(0, 0, 10, 7);
    let cells = r.subdivide(3, 2);
    assert_eq!(
        cells,
        vec![
            rect(0, 0, 3, 3),
            rect(3, 0, 6, 3),
            rect(6, 0, 10, 3),
            rect(0, 3, 3, 7),
            rect(3, 3, 6, 7),
            rect(6, 3, 10, 7),
        ]
    );
    let total: i128 = cells.iter().map(|c| c.area()).sum();
    assert_eq!(total, r.area());
}

#[test]
fn subdivide_can_be_asked_again() {
    let r = rect(-4, -4, 4, 4);
    assert_eq!(r.subdivide(4, 1), r.subdivide(4, 1));
    assert_eq!(r.subdivide(1, 1), vec![r]);
}

#[test]
fn subdivide_with_negative_coordinates() {
    let cells = rect(-10, -10, -3, 0).subdivide(2, 1);
    assert_eq!(cells, vec![rect(-10, -10, -7, 0), rect(-7, -10, -3, 0)]);
}

#[test]
fn bbox_of_a_rectangle_is_the_rectangle() {
    let r = rect(1, 2, 3, 4);
    assert_eq!(r.bbox(), Some(r));
}

#[test]
fn bbox_union_of_nothing_is_none() {
    let none: Vec<Rect> = vec![];
    assert_eq!(bbox_union(&none), None);
}

#[test]
fn bbox_union_encloses_every_item() {
    let items = vec![rect(0, 0, 1, 1), rect(5, -5, 6, 0), rect(-2, 3, -1, 4)];
    assert_eq!(bbox_union(&items), Some(rect(-2, -5, 6, 4)));
}
