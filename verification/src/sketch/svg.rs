//! The shapes of a layer as SVG elements.
//!
//! Coordinates are written in millimetres. A path becomes a `polyline`, a
//! polygon becomes one `path` with a closed sub-path for each of its areas.

use vstd::prelude::*;
use vstd::string::*;
use crate::geo::path::{views, Path};
use crate::geo::point::V;
use crate::geo::polygon::Polygon;
use crate::geo::geometry::polygon_views;
use crate::sketch::text::{mm, push_mm};

verus! {

/// All of `parts`, one after the other.
pub open spec fn concat_all(parts: Seq<Seq<char>>) -> Seq<char>
    decreases parts.len(),
{
    if parts.len() == 0 {
        Seq::empty()
    } else {
        concat_all(parts.drop_last()) + parts.last()
    }
}

/// Adding a part at the end adds its text at the end.
pub proof fn lemma_concat_all_push(parts: Seq<Seq<char>>, last: Seq<char>)
    ensures
        concat_all(parts.push(last)) == concat_all(parts) + last,
{
    assert(parts.push(last).drop_last() =~= parts);
}

/// A point: `x,y` and a space.
pub open spec fn point_text(p: V) -> Seq<char> {
    mm(p.x as int) + seq![','] + mm(p.y as int) + seq![' ']
}

/// A point behind the letter that tells the pen what to do.
pub open spec fn command_text(letter: char, p: V) -> Seq<char> {
    seq![letter] + point_text(p)
}

/// The points of a path, each followed by a space.
pub open spec fn points_text(points: Seq<V>) -> Seq<char> {
    concat_all(points.map_values(|p: V| point_text(p)))
}

/// A path as a `polyline` element on a line of its own; nothing for a path
/// without a point.
pub open spec fn polyline_text(points: Seq<V>) -> Seq<char> {
    if points.len() == 0 {
        Seq::empty()
    } else {
        "<polyline points=\""@ + points_text(points) + "\"/>\n"@
    }
}

/// The `polyline` elements of `paths`, in order.
pub open spec fn polylines_text(paths: Seq<Seq<V>>) -> Seq<char> {
    concat_all(paths.map_values(|p: Seq<V>| polyline_text(p)))
}

/// An area as a closed sub-path: a move to its first point, a line to each
/// further point, and `Z`; nothing for an area without a point.
pub open spec fn area_text(points: Seq<V>) -> Seq<char> {
    if points.len() == 0 {
        Seq::empty()
    } else {
        command_text('M', points[0]) + concat_all(
            points.skip(1).map_values(|p: V| command_text('L', p)),
        ) + "Z "@
    }
}

/// A polygon as a `path` element on a line of its own, with one sub-path
/// for each area that has a point.
pub open spec fn polygon_text(areas: Seq<Seq<V>>) -> Seq<char> {
    "<path d=\""@ + concat_all(areas.map_values(|a: Seq<V>| area_text(a))) + "\"/>\n"@
}

/// The `path` elements of `polygons`, in order.
pub open spec fn polygons_text(polygons: Seq<Seq<Seq<V>>>) -> Seq<char> {
    concat_all(polygons.map_values(|p: Seq<Seq<V>>| polygon_text(p)))
}

/// Appends the point `p`.
fn push_point(out: &mut String, p: V)
    ensures
        final(out)@ == old(out)@ + point_text(p),
{
    proof {
        reveal_strlit(",");
        reveal_strlit(" ");
    }
    push_mm(out, p.x as i64);
    out.append(",");
    push_mm(out, p.y as i64);
    out.append(" ");
    assert(out@ =~= old(out)@ + point_text(p));
}

/// Appends the `polyline` element of `path`.
fn push_polyline(out: &mut String, path: &Path)
    ensures
        final(out)@ == old(out)@ + polyline_text(path@),
{
    if path.is_empty() {
        assert(out@ =~= old(out)@ + polyline_text(path@));
        return ;
    }
    let points = path.points();
    out.append("<polyline points=\"");
    let ghost head = out@;
    let ghost texts = points@.map_values(|p: V| point_text(p));
    let mut i: usize = 0;
    assert(texts.take(0) =~= Seq::<Seq<char>>::empty());
    while i < points.len()
        invariant
            i <= points.len(),
            texts == points@.map_values(|p: V| point_text(p)),
            out@ == head + concat_all(texts.take(i as int)),
        decreases points.len() - i,
    {
        proof {
            assert(texts.take(i + 1) =~= texts.take(i as int).push(point_text(points@[i as int])));
            lemma_concat_all_push(texts.take(i as int), point_text(points@[i as int]));
        }
        push_point(out, points[i]);
        assert(out@ =~= head + concat_all(texts.take(i + 1)));
        i = i + 1;
    }
    assert(texts.take(i as int) =~= texts);
    out.append("\"/>\n");
    assert(out@ =~= old(out)@ + polyline_text(path@));
}

/// Appends the `polyline` elements of `paths`.
pub fn push_polylines(out: &mut String, paths: &[Path])
    ensures
        final(out)@ == old(out)@ + polylines_text(views(paths@)),
{
    let ghost texts = views(paths@).map_values(|p: Seq<V>| polyline_text(p));
    let mut i: usize = 0;
    assert(texts.take(0) =~= Seq::<Seq<char>>::empty());
    assert(out@ =~= old(out)@ + concat_all(texts.take(0)));
    while i < paths.len()
        invariant
            i <= paths.len(),
            texts == views(paths@).map_values(|p: Seq<V>| polyline_text(p)),
            out@ == old(out)@ + concat_all(texts.take(i as int)),
        decreases paths.len() - i,
    {
        proof {
            assert(texts.take(i + 1) =~= texts.take(i as int).push(
                polyline_text(paths@[i as int]@),
            ));
            lemma_concat_all_push(texts.take(i as int), polyline_text(paths@[i as int]@));
        }
        push_polyline(out, &paths[i]);
        assert(out@ =~= old(out)@ + concat_all(texts.take(i + 1)));
        i = i + 1;
    }
    assert(texts.take(i as int) =~= texts);
}

/// The lines to the points of an area from its second point up to and
/// without point `i`.
pub open spec fn lines_text(points: Seq<V>, i: int) -> Seq<char> {
    concat_all(points.skip(1).map_values(|p: V| command_text('L', p)).take(i - 1))
}

/// One more point adds one more line.
proof fn lemma_lines_step(points: Seq<V>, i: int)
    requires
        1 <= i < points.len(),
    ensures
        lines_text(points, i + 1) == lines_text(points, i) + command_text('L', points[i]),
{
    let texts = points.skip(1).map_values(|p: V| command_text('L', p));
    let t = command_text('L', points[i]);
    assert(texts[i - 1] == t);
    assert(texts.take(i) =~= texts.take(i - 1).push(t));
    lemma_concat_all_push(texts.take(i - 1), t);
}

/// Appends a point behind the letter `letter`.
fn push_command(out: &mut String, letter: &str, p: V)
    requires
        letter@.len() == 1,
    ensures
        final(out)@ == old(out)@ + command_text(letter@[0], p),
{
    out.append(letter);
    push_point(out, p);
    assert(out@ =~= old(out)@ + command_text(letter@[0], p));
}

/// Appends the sub-path of the area `area`.
fn push_area(out: &mut String, area: &Path)
    ensures
        final(out)@ == old(out)@ + area_text(area@),
{
    if area.is_empty() {
        assert(out@ =~= old(out)@ + area_text(area@));
        return ;
    }
    let points = area.points();
    proof {
        reveal_strlit("M");
        reveal_strlit("L");
    }
    push_command(out, "M", points[0]);
    let ghost head = out@;
    let mut i: usize = 1;
    proof {
        let texts = points@.skip(1).map_values(|p: V| command_text('L', p));
        assert(texts.take(0) =~= Seq::<Seq<char>>::empty());
        assert(out@ =~= head + lines_text(points@, 1));
    }
    while i < points.len()
        invariant
            1 <= i <= points.len(),
            "L"@.len() == 1,
            "L"@[0] == 'L',
            out@ == head + lines_text(points@, i as int),
        decreases points.len() - i,
    {
        proof {
            lemma_lines_step(points@, i as int);
        }
        let ghost before = out@;
        push_command(out, "L", points[i]);
        assert(out@ =~= head + lines_text(points@, i + 1)) by {
            assert(out@ == before + command_text('L', points@[i as int]));
        }
        i = i + 1;
    }
    proof {
        let texts = points@.skip(1).map_values(|p: V| command_text('L', p));
        assert(texts.take(i - 1) =~= texts);
    }
    out.append("Z ");
    assert(out@ =~= old(out)@ + area_text(area@));
}

/// Appends the `path` element of `polygon`.
fn push_polygon(out: &mut String, polygon: &Polygon)
    ensures
        final(out)@ == old(out)@ + polygon_text(polygon@),
{
    let areas = polygon.areas();
    out.append("<path d=\"");
    let ghost head = out@;
    let ghost texts = polygon@.map_values(|a: Seq<V>| area_text(a));
    let mut i: usize = 0;
    assert(texts.take(0) =~= Seq::<Seq<char>>::empty());
    assert(out@ =~= head + concat_all(texts.take(0)));
    while i < areas.len()
        invariant
            i <= areas.len(),
            views(areas@) == polygon@,
            texts == polygon@.map_values(|a: Seq<V>| area_text(a)),
            out@ == head + concat_all(texts.take(i as int)),
        decreases areas.len() - i,
    {
        proof {
            assert(polygon@[i as int] == areas@[i as int]@);
            assert(texts.take(i + 1) =~= texts.take(i as int).push(area_text(areas@[i as int]@)));
            lemma_concat_all_push(texts.take(i as int), area_text(areas@[i as int]@));
        }
        push_area(out, &areas[i]);
        assert(out@ =~= head + concat_all(texts.take(i + 1)));
        i = i + 1;
    }
    assert(texts.take(i as int) =~= texts);
    out.append("\"/>\n");
    assert(out@ =~= old(out)@ + polygon_text(polygon@));
}

/// Appends the `path` elements of `polygons`.
pub fn push_polygons(out: &mut String, polygons: &[Polygon])
    ensures
        final(out)@ == old(out)@ + polygons_text(polygon_views(polygons@)),
{
    let ghost texts = polygon_views(polygons@).map_values(|p: Seq<Seq<V>>| polygon_text(p));
    let mut i: usize = 0;
    assert(texts.take(0) =~= Seq::<Seq<char>>::empty());
    assert(out@ =~= old(out)@ + concat_all(texts.take(0)));
    while i < polygons.len()
        invariant
            i <= polygons.len(),
            texts == polygon_views(polygons@).map_values(|p: Seq<Seq<V>>| polygon_text(p)),
            out@ == old(out)@ + concat_all(texts.take(i as int)),
        decreases polygons.len() - i,
    {
        proof {
            assert(texts.take(i + 1) =~= texts.take(i as int).push(
                polygon_text(polygons@[i as int]@),
            ));
            lemma_concat_all_push(texts.take(i as int), polygon_text(polygons@[i as int]@));
        }
        push_polygon(out, &polygons[i]);
        assert(out@ =~= old(out)@ + concat_all(texts.take(i + 1)));
        i = i + 1;
    }
    assert(texts.take(i as int) =~= texts);
}

} // verus!
