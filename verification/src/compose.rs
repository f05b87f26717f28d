//! Scene composition: drawable faces and the SVG document text.
//!
//! The document is one `<svg>` element holding, in order: a background
//! rectangle spanning the viewport, a hidden definitions block with one filled
//! polygon per drawable face, and two rendered references to that block — a
//! thick dark outline pass and a light-filled, thinly-stroked pass.

use vstd::prelude::*;
use vstd::string::StrSliceExecFns;
use vstd::string::StringExecFns;
use crate::colors::ColorTable;
use crate::colors::spec_lookup;
use crate::fmt::append_dec;
use crate::fmt::hex2;
use crate::fmt::spec_dec;
use crate::fmt::spec_hex2;
use crate::geometry::ProjectionAxis;
use crate::geometry::COORD_LIMIT;
use crate::geometry::coord_bounded;
use crate::geometry::lemma_seq_min;
use crate::geometry::lemma_seq_max;
use crate::geometry::seq_min;
use crate::geometry::seq_max;
use crate::geometry::spec_project_all;
use crate::geometry::spec_project_vertex;
use crate::level::Face;
use crate::level::Level;
use crate::level::face_axis_coords;
use crate::level::face_name;
use crate::order::face_depth_range;

verus! {

/// The fixed padding added on every side of the viewport.
pub const PADDING: i64 = 100;

/// One face ready to draw: its projected points in face order, its texture's
/// name, and the least and greatest depth coordinate over its vertices,
/// taken from the original 3D coordinates.
pub struct StuffToDraw {
    pub points: Vec<(i64, i64)>,
    pub texture_name: String,
    pub min_z: i64,
    pub max_z: i64,
}

/// The mathematical value of a `StuffToDraw`.
pub struct StuffView {
    pub points: Seq<(i64, i64)>,
    pub texture_name: Seq<char>,
    pub min_z: i64,
    pub max_z: i64,
}

impl View for StuffToDraw {
    type V = StuffView;

    open spec fn view(&self) -> StuffView {
        StuffView {
            points: self.points@,
            texture_name: self.texture_name@,
            min_z: self.min_z,
            max_z: self.max_z,
        }
    }
}

impl DeepView for StuffToDraw {
    type V = StuffView;

    open spec fn deep_view(&self) -> StuffView {
        self.view()
    }
}

/// The drawable derived from one face: its projected points (index-aligned
/// with its vertex list), its texture name, and its depth range.
pub open spec fn spec_drawable(level: Level, axis: ProjectionAxis, f: Face) -> StuffView {
    StuffView {
        points: Seq::new(
            f.vertex_count as nat,
            |j: int| spec_project_vertex(
                level.vertices@[level.face_vertex_indices@[f.vertex_start + j] as int],
                axis,
            ),
        ),
        texture_name: face_name(level, f),
        min_z: seq_min(face_axis_coords(level, f, axis)) as i64,
        max_z: seq_max(face_axis_coords(level, f, axis)) as i64,
    }
}

pub open spec fn spec_drawables(level: Level, axis: ProjectionAxis, faces: Seq<Face>) -> Seq<
    StuffView,
> {
    faces.map_values(|f: Face| spec_drawable(level, axis, f))
}

/// Builds one drawable per ordered face, keeping the faces' order. Each
/// drawable holds as many points as its face holds vertex indices.
pub fn stuff_to_draw(
    level: &Level,
    axis: &ProjectionAxis,
    ordered: &Vec<Face>,
    projected: &Vec<(i64, i64)>,
) -> (r: Vec<StuffToDraw>)
    requires
        level.wf(),
        projected@ == spec_project_all(level.vertices@, *axis),
        forall|k: int|
            0 <= k < ordered@.len() ==> (#[trigger] ordered@[k]).vertex_count > 0 && exists|m: int|
                0 <= m < level.faces@.len() && ordered@[k] == level.faces@[m],
    ensures
        r.deep_view() == spec_drawables(*level, *axis, ordered@),
{
    let mut r: Vec<StuffToDraw> = Vec::new();
    let n = ordered.len();
    let pool_len = level.face_vertex_indices.len();
    let mut k: usize = 0;
    while k < n
        invariant
            level.wf(),
            projected@ == spec_project_all(level.vertices@, *axis),
            n == ordered@.len(),
            pool_len == level.face_vertex_indices@.len(),
            forall|k2: int|
                0 <= k2 < ordered@.len() ==> (#[trigger] ordered@[k2]).vertex_count > 0 && exists|m: int|
                    0 <= m < level.faces@.len() && ordered@[k2] == level.faces@[m],
            k <= n,
            r@.len() == k,
            forall|j: int|
                0 <= j < k ==> #[trigger] r@[j].deep_view() == spec_drawable(
                    *level,
                    *axis,
                    ordered@[j],
                ),
        decreases n - k,
    {
        let f = ordered[k];
        proof {
            let m = choose|m: int| 0 <= m < level.faces@.len() && ordered@[k as int] == level.faces@[m];
            assert(level.face_ok(f));
        }
        let ghost pspec = spec_drawable(*level, *axis, f).points;
        let mut pts: Vec<(i64, i64)> = Vec::new();
        let mut j: usize = 0;
        while j < f.vertex_count
            invariant
                level.wf(),
                level.face_ok(f),
                pool_len == level.face_vertex_indices@.len(),
                projected@ == spec_project_all(level.vertices@, *axis),
                pspec == spec_drawable(*level, *axis, f).points,
                j <= f.vertex_count,
                pts@.len() == j,
                forall|j2: int| 0 <= j2 < j ==> pts@[j2] == #[trigger] pspec[j2],
            decreases f.vertex_count - j,
        {
            let idx = level.face_vertex_indices[f.vertex_start + j];
            pts.push(projected[idx]);
            j += 1;
        }
        let name = level.textures[f.texture_index].clone();
        let range = face_depth_range(level, &f, axis);
        let item = StuffToDraw { points: pts, texture_name: name, min_z: range.0, max_z: range.1 };
        proof {
            assert(item@.points =~= pspec);
            assert(item.deep_view() == spec_drawable(*level, *axis, f));
        }
        r.push(item);
        k += 1;
    }
    proof {
        assert(r.deep_view() =~= spec_drawables(*level, *axis, ordered@));
    }
    r
}

/// The least and greatest u and v over all projected points:
/// (min u, max u, min v, max v).
pub open spec fn spec_bounds(points: Seq<(i64, i64)>) -> (int, int, int, int) {
    let us = points.map_values(|p: (i64, i64)| p.0);
    let vs = points.map_values(|p: (i64, i64)| p.1);
    (seq_min(us), seq_max(us), seq_min(vs), seq_max(vs))
}

/// The viewport: the bounds of all projected points, expanded by `PADDING`
/// on every side, as (x, y, width, height).
pub open spec fn spec_viewbox(points: Seq<(i64, i64)>) -> (int, int, int, int) {
    let b = spec_bounds(points);
    (
        b.0 - PADDING,
        b.2 - PADDING,
        b.1 - b.0 + 2 * PADDING,
        b.3 - b.2 + 2 * PADDING,
    )
}

/// Computes the extreme projected coordinates over all points.
#[verifier::rlimit(60)]
pub fn bounds(points: &Vec<(i64, i64)>) -> (b: (i64, i64, i64, i64))
    requires
        points@.len() > 0,
        forall|i: int|
            0 <= i < points@.len() ==> coord_bounded((#[trigger] points@[i]).0) && coord_bounded(
                points@[i].1,
            ),
    ensures
        b.0 as int == spec_bounds(points@).0,
        b.1 as int == spec_bounds(points@).1,
        b.2 as int == spec_bounds(points@).2,
        b.3 as int == spec_bounds(points@).3,
        coord_bounded(b.0) && coord_bounded(b.1) && coord_bounded(b.2) && coord_bounded(b.3),
        b.0 <= b.1 && b.2 <= b.3,
{
    let ghost us = points@.map_values(|p: (i64, i64)| p.0);
    let ghost vs = points@.map_values(|p: (i64, i64)| p.1);
    let p0 = points[0];
    let mut min_u = p0.0;
    let mut max_u = p0.0;
    let mut min_v = p0.1;
    let mut max_v = p0.1;
    let mut i: usize = 1;
    proof {
        assert(us.take(1) =~= seq![p0.0]);
        assert(vs.take(1) =~= seq![p0.1]);
    }
    while i < points.len()
        invariant
            points@.len() > 0,
            forall|i2: int|
                0 <= i2 < points@.len() ==> coord_bounded((#[trigger] points@[i2]).0)
                    && coord_bounded(points@[i2].1),
            us == points@.map_values(|p: (i64, i64)| p.0),
            vs == points@.map_values(|p: (i64, i64)| p.1),
            0 < i <= points@.len(),
            min_u as int == seq_min(us.take(i as int)),
            max_u as int == seq_max(us.take(i as int)),
            min_v as int == seq_min(vs.take(i as int)),
            max_v as int == seq_max(vs.take(i as int)),
        decreases points@.len() - i,
    {
        let p = points[i];
        proof {
            assert(us.take(i + 1).drop_last() =~= us.take(i as int));
            assert(vs.take(i + 1).drop_last() =~= vs.take(i as int));
            assert(us.take(i + 1).last() == p.0);
            assert(vs.take(i + 1).last() == p.1);
        }
        if p.0 < min_u {
            min_u = p.0;
        }
        if p.0 > max_u {
            max_u = p.0;
        }
        if p.1 < min_v {
            min_v = p.1;
        }
        if p.1 > max_v {
            max_v = p.1;
        }
        i += 1;
    }
    proof {
        assert(us.take(points@.len() as int) =~= us);
        assert(vs.take(points@.len() as int) =~= vs);
        lemma_seq_min(us);
        lemma_seq_max(us);
        lemma_seq_min(vs);
        lemma_seq_max(vs);
        let a = choose|a: int| 0 <= a < us.len() && us[a] == seq_min(us);
        assert(coord_bounded(points@[a].0));
        let b2 = choose|a: int| 0 <= a < us.len() && us[a] == seq_max(us);
        assert(coord_bounded(points@[b2].0));
        let c = choose|a: int| 0 <= a < vs.len() && vs[a] == seq_min(vs);
        assert(coord_bounded(points@[c].1));
        let d = choose|a: int| 0 <= a < vs.len() && vs[a] == seq_max(vs);
        assert(coord_bounded(points@[d].1));
        assert(seq_min(us) <= us[0] <= seq_max(us));
        assert(seq_min(vs) <= vs[0] <= seq_max(vs));
    }
    (min_u, max_u, min_v, max_v)
}

/// Computes the document viewport from all projected points.
pub fn viewbox(points: &Vec<(i64, i64)>) -> (vb: (i64, i64, i64, i64))
    requires
        points@.len() > 0,
        forall|i: int|
            0 <= i < points@.len() ==> coord_bounded((#[trigger] points@[i]).0) && coord_bounded(
                points@[i].1,
            ),
    ensures
        vb.0 as int == spec_viewbox(points@).0,
        vb.1 as int == spec_viewbox(points@).1,
        vb.2 as int == spec_viewbox(points@).2,
        vb.3 as int == spec_viewbox(points@).3,
        vb.0 > i64::MIN && vb.1 > i64::MIN && vb.2 > i64::MIN && vb.3 > i64::MIN,
{
    let b = bounds(points);
    (b.0 - PADDING, b.2 - PADDING, b.1 - b.0 + 2 * PADDING, b.3 - b.2 + 2 * PADDING)
}

/// The `u,v` text of one projected point.
pub open spec fn spec_pair(p: (i64, i64)) -> Seq<char> {
    spec_dec(p.0 as int) + ","@ + spec_dec(p.1 as int)
}

/// The `points` attribute: the `u,v` pairs separated by single spaces.
pub open spec fn spec_points_attr(points: Seq<(i64, i64)>) -> Seq<char>
    decreases points.len(),
{
    if points.len() == 0 {
        Seq::empty()
    } else if points.len() == 1 {
        spec_pair(points[0])
    } else {
        spec_points_attr(points.drop_last()) + " "@ + spec_pair(points.last())
    }
}

/// Formats the `points` attribute of one polygon.
pub fn points_attr(points: &Vec<(i64, i64)>) -> (r: String)
    requires
        forall|i: int|
            0 <= i < points@.len() ==> coord_bounded((#[trigger] points@[i]).0) && coord_bounded(
                points@[i].1,
            ),
    ensures
        r@ == spec_points_attr(points@),
{
    let mut r = String::new();
    let n = points.len();
    let mut j: usize = 0;
    while j < n
        invariant
            n == points@.len(),
            forall|i: int|
                0 <= i < points@.len() ==> coord_bounded((#[trigger] points@[i]).0)
                    && coord_bounded(points@[i].1),
            j <= n,
            r@ == spec_points_attr(points@.take(j as int)),
        decreases n - j,
    {
        if j > 0 {
            r.append(" ");
        }
        let p = points[j];
        append_dec(&mut r, p.0);
        r.append(",");
        append_dec(&mut r, p.1);
        proof {
            assert(points@.take(j + 1).drop_last() =~= points@.take(j as int));
            assert(points@.take(j + 1).last() == points@[j as int]);
            assert(r@ =~= spec_points_attr(points@.take(j + 1)));
        }
        j += 1;
    }
    proof {
        assert(points@.take(n as int) =~= points@);
    }
    r
}

/// A color as `#rrggbb`, lowercase hex.
pub open spec fn spec_color_hex(c: (u8, u8, u8)) -> Seq<char> {
    "#"@ + spec_hex2(c.0) + spec_hex2(c.1) + spec_hex2(c.2)
}

/// The fill of a face: its texture's sampled color, or opaque white when the
/// texture is absent from the color table.
pub open spec fn spec_fill_color(
    entries: Seq<(Seq<char>, (u8, u8, u8))>,
    name: Seq<char>,
) -> Seq<char> {
    match spec_lookup(entries, name) {
        Some(c) => spec_color_hex(c),
        None => spec_color_hex((255u8, 255u8, 255u8)),
    }
}

/// Formats a color as `#rrggbb`.
pub fn color_hex(c: (u8, u8, u8)) -> (r: String)
    ensures
        r@ == spec_color_hex(c),
{
    let mut r = String::from_str("#");
    let h0 = hex2(c.0);
    r.append(h0.as_str());
    let h1 = hex2(c.1);
    r.append(h1.as_str());
    let h2 = hex2(c.2);
    r.append(h2.as_str());
    proof {
        assert(r@ =~= spec_color_hex(c));
    }
    r
}

/// Resolves a texture name to its fill color text, white when absent.
pub fn fill_color(table: &ColorTable, name: &str) -> (r: String)
    ensures
        r@ == spec_fill_color(table@, name@),
{
    match table.lookup(name) {
        Some(c) => color_hex(c),
        None => color_hex((255, 255, 255)),
    }
}

/// The text of one polygon element.
pub open spec fn spec_polygon(
    item: StuffView,
    entries: Seq<(Seq<char>, (u8, u8, u8))>,
) -> Seq<char> {
    "<polygon points=\""@ + spec_points_attr(item.points) + "\" fill=\""@ + spec_fill_color(
        entries,
        item.texture_name,
    ) + "\"/>\n"@
}

/// The polygons of all drawable faces, in order.
pub open spec fn spec_polygons(
    items: Seq<StuffView>,
    entries: Seq<(Seq<char>, (u8, u8, u8))>,
) -> Seq<char>
    decreases items.len(),
{
    if items.len() == 0 {
        Seq::empty()
    } else {
        spec_polygons(items.drop_last(), entries) + spec_polygon(items.last(), entries)
    }
}

/// Formats one polygon element.
fn polygon_text(item: &StuffToDraw, table: &ColorTable) -> (r: String)
    requires
        forall|j: int|
            0 <= j < item@.points.len() ==> coord_bounded((#[trigger] item@.points[j]).0)
                && coord_bounded(item@.points[j].1),
    ensures
        r@ == spec_polygon(item@, table@),
{
    let mut r = String::from_str("<polygon points=\"");
    let pa = points_attr(&item.points);
    r.append(pa.as_str());
    r.append("\" fill=\"");
    let fc = fill_color(table, item.texture_name.as_str());
    r.append(fc.as_str());
    r.append("\"/>\n");
    proof {
        assert(r@ =~= spec_polygon(item@, table@));
    }
    r
}

/// The document's opening: the `<svg>` root with its viewBox, the background
/// rectangle covering the viewport in solid black, and the opening of the
/// hidden definitions group.
pub open spec fn spec_doc_head(vb: (int, int, int, int)) -> Seq<char> {
    "<svg viewBox=\""@ + spec_dec(vb.0) + " "@ + spec_dec(vb.1) + " "@ + spec_dec(vb.2) + " "@
        + spec_dec(vb.3) + "\" xmlns=\"http://www.w3.org/2000/svg\">\n"@ + "<rect x=\""@ + spec_dec(
        vb.0,
    ) + "\" y=\""@ + spec_dec(vb.1) + "\" width=\""@ + spec_dec(vb.2) + "\" height=\""@ + spec_dec(
        vb.3,
    ) + "\" fill=\"black\"/>\n"@ + "<defs>\n<g id=\"bsp_ref\">\n"@
}

/// The document's closing: the end of the definitions block and the two
/// rendered references to it — the thick sharp-joined outline pass and the
/// light-filled, thinly-stroked pass.
pub open spec fn spec_doc_tail() -> Seq<char> {
    "</g>\n</defs>\n"@
        + "<use href=\"#bsp_ref\" stroke=\"black\" stroke-width=\"10\" stroke-miterlimit=\"0\"/>\n"@
        + "<use href=\"#bsp_ref\" fill=\"#eee\" stroke=\"black\" stroke-width=\"0.5\"/>\n"@
        + "</svg>\n"@
}

/// The whole document text for the given projected points, drawables and
/// color table.
pub open spec fn spec_document(
    points: Seq<(i64, i64)>,
    items: Seq<StuffView>,
    entries: Seq<(Seq<char>, (u8, u8, u8))>,
) -> Seq<char> {
    spec_doc_head(spec_viewbox(points)) + spec_polygons(items, entries) + spec_doc_tail()
}

/// Assembles the document: background, hidden definitions with one polygon
/// per drawable face in the given order, and the two overlay references.
pub fn compose(
    projected: &Vec<(i64, i64)>,
    stuff: &Vec<StuffToDraw>,
    table: &ColorTable,
) -> (r: String)
    requires
        projected@.len() > 0,
        forall|i: int|
            0 <= i < projected@.len() ==> coord_bounded((#[trigger] projected@[i]).0)
                && coord_bounded(projected@[i].1),
        forall|k: int, j: int|
            0 <= k < stuff@.len() && 0 <= j < stuff@[k]@.points.len() ==> coord_bounded(
                (#[trigger] stuff@[k]@.points[j]).0,
            ) && coord_bounded(stuff@[k]@.points[j].1),
    ensures
        r@ == spec_document(projected@, stuff.deep_view(), table@),
{
    let vb = viewbox(projected);
    let ghost vbs = spec_viewbox(projected@);
    let mut d = String::from_str("<svg viewBox=\"");
    append_dec(&mut d, vb.0);
    d.append(" ");
    append_dec(&mut d, vb.1);
    d.append(" ");
    append_dec(&mut d, vb.2);
    d.append(" ");
    append_dec(&mut d, vb.3);
    d.append("\" xmlns=\"http://www.w3.org/2000/svg\">\n");
    d.append("<rect x=\"");
    append_dec(&mut d, vb.0);
    d.append("\" y=\"");
    append_dec(&mut d, vb.1);
    d.append("\" width=\"");
    append_dec(&mut d, vb.2);
    d.append("\" height=\"");
    append_dec(&mut d, vb.3);
    d.append("\" fill=\"black\"/>\n");
    d.append("<defs>\n<g id=\"bsp_ref\">\n");
    proof {
        assert(d@ =~= spec_doc_head(vbs));
    }
    let ghost head = spec_doc_head(vbs);
    let ghost items = stuff.deep_view();
    let n = stuff.len();
    let mut k: usize = 0;
    proof {
        assert(items.take(0) =~= Seq::<StuffView>::empty());
        assert(d@ =~= head + spec_polygons(items.take(0), table@));
    }
    while k < n
        invariant
            n == stuff@.len(),
            items == stuff.deep_view(),
            head == spec_doc_head(vbs),
            forall|k2: int, j: int|
                0 <= k2 < stuff@.len() && 0 <= j < stuff@[k2]@.points.len() ==> coord_bounded(
                    (#[trigger] stuff@[k2]@.points[j]).0,
                ) && coord_bounded(stuff@[k2]@.points[j].1),
            k <= n,
            d@ == head + spec_polygons(items.take(k as int), table@),
        decreases n - k,
    {
        let poly = polygon_text(&stuff[k], table);
        d.append(poly.as_str());
        proof {
            assert(items.take(k + 1).drop_last() =~= items.take(k as int));
            assert(items.take(k + 1).last() == items[k as int]);
            assert(items[k as int] == stuff@[k as int]@);
            assert(d@ =~= head + spec_polygons(items.take(k + 1), table@));
        }
        k += 1;
    }
    d.append("</g>\n</defs>\n");
    d.append("<use href=\"#bsp_ref\" stroke=\"black\" stroke-width=\"10\" stroke-miterlimit=\"0\"/>\n");
    d.append("<use href=\"#bsp_ref\" fill=\"#eee\" stroke=\"black\" stroke-width=\"0.5\"/>\n");
    d.append("</svg>\n");
    proof {
        assert(items.take(n as int) =~= items);
        assert(d@ =~= spec_document(projected@, stuff.deep_view(), table@));
    }
    d
}

} // verus!
