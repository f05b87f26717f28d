//! The whole conversion pipeline: project, sample, order, compose.

use vstd::prelude::*;
use crate::colors::RASTER_LIMIT;
use crate::colors::build_color_table;
use crate::colors::spec_table;
use crate::compose::compose;
use crate::compose::spec_document;
use crate::compose::spec_drawable;
use crate::compose::spec_drawables;
use crate::compose::stuff_to_draw;
use crate::geometry::ProjectionAxis;
use crate::geometry::coord_bounded;
use crate::geometry::project_vertices;
use crate::geometry::spec_project_all;
use crate::geometry::spec_project_vertex;
use crate::geometry::vertex_bounded;
use crate::level::Level;
use crate::level::face_name;
use crate::order::RenderError;
use crate::order::filter_and_sort_faces;
use crate::order::lemma_filtered_faces;
use crate::order::lemma_sort_pairs_membership;
use crate::order::face_min_depth;
use crate::order::spec_filter_faces;
use crate::order::spec_order;
use crate::order::spec_sort_pairs;
use crate::textures::is_ignored_spec;

verus! {

/// The document text for a level, an axis and the rasters of its textures
/// (index-aligned with the level's texture list).
pub open spec fn spec_render(level: Level, axis: ProjectionAxis, rasters: Seq<Seq<u8>>) -> Seq<
    char,
> {
    spec_document(
        spec_project_all(level.vertices@, axis),
        spec_drawables(level, axis, spec_order(level, axis)),
        spec_table(level.textures.deep_view(), rasters),
    )
}

/// Converts a level into the document text: projects every vertex, samples a
/// mean color per texture, filters and depth-orders the faces, and composes
/// the document. Fails exactly when a retained face has no vertices.
pub fn render_document(level: &Level, axis: &ProjectionAxis, rasters: &Vec<Vec<u8>>) -> (r: Result<
    String,
    RenderError,
>)
    requires
        level.wf(),
        level.vertices@.len() > 0,
        rasters@.len() == level.textures@.len(),
        forall|i: int| 0 <= i < rasters@.len() ==> (#[trigger] rasters@[i])@.len() <= RASTER_LIMIT,
    ensures
        r matches Ok(d) ==> d@ == spec_render(*level, *axis, rasters.deep_view()),
        (r matches Ok(d)) <==> (forall|i: int|
            0 <= i < spec_filter_faces(*level).len() ==> (#[trigger] spec_filter_faces(
                *level,
            )[i]).vertex_count > 0),
{
    let projected = project_vertices(&level.vertices, axis);
    let table = build_color_table(&level.textures, rasters);
    let ordered = match filter_and_sort_faces(level, axis) {
        Ok(f) => f,
        Err(e) => {
            return Err(e);
        },
    };
    let stuff = stuff_to_draw(level, axis, &ordered, &projected);
    proof {
        assert forall|i: int| 0 <= i < projected@.len() implies coord_bounded(
            (#[trigger] projected@[i]).0,
        ) && coord_bounded(projected@[i].1) by {
            assert(projected@[i] == spec_project_vertex(level.vertices@[i], *axis));
            assert(vertex_bounded(level.vertices@[i]));
        }
        assert forall|k: int, j: int|
            0 <= k < stuff@.len() && 0 <= j < stuff@[k]@.points.len() implies coord_bounded(
            (#[trigger] stuff@[k]@.points[j]).0,
        ) && coord_bounded(stuff@[k]@.points[j].1) by {
            assert(stuff.deep_view().len() == ordered@.len());
            assert(ordered@[k].vertex_count > 0);
            assert(stuff@[k]@ == stuff.deep_view()[k]);
            assert(stuff.deep_view()[k] == spec_drawable(*level, *axis, ordered@[k]));
            let f = ordered@[k];
            let m = choose|m: int| 0 <= m < level.faces@.len() && f == level.faces@[m];
            assert(level.face_ok(f));
            let idx = level.face_vertex_indices@[f.vertex_start + j] as int;
            assert(stuff@[k]@.points[j] == spec_project_vertex(level.vertices@[idx], *axis));
            assert(vertex_bounded(level.vertices@[idx]));
        }
    }
    let doc = compose(&projected, &stuff, &table);
    Ok(doc)
}

/// Converting the same level along the same axis with the same rasters twice
/// yields byte-identical documents: the text is a function of the input alone.
pub proof fn lemma_render_deterministic(
    level: Level,
    axis: ProjectionAxis,
    rasters: Seq<Seq<u8>>,
    d1: Seq<char>,
    d2: Seq<char>,
)
    requires
        d1 == spec_render(level, axis, rasters),
        d2 == spec_render(level, axis, rasters),
    ensures
        d1 == d2,
{
}

/// No face whose texture name is ignored appears in the ordered output.
pub proof fn lemma_no_ignored_face_in_order(level: Level, axis: ProjectionAxis, k: int)
    requires
        level.faces@.len() <= usize::MAX,
        0 <= k < spec_order(level, axis).len(),
    ensures
        !is_ignored_spec(face_name(level, spec_order(level, axis)[k])),
        exists|m: int|
            0 <= m < level.faces@.len() && spec_order(level, axis)[k] == #[trigger] level.faces@[m],
{
    let ff = spec_filter_faces(level);
    let pairs = Seq::new(
        ff.len(),
        |i: int| (face_min_depth(level, ff[i], axis) as i64, i as usize),
    );
    lemma_sort_pairs_membership(pairs, k);
    lemma_filtered_faces(level, level.faces@.len() as int);
    let p = spec_sort_pairs(pairs)[k];
    let m = choose|m: int| 0 <= m < pairs.len() && pairs[m] == p;
    assert(p.1 == m as usize);
    assert(ff.len() <= usize::MAX);
    assert(p.1 as int == m);
    assert(spec_order(level, axis)[k] == ff[p.1 as int]);
    assert(spec_order(level, axis)[k] == ff[m]);
}

/// A face whose texture matches an ignore rule never contributes a drawable
/// face, whatever its geometry or color.
pub proof fn lemma_no_ignored_drawable(level: Level, axis: ProjectionAxis, k: int)
    requires
        level.faces@.len() <= usize::MAX,
        0 <= k < spec_drawables(level, axis, spec_order(level, axis)).len(),
    ensures
        !is_ignored_spec(spec_drawables(level, axis, spec_order(level, axis))[k].texture_name),
{
    lemma_no_ignored_face_in_order(level, axis, k);
    assert(spec_drawables(level, axis, spec_order(level, axis))[k] == spec_drawable(
        level,
        axis,
        spec_order(level, axis)[k],
    ));
}

} // verus!
