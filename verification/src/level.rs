//! The parsed level as this library models it: vertices, faces and texture
//! names as plain values. A face slices into a flat pool of vertex indices,
//! so that faces are plain-data values.

use vstd::prelude::*;
use crate::geometry::ProjectionAxis;
use crate::geometry::Vertex3;
use crate::geometry::spec_axis_coord;
use crate::geometry::vertex_bounded;

verus! {

/// A planar polygon of the level: a depth-ordering key, a slice
/// `[vertex_start, vertex_start + vertex_count)` of the level's index pool,
/// and the index of its texture.
#[derive(Clone, Copy, PartialEq, Eq, Structural, Debug)]
pub struct Face {
    pub edge_list_index: u64,
    pub vertex_start: usize,
    pub vertex_count: usize,
    pub texture_index: usize,
}

/// A parsed level: its vertices, the flat pool of per-face vertex indices,
/// its faces, and its texture names (index-aligned with the faces'
/// `texture_index`).
pub struct Level {
    pub vertices: Vec<Vertex3>,
    pub face_vertex_indices: Vec<usize>,
    pub faces: Vec<Face>,
    pub textures: Vec<String>,
}

impl Level {
    /// A face's slice lies inside the pool, every pooled index it covers
    /// names an existing vertex, and its texture exists.
    pub open spec fn face_ok(self, f: Face) -> bool {
        &&& f.vertex_start + f.vertex_count <= self.face_vertex_indices@.len()
        &&& forall|j: int|
            f.vertex_start <= j < f.vertex_start + f.vertex_count
                ==> #[trigger] self.face_vertex_indices@[j] < self.vertices@.len()
        &&& f.texture_index < self.textures@.len()
    }

    /// Every face is in bounds and every coordinate is within `COORD_LIMIT`.
    pub open spec fn wf(self) -> bool {
        &&& forall|i: int| 0 <= i < self.faces@.len() ==> self.face_ok(#[trigger] self.faces@[i])
        &&& forall|i: int|
            0 <= i < self.vertices@.len() ==> vertex_bounded(#[trigger] self.vertices@[i])
    }
}

/// The name of a face's texture.
pub open spec fn face_name(level: Level, f: Face) -> Seq<char> {
    level.textures@[f.texture_index as int]@
}

/// The vertices of a face, in the face's own order.
pub open spec fn face_vertices(level: Level, f: Face) -> Seq<Vertex3> {
    Seq::new(
        f.vertex_count as nat,
        |j: int| level.vertices@[level.face_vertex_indices@[f.vertex_start + j] as int],
    )
}

/// The coordinates of a face's vertices along the chosen axis.
pub open spec fn face_axis_coords(level: Level, f: Face, axis: ProjectionAxis) -> Seq<i64> {
    face_vertices(level, f).map_values(|v: Vertex3| spec_axis_coord(v, axis))
}

} // verus!
