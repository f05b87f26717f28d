//! Axis projection: mapping 3D vertices to 2D points.

use vstd::prelude::*;

verus! {

/// The axis along which the level is flattened to two dimensions.
#[derive(Clone, Copy, PartialEq, Eq, Structural, Debug)]
pub enum ProjectionAxis {
    X,
    Y,
    Z,
}

/// A 3D vertex of the level, in fixed-point integer coordinates.
#[derive(Clone, Copy, PartialEq, Eq, Structural, Debug)]
pub struct Vertex3 {
    pub x: i64,
    pub y: i64,
    pub z: i64,
}

/// Every coordinate a level may hold lies within this bound, so that the
/// arithmetic of projection and viewport computation stays inside `i64`.
pub const COORD_LIMIT: i64 = 1_000_000_000;

pub open spec fn coord_bounded(c: i64) -> bool {
    -COORD_LIMIT <= c <= COORD_LIMIT
}

pub open spec fn vertex_bounded(v: Vertex3) -> bool {
    coord_bounded(v.x) && coord_bounded(v.y) && coord_bounded(v.z)
}

/// The 2D image of one vertex: axis X keeps (y, z), axis Y keeps (x, z),
/// axis Z keeps (x, -y) — y is negated for a conventional top-down view.
pub open spec fn spec_project_vertex(v: Vertex3, axis: ProjectionAxis) -> (i64, i64) {
    match axis {
        ProjectionAxis::X => (v.y, v.z),
        ProjectionAxis::Y => (v.x, v.z),
        ProjectionAxis::Z => (v.x, (-(v.y as int)) as i64),
    }
}

/// The coordinate of one vertex along the chosen axis: the depth coordinate.
pub open spec fn spec_axis_coord(v: Vertex3, axis: ProjectionAxis) -> i64 {
    match axis {
        ProjectionAxis::X => v.x,
        ProjectionAxis::Y => v.y,
        ProjectionAxis::Z => v.z,
    }
}

pub open spec fn spec_project_all(vs: Seq<Vertex3>, axis: ProjectionAxis) -> Seq<(i64, i64)> {
    Seq::new(vs.len(), |i: int| spec_project_vertex(vs[i], axis))
}

/// The least value in a non-empty sequence (0 for an empty one).
pub open spec fn seq_min(s: Seq<i64>) -> int
    decreases s.len(),
{
    if s.len() == 0 {
        0
    } else if s.len() == 1 {
        s[0] as int
    } else {
        let m = seq_min(s.drop_last());
        if s.last() < m {
            s.last() as int
        } else {
            m
        }
    }
}

/// The greatest value in a non-empty sequence (0 for an empty one).
pub open spec fn seq_max(s: Seq<i64>) -> int
    decreases s.len(),
{
    if s.len() == 0 {
        0
    } else if s.len() == 1 {
        s[0] as int
    } else {
        let m = seq_max(s.drop_last());
        if s.last() > m {
            s.last() as int
        } else {
            m
        }
    }
}

/// The minimum of a non-empty sequence is one of its values and below all.
pub proof fn lemma_seq_min(s: Seq<i64>)
    requires
        s.len() > 0,
    ensures
        exists|i: int| 0 <= i < s.len() && s[i] == seq_min(s),
        forall|i: int| 0 <= i < s.len() ==> seq_min(s) <= #[trigger] s[i],
    decreases s.len(),
{
    if s.len() == 1 {
        assert(s[0] == seq_min(s));
    } else if s.len() > 1 {
        lemma_seq_min(s.drop_last());
        let m = seq_min(s.drop_last());
        assert forall|i: int| 0 <= i < s.len() implies seq_min(s) <= #[trigger] s[i] by {
            if i < s.len() - 1 {
                assert(s[i] == s.drop_last()[i]);
            }
        }
        if s.last() < m {
            assert(s[s.len() - 1] == seq_min(s));
        } else {
            let i = choose|i: int| 0 <= i < s.drop_last().len() && s.drop_last()[i] == m;
            assert(s[i] == m);
        }
    }
}

/// The maximum of a non-empty sequence is one of its values and above all.
pub proof fn lemma_seq_max(s: Seq<i64>)
    requires
        s.len() > 0,
    ensures
        exists|i: int| 0 <= i < s.len() && s[i] == seq_max(s),
        forall|i: int| 0 <= i < s.len() ==> #[trigger] s[i] <= seq_max(s),
    decreases s.len(),
{
    if s.len() == 1 {
        assert(s[0] == seq_max(s));
    } else if s.len() > 1 {
        lemma_seq_max(s.drop_last());
        let m = seq_max(s.drop_last());
        assert forall|i: int| 0 <= i < s.len() implies #[trigger] s[i] <= seq_max(s) by {
            if i < s.len() - 1 {
                assert(s[i] == s.drop_last()[i]);
            }
        }
        if s.last() > m {
            assert(s[s.len() - 1] == seq_max(s));
        } else {
            let i = choose|i: int| 0 <= i < s.drop_last().len() && s.drop_last()[i] == m;
            assert(s[i] == m);
        }
    }
}

/// Reads the coordinate of a vertex along the chosen axis.
pub fn axis_coord(v: &Vertex3, axis: &ProjectionAxis) -> (c: i64)
    ensures
        c == spec_axis_coord(*v, *axis),
{
    match axis {
        ProjectionAxis::X => v.x,
        ProjectionAxis::Y => v.y,
        ProjectionAxis::Z => v.z,
    }
}

/// Projects one vertex to 2D.
pub fn project_vertex(v: &Vertex3, axis: &ProjectionAxis) -> (p: (i64, i64))
    requires
        vertex_bounded(*v),
    ensures
        p == spec_project_vertex(*v, *axis),
{
    match axis {
        ProjectionAxis::X => (v.y, v.z),
        ProjectionAxis::Y => (v.x, v.z),
        ProjectionAxis::Z => (v.x, -v.y),
    }
}

/// Projects every vertex, in order; the result is index-aligned with the input.
pub fn project_vertices(vertices: &Vec<Vertex3>, axis: &ProjectionAxis) -> (r: Vec<(i64, i64)>)
    requires
        forall|i: int| 0 <= i < vertices@.len() ==> vertex_bounded(#[trigger] vertices@[i]),
    ensures
        r@ == spec_project_all(vertices@, *axis),
{
    let mut r: Vec<(i64, i64)> = Vec::new();
    let n = vertices.len();
    let mut i: usize = 0;
    while i < n
        invariant
            n == vertices@.len(),
            i <= n,
            r@.len() == i,
            forall|j: int| 0 <= j < vertices@.len() ==> vertex_bounded(#[trigger] vertices@[j]),
            forall|j: int| 0 <= j < i ==> r@[j] == spec_project_vertex(vertices@[j], *axis),
        decreases n - i,
    {
        let p = project_vertex(&vertices[i], axis);
        r.push(p);
        i += 1;
    }
    proof {
        assert(r@ =~= spec_project_all(vertices@, *axis));
    }
    r
}

} // verus!
