use bsp2svg::Face;
use bsp2svg::Level;
use bsp2svg::ProjectionAxis;
use bsp2svg::RenderError;
use bsp2svg::Vertex3;
use bsp2svg::filter_and_sort_faces;
use bsp2svg::filter_faces;

fn vertex(x: i64, y: i64, z: i64) -> Vertex3 {
    Vertex3 { x, y, z }
}

/// A level whose faces are single-vertex polygons, one vertex each, so that a
/// face's minimum depth is exactly its vertex's coordinate.
fn level_of(zs: &[i64], textures: &[&str], tex_of_face: &[usize]) -> Level {
    let vertices: Vec<Vertex3> = zs.iter().map(|&z| vertex(z, z, z)).collect();
    let face_vertex_indices: Vec<usize> = (0..zs.len()).collect();
    let faces: Vec<Face> = tex_of_face
        .iter()
        .enumerate()
        .map(|(i, &t)| Face {
            edge_list_index: i as u64,
            vertex_start: i,
            vertex_count: 1,
            texture_index: t,
        })
        .collect();
    Level {
        vertices,
        face_vertex_indices,
        faces,
        textures: textures.iter().map(|t| t.to_string()).collect(),
    }
}

#[test]
fn ignored_textures_drop_their_faces() {
    let level = level_of(&[0, 1, 2], &["metal", "sky1", "wall"], &[0, 1, 2]);
    let kept = filter_faces(&level);
    assert_eq!(kept.len(), 2);
    assert_eq!(kept[0].texture_index, 0);
    assert_eq!(kept[1].texture_index, 2);
}

#[test]
fn faces_sort_ascending_by_minimum_depth() {
    let level = level_of(&[5, -3, 9, 0], &["metal"], &[0, 0, 0, 0]);
    let ordered = filter_and_sort_faces(&level, &ProjectionAxis::Z).unwrap();
    let depths: Vec<i64> = ordered
        .iter()
        .map(|f| level.vertices[level.face_vertex_indices[f.vertex_start]].z)
        .collect();
    assert_eq!(depths, vec![-3, 0, 5, 9]);
}

#[test]
fn ties_keep_the_original_face_order() {
    let level = level_of(&[4, 4, 4, 1], &["metal"], &[0, 0, 0, 0]);
    let ordered = filter_and_sort_faces(&level, &ProjectionAxis::Z).unwrap();
    let starts: Vec<usize> = ordered.iter().map(|f| f.vertex_start).collect();
    assert_eq!(starts, vec![3, 0, 1, 2]);
}

#[test]
fn the_axis_decides_which_coordinate_sorts() {
    // x ascending one way, y the other
    let mut level = level_of(&[0, 0], &["metal"], &[0, 0]);
    level.vertices = vec![vertex(1, 9, 0), vertex(2, 3, 0)];
    let by_x = filter_and_sort_faces(&level, &ProjectionAxis::X).unwrap();
    assert_eq!(by_x[0].vertex_start, 0);
    let by_y = filter_and_sort_faces(&level, &ProjectionAxis::Y).unwrap();
    assert_eq!(by_y[0].vertex_start, 1);
}

#[test]
fn a_retained_face_without_vertices_is_an_error() {
    let mut level = level_of(&[0], &["metal"], &[0]);
    level.faces[0].vertex_count = 0;
    let r = filter_and_sort_faces(&level, &ProjectionAxis::Z);
    assert_eq!(r, Err(RenderError::DepthComputation));
}

#[test]
fn an_ignored_face_without_vertices_is_no_error() {
    let mut level = level_of(&[0, 1], &["clip", "metal"], &[0, 1]);
    level.faces[0].vertex_count = 0;
    let r = filter_and_sort_faces(&level, &ProjectionAxis::Z).unwrap();
    assert_eq!(r.len(), 1);
    assert_eq!(r[0].texture_index, 1);
}

#[test]
fn no_ignored_face_reaches_the_ordered_output() {
    let level = level_of(
        &[3, 1, 2, 0],
        &["metal", "sky1", "trigger", "wall"],
        &[0, 1, 2, 3],
    );
    let ordered = filter_and_sort_faces(&level, &ProjectionAxis::Z).unwrap();
    assert_eq!(ordered.len(), 2);
    for f in &ordered {
        assert!(f.texture_index == 0 || f.texture_index == 3);
    }
}
