use bsp2svg::ProjectionAxis;
use bsp2svg::Vertex3;
use bsp2svg::project_vertices;

fn sample_vertices() -> Vec<Vertex3> {
    vec![
        Vertex3 { x: 3, y: -7, z: 11 },
        Vertex3 { x: 0, y: 0, z: 0 },
        Vertex3 { x: -2, y: 5, z: -9 },
    ]
}

#[test]
fn axis_z_keeps_x_and_negates_y() {
    let p = project_vertices(&sample_vertices(), &ProjectionAxis::Z);
    assert_eq!(p, vec![(3, 7), (0, 0), (-2, -5)]);
}

#[test]
fn axis_y_keeps_x_and_z() {
    let p = project_vertices(&sample_vertices(), &ProjectionAxis::Y);
    assert_eq!(p, vec![(3, 11), (0, 0), (-2, -9)]);
}

#[test]
fn axis_x_keeps_y_and_z() {
    let p = project_vertices(&sample_vertices(), &ProjectionAxis::X);
    assert_eq!(p, vec![(-7, 11), (0, 0), (5, -9)]);
}

#[test]
fn projection_is_index_aligned() {
    let vs = sample_vertices();
    let p = project_vertices(&vs, &ProjectionAxis::Z);
    assert_eq!(p.len(), vs.len());
}
