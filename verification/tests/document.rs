use bsp2svg::ColorTable;
use bsp2svg::Face;
use bsp2svg::Level;
use bsp2svg::ProjectionAxis;
use bsp2svg::StuffToDraw;
use bsp2svg::Vertex3;
use bsp2svg::compose;
use bsp2svg::filter_and_sort_faces;
use bsp2svg::project_vertices;
use bsp2svg::render_document;
use bsp2svg::stuff_to_draw;

/// One face of four vertices forming a unit square in the z = 0 plane,
/// textured "metal".
fn unit_square_level() -> Level {
    Level {
        vertices: vec![
            Vertex3 { x: 0, y: 0, z: 0 },
            Vertex3 { x: 1, y: 0, z: 0 },
            Vertex3 { x: 1, y: 1, z: 0 },
            Vertex3 { x: 0, y: 1, z: 0 },
        ],
        face_vertex_indices: vec![0, 1, 2, 3],
        faces: vec![Face {
            edge_list_index: 0,
            vertex_start: 0,
            vertex_count: 4,
            texture_index: 0,
        }],
        textures: vec![String::from("metal")],
    }
}

fn uniform_rasters() -> Vec<Vec<u8>> {
    vec![[10u8, 20, 30].repeat(8)]
}

#[test]
fn unit_square_document() {
    let level = unit_square_level();
    let doc = render_document(&level, &ProjectionAxis::Z, &uniform_rasters()).unwrap();
    // exactly one polygon, with the square's four projected points
    assert_eq!(doc.matches("<polygon").count(), 1);
    assert!(doc.contains("points=\"0,0 1,0 1,-1 0,-1\""));
    // the uniform (10, 20, 30) raster colors it #0a141e
    assert!(doc.contains("fill=\"#0a141e\""));
    // the viewport is the square's extent padded by 100 on every side
    assert!(doc.contains("<svg viewBox=\"-100 -101 201 201\""));
    assert!(doc.contains(
        "<rect x=\"-100\" y=\"-101\" width=\"201\" height=\"201\" fill=\"black\"/>"
    ));
}

#[test]
fn document_structure_holds_defs_and_two_overlays() {
    let level = unit_square_level();
    let doc = render_document(&level, &ProjectionAxis::Z, &uniform_rasters()).unwrap();
    assert!(doc.starts_with("<svg viewBox=\""));
    assert!(doc.ends_with("</svg>\n"));
    assert!(doc.contains("<defs>\n<g id=\"bsp_ref\">\n"));
    assert_eq!(doc.matches("<use href=\"#bsp_ref\"").count(), 2);
    assert!(doc.contains(
        "<use href=\"#bsp_ref\" stroke=\"black\" stroke-width=\"10\" stroke-miterlimit=\"0\"/>"
    ));
    assert!(doc.contains(
        "<use href=\"#bsp_ref\" fill=\"#eee\" stroke=\"black\" stroke-width=\"0.5\"/>"
    ));
}

#[test]
fn converting_twice_is_byte_identical() {
    let level = unit_square_level();
    let d1 = render_document(&level, &ProjectionAxis::Z, &uniform_rasters()).unwrap();
    let d2 = render_document(&level, &ProjectionAxis::Z, &uniform_rasters()).unwrap();
    assert_eq!(d1.as_bytes(), d2.as_bytes());
}

#[test]
fn ignored_texture_contributes_no_polygon() {
    let mut level = unit_square_level();
    // a second face, fine geometry, but a texture on the ignore list
    level.faces.push(Face {
        edge_list_index: 1,
        vertex_start: 0,
        vertex_count: 4,
        texture_index: 1,
    });
    level.textures.push(String::from("sky1"));
    let rasters = vec![[10u8, 20, 30].repeat(8), [1u8, 2, 3].repeat(8)];
    let doc = render_document(&level, &ProjectionAxis::Z, &rasters).unwrap();
    assert_eq!(doc.matches("<polygon").count(), 1);
    assert!(!doc.contains("#010203"));
}

#[test]
fn missing_color_falls_back_to_white() {
    let projected: Vec<(i64, i64)> = vec![(0, 0), (4, -4)];
    let stuff = vec![StuffToDraw {
        points: vec![(0, 0), (4, 0), (4, -4)],
        texture_name: String::from("metal"),
        min_z: 0,
        max_z: 0,
    }];
    let table = ColorTable { entries: Vec::new() };
    let doc = compose(&projected, &stuff, &table);
    assert!(doc.contains("fill=\"#ffffff\""));
}

#[test]
fn a_level_without_faces_yields_an_empty_defs_group() {
    let mut level = unit_square_level();
    level.faces.clear();
    let doc = render_document(&level, &ProjectionAxis::Z, &uniform_rasters()).unwrap();
    assert_eq!(doc.matches("<polygon").count(), 0);
    assert!(doc.contains("<defs>\n<g id=\"bsp_ref\">\n</g>\n</defs>"));
}

#[test]
fn drawables_carry_projected_points_and_original_depth_range() {
    let mut level = unit_square_level();
    level.vertices[2].z = 7;
    level.vertices[3].z = -4;
    let axis = ProjectionAxis::Z;
    let projected = project_vertices(&level.vertices, &axis);
    let ordered = filter_and_sort_faces(&level, &axis).unwrap();
    let stuff = stuff_to_draw(&level, &axis, &ordered, &projected);
    assert_eq!(stuff.len(), 1);
    assert_eq!(stuff[0].points.len(), 4);
    assert_eq!(stuff[0].points, vec![(0, 0), (1, 0), (1, -1), (0, -1)]);
    assert_eq!(stuff[0].texture_name, "metal");
    assert_eq!(stuff[0].min_z, -4);
    assert_eq!(stuff[0].max_z, 7);
}

#[test]
fn back_faces_precede_front_faces_in_the_document() {
    // two squares at different depths; the nearer one must come second
    let level = Level {
        vertices: vec![
            Vertex3 { x: 0, y: 0, z: 5 },
            Vertex3 { x: 2, y: 0, z: 5 },
            Vertex3 { x: 0, y: 0, z: -5 },
            Vertex3 { x: 2, y: 0, z: -5 },
        ],
        face_vertex_indices: vec![0, 1, 2, 3],
        faces: vec![
            Face { edge_list_index: 0, vertex_start: 0, vertex_count: 2, texture_index: 0 },
            Face { edge_list_index: 1, vertex_start: 2, vertex_count: 2, texture_index: 1 },
        ],
        textures: vec![String::from("metal"), String::from("stone")],
    };
    let rasters = vec![vec![255u8, 0, 0], vec![0u8, 255, 0]];
    let doc = render_document(&level, &ProjectionAxis::Z, &rasters).unwrap();
    let far = doc.find("#00ff00").unwrap();
    let near = doc.find("#ff0000").unwrap();
    assert!(far < near);
}
