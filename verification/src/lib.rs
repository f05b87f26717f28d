//! Flattens a parsed 3D level into a 2D vector-graphics map.
//!
//! The library projects the level's vertices along a chosen axis, drops faces
//! whose texture is on an ignore list, orders the remaining faces back-to-front
//! by their minimum coordinate along that axis, samples one mean color per
//! texture from a downsampled raster, and composes the result into a single
//! SVG document. Parsing the binary level format, fetching texture rasters and
//! writing the document to disk are the callers' concern: every function here
//! works on plain values and is verified.

pub mod geometry;
pub mod textures;
pub mod level;
pub mod colors;
pub mod order;
pub mod fmt;
pub mod compose;
pub mod render;

pub use colors::ColorTable;
pub use colors::average_color;
pub use colors::build_color_table;
pub use compose::StuffToDraw;
pub use compose::compose;
pub use compose::stuff_to_draw;
pub use geometry::ProjectionAxis;
pub use geometry::Vertex3;
pub use geometry::project_vertices;
pub use level::Face;
pub use level::Level;
pub use order::RenderError;
pub use order::filter_and_sort_faces;
pub use order::filter_faces;
pub use render::render_document;
pub use textures::is_ignored_texture;
