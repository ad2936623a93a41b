//! Geometry ingestion and interactive view state for a triangulated model viewer.
//!
//! Coordinates are read from text as exact fixed-point decimals (millionths
//! of a unit), normalised with exact integer arithmetic, and handed to the
//! renderer as rationals; conversion to GPU floats happens at the upload
//! edge, outside this crate.
pub mod bmp;
pub mod buffer;
pub mod data;
pub mod face;
pub mod key_in;
pub mod normalize;
pub mod number;
pub mod render;
pub mod text;
pub mod transform;
pub mod vert;
pub mod viewer;

pub use bmp::{load_bmp, ImageError};
pub use buffer::load_vertices;
pub use data::{
    parse_face_point, parse_faces, parse_geo_vert, parse_text_vert, parse_vert_norm, parsing_data,
    Data, Vect3,
};
pub use face::{
    grey_scale, pick_in_range, pick_shade, random_range, random_u64, triangulate, Corner, Face,
};
pub use key_in::{Command, Control, KeyIn};
pub use normalize::{centroid, normalize, Normalized, Point};
pub use number::{parse_index, parse_number, ParseError, Ratio};
pub use render::{FillMode, RenderState, ShaderVariant};
pub use transform::{Pose, TransformState};
pub use vert::{parse_vertex, Vertex};
pub use viewer::Viewer;
