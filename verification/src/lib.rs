//! Verified terrain tiles: decoding gridded elevation rasters and laying out
//! triangle meshes over them at a chosen level of detail.
//!
//! The crate works on exact values only. Heights are either whole centimetres
//! (decoded from packed image channels) or values of a caller-chosen type that
//! the crate moves around without inspecting. Everything that needs rounding
//! arithmetic (world positions, unit normals) is left to the caller, who gets
//! the grid coordinates, the gathered heights and the triangle list from here.

pub mod elevation_parser;
pub mod error;
pub mod field;
pub mod mesh_generator;
pub mod text;

pub use elevation_parser::{ElevationParser, RasterView, RgbRaster, NO_DATA, ZERO_LEVEL};
pub use error::{ErrorKind, MeshError, PngError, TextError};
pub use field::{field_index, FIELD_LEN, FIELD_SIDE};
pub use mesh_generator::{LodLevel, MeshData, MeshGenerator, MeshView, Vertex};
