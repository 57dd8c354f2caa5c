//! # inochi2d
//!
//! Loading and rendering of rigged 2D puppets: the binary container codec, the
//! puppet data model, parameter grid interpolation, scene flattening and
//! z-ordering, the mask compositor, and texture decoding.
//!
//! Every number that the file format stores as a float is held here as a
//! 16.16 fixed-point value (see [`fixed`]).

pub mod codec;
pub mod fixed;
pub mod interp;
pub mod param;
pub mod glow;
pub mod gl;
pub mod model;
pub mod scene;
pub mod render;
pub mod tga;
pub mod decode;
