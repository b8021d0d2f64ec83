//! Verified core of a small 3D model viewer: model-format detection from a
//! path, the binary STL reader, assembly of meshes from indexed attribute
//! lists, texture mip-chain preparation, and the status-panel state.
//!
//! Floating-point values never appear here: a coordinate is carried as the
//! `u32` bit pattern of its `f32`, which is how it is stored on disk and on
//! the GPU.
pub mod format;

pub mod mesh;
pub mod stl;
pub mod texture;
pub mod ui;
