//! A software 3D renderer for character-cell terminals.
//!
//! Meshes of flat-shaded triangles are transformed by a
//! model-view-projection pipeline and rasterized onto an in-memory
//! frame buffer whose cells map to terminal glyphs of five densities.
//! All geometry is carried in a fixed-point scalar type so that every
//! arithmetic step has an exact, machine-checked description.

pub mod fixed;
pub mod structures;
pub mod render_objects;
pub mod device;
pub mod parse;

pub use fixed::Fx;
