//! Data handed to the renderer: block types, atlas coordinates, vertices.

pub mod block;
pub mod texture;
pub mod types;
