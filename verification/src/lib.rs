//! A voxel world engine: block registry, chunk storage with incremental
//! visibility tracking, face-culling mesher and world-level mesh assembly.
//!
//! All geometry is exact. Vertex positions are points of the cell lattice,
//! texture coordinates count tiles of the atlas, and normals are unit axis
//! vectors; a renderer scales them to the number format of its device.
//!
//! - [`render::block`]: block descriptors, the registry that gives them ids,
//!   and the lightweight block value stored in chunks.
//! - [`render::texture`]: the layout of the texture atlas.
//! - [`render::types`]: the vertex record.
//! - [`world::chunk`]: a chunk of 16 x 16 x 16 blocks with its visibility bits.
//! - [`world::mesher`]: the mesher of a single chunk.
//! - [`world::stitch`]: joining chunk meshes into one mesh.
//! - [`world::solid`], [`world::winding`]: what holds of every mesh.
//! - [`world::generator`]: world generators.
//! - [`world`]: the world, a sparse grid of chunks.
//! - [`resource`]: images and shaders kept by name.

pub mod constants;
pub mod render;
pub mod resource;
pub mod world;
