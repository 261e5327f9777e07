//! Dimensions shared by chunk storage, meshing and world assembly.

use vstd::prelude::*;

verus! {

/// Number of cells along each axis of a chunk.
pub const CHUNK_WIDTH: usize = 16;

/// Number of cells in a chunk.
pub const CHUNK_SIZE: usize = 4096;

/// Whether `(x, y, z)` names a cell of a chunk.
pub open spec fn in_chunk(x: int, y: int, z: int) -> bool {
    0 <= x < 16 && 0 <= y < 16 && 0 <= z < 16
}

/// The flattened index of the cell at `(x, y, z)`.
pub open spec fn cell_index(x: int, y: int, z: int) -> int {
    x * 256 + y * 16 + z
}

/// The x coordinate of the cell with flattened index `i`.
#[verifier::opaque]
pub open spec fn cell_x(i: int) -> int {
    i / 256
}

/// The y coordinate of the cell with flattened index `i`.
#[verifier::opaque]
pub open spec fn cell_y(i: int) -> int {
    (i / 16) % 16
}

/// The z coordinate of the cell with flattened index `i`.
#[verifier::opaque]
pub open spec fn cell_z(i: int) -> int {
    i % 16
}

/// Flattening and taking coordinates are inverse to each other.
pub proof fn lemma_cell_index_roundtrip(x: int, y: int, z: int)
    requires
        in_chunk(x, y, z),
    ensures
        0 <= cell_index(x, y, z) < 4096,
        cell_x(cell_index(x, y, z)) == x,
        cell_y(cell_index(x, y, z)) == y,
        cell_z(cell_index(x, y, z)) == z,
{
    reveal(cell_x);
    reveal(cell_y);
    reveal(cell_z);
}

/// Every index below the chunk size is the index of exactly its coordinates.
pub proof fn lemma_cell_coords_roundtrip(i: int)
    requires
        0 <= i < 4096,
    ensures
        in_chunk(cell_x(i), cell_y(i), cell_z(i)),
        cell_index(cell_x(i), cell_y(i), cell_z(i)) == i,
{
    reveal(cell_x);
    reveal(cell_y);
    reveal(cell_z);
}

/// Computes the flattened index of the cell at `(x, y, z)`.
pub fn flat_index(x: usize, y: usize, z: usize) -> (i: usize)
    requires
        x < CHUNK_WIDTH,
        y < CHUNK_WIDTH,
        z < CHUNK_WIDTH,
    ensures
        i == cell_index(x as int, y as int, z as int),
        i < CHUNK_SIZE,
{
    x * CHUNK_WIDTH * CHUNK_WIDTH + y * CHUNK_WIDTH + z
}

} // verus!
