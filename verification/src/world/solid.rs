//! Face counts of a chunk without transparent blocks: only faces on the
//! chunk boundary are emitted.

use crate::constants::{
    cell_index, cell_x, cell_y, cell_z, in_chunk, lemma_cell_coords_roundtrip,
    lemma_cell_index_roundtrip,
};
use crate::render::block::DescriptorModel;
use crate::render::texture::AtlasTexCoords;
use crate::render::types::Vertex;
use crate::world::chunk::ChunkState;
use crate::world::mesher::{
    cell_renders, cell_vertices, emitted_face, face_exposed, mesh_vertices,
    mesh_vertices_upto, neighbor_of, quad_indices, texture_name, Dir,
};
use vstd::prelude::*;

verus! {

/// Whether the atlas holds the texture that `desc` names for the face `dir`.
pub open spec fn face_textured(
    atlas: Map<Seq<char>, AtlasTexCoords>,
    desc: DescriptorModel,
    dir: Dir,
) -> bool {
    texture_name(desc, dir) matches Some(name) && atlas.contains_key(name)
}

/// Whether every cell of the chunk renders, holds an opaque block, and finds
/// the textures of all six faces in the atlas.
pub open spec fn solid(
    s: ChunkState,
    atlas: Map<Seq<char>, AtlasTexCoords>,
    registry: Seq<DescriptorModel>,
) -> bool {
    &&& s.blocks.len() == 4096
    &&& s.visible.len() == 4096
    &&& forall|i: int| 0 <= i < 4096 ==> #[trigger] cell_renders(s, i) && !s.blocks[i].transparent
    &&& forall|i: int, dir: Dir|
        0 <= i < 4096 ==> #[trigger] face_textured(
            atlas,
            registry[s.blocks[i].desc_index as int],
            dir,
        )
}

/// Whether the face `dir` of the cell `(x, y, z)` lies on the chunk boundary.
pub open spec fn on_boundary(x: int, y: int, z: int, dir: Dir) -> bool {
    let (nx, ny, nz) = neighbor_of(x, y, z, dir);
    !in_chunk(nx, ny, nz)
}

/// 1 if `b`, else 0.
pub open spec fn count(b: bool) -> int {
    if b {
        1
    } else {
        0
    }
}

/// The number of faces of the cell `(x, y, z)` that lie on the chunk
/// boundary.
pub open spec fn boundary_faces(x: int, y: int, z: int) -> int {
    count(x == 0) + count(x == 15) + count(y == 0) + count(y == 15) + count(z == 0) + count(
        z == 15,
    )
}

/// In a solid chunk a face is emitted exactly when it lies on the chunk
/// boundary.
pub proof fn lemma_solid_face(
    s: ChunkState,
    atlas: Map<Seq<char>, AtlasTexCoords>,
    registry: Seq<DescriptorModel>,
    x: int,
    y: int,
    z: int,
    dir: Dir,
)
    requires
        solid(s, atlas, registry),
        in_chunk(x, y, z),
    ensures
        face_exposed(s.blocks, x, y, z, dir) == on_boundary(x, y, z, dir),
        emitted_face(
            s.blocks,
            atlas,
            registry[s.blocks[cell_index(x, y, z)].desc_index as int],
            x,
            y,
            z,
            dir,
        ).len() == 4 * count(on_boundary(x, y, z, dir)),
{
    let i = cell_index(x, y, z);
    let desc = registry[s.blocks[i].desc_index as int];
    assert(face_textured(atlas, desc, dir));
    let (nx, ny, nz) = neighbor_of(x, y, z, dir);
    if in_chunk(nx, ny, nz) {
        lemma_cell_index_roundtrip(nx, ny, nz);
        assert(cell_renders(s, cell_index(nx, ny, nz)));
    }
}

/// In a solid chunk a cell emits one quad for each of its faces on the chunk
/// boundary and nothing else; a cell in the interior emits nothing.
pub proof fn lemma_solid_cell(
    s: ChunkState,
    atlas: Map<Seq<char>, AtlasTexCoords>,
    registry: Seq<DescriptorModel>,
    i: int,
)
    requires
        solid(s, atlas, registry),
        0 <= i < 4096,
    ensures
        cell_vertices(s, atlas, registry, i).len() == 4 * boundary_faces(
            cell_x(i),
            cell_y(i),
            cell_z(i),
        ),
        boundary_faces(cell_x(i), cell_y(i), cell_z(i)) == 0 ==> cell_vertices(
            s,
            atlas,
            registry,
            i,
        ) == Seq::<Vertex>::empty(),
{
    lemma_cell_coords_roundtrip(i);
    let (x, y, z) = (cell_x(i), cell_y(i), cell_z(i));
    assert(cell_renders(s, i));
    lemma_solid_face(s, atlas, registry, x, y, z, Dir::Up);
    lemma_solid_face(s, atlas, registry, x, y, z, Dir::Left);
    lemma_solid_face(s, atlas, registry, x, y, z, Dir::Back);
    lemma_solid_face(s, atlas, registry, x, y, z, Dir::Down);
    lemma_solid_face(s, atlas, registry, x, y, z, Dir::Right);
    lemma_solid_face(s, atlas, registry, x, y, z, Dir::Front);
    if boundary_faces(x, y, z) == 0 {
        assert(cell_vertices(s, atlas, registry, i) =~= Seq::<Vertex>::empty());
    }
}

proof fn lemma_solid_row(
    s: ChunkState,
    atlas: Map<Seq<char>, AtlasTexCoords>,
    registry: Seq<DescriptorModel>,
    x: int,
    y: int,
    z: int,
)
    requires
        solid(s, atlas, registry),
        0 <= x < 16,
        0 <= y < 16,
        0 <= z <= 16,
    ensures
        mesh_vertices_upto(s, atlas, registry, (256 * x + 16 * y + z) as nat).len()
            == mesh_vertices_upto(s, atlas, registry, (256 * x + 16 * y) as nat).len() + 4 * (z
            * (count(x == 0) + count(x == 15) + count(y == 0) + count(y == 15)) + count(z > 0)
            + count(z == 16)),
    decreases z,
{
    if z > 0 {
        lemma_solid_row(s, atlas, registry, x, y, z - 1);
        let i = 256 * x + 16 * y + z - 1;
        lemma_cell_index_roundtrip(x, y, z - 1);
        lemma_solid_cell(s, atlas, registry, i);
        let c = count(x == 0) + count(x == 15) + count(y == 0) + count(y == 15);
        assert((z - 1) * c + c == z * c) by (nonlinear_arith);
    }
}

proof fn lemma_solid_slab(
    s: ChunkState,
    atlas: Map<Seq<char>, AtlasTexCoords>,
    registry: Seq<DescriptorModel>,
    x: int,
    y: int,
)
    requires
        solid(s, atlas, registry),
        0 <= x < 16,
        0 <= y <= 16,
    ensures
        mesh_vertices_upto(s, atlas, registry, (256 * x + 16 * y) as nat).len()
            == mesh_vertices_upto(s, atlas, registry, (256 * x) as nat).len() + 4 * (y * (2 + 16
            * (count(x == 0) + count(x == 15))) + 16 * count(y > 0) + 16 * count(y == 16)),
    decreases y,
{
    if y > 0 {
        lemma_solid_slab(s, atlas, registry, x, y - 1);
        lemma_solid_row(s, atlas, registry, x, y - 1, 16);
        let c = 2 + 16 * (count(x == 0) + count(x == 15));
        assert((y - 1) * c + c == y * c) by (nonlinear_arith);
    }
}

proof fn lemma_solid_slabs(
    s: ChunkState,
    atlas: Map<Seq<char>, AtlasTexCoords>,
    registry: Seq<DescriptorModel>,
    x: int,
)
    requires
        solid(s, atlas, registry),
        0 <= x <= 16,
    ensures
        mesh_vertices_upto(s, atlas, registry, (256 * x) as nat).len() == 4 * (64 * x + 256
            * count(x > 0) + 256 * count(x == 16)),
    decreases x,
{
    if x > 0 {
        lemma_solid_slabs(s, atlas, registry, x - 1);
        lemma_solid_slab(s, atlas, registry, x - 1, 16);
    }
}

/// The mesh of a solid chunk has exactly the 1536 quads of the chunk
/// boundary: 6144 vertices and 9216 indices.
pub proof fn lemma_solid_chunk(
    s: ChunkState,
    atlas: Map<Seq<char>, AtlasTexCoords>,
    registry: Seq<DescriptorModel>,
)
    requires
        solid(s, atlas, registry),
    ensures
        mesh_vertices(s, atlas, registry).len() == 6144,
        quad_indices((mesh_vertices(s, atlas, registry).len() / 4) as nat).len() == 9216,
{
    lemma_solid_slabs(s, atlas, registry, 16);
}

} // verus!
