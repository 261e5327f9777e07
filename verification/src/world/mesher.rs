//! Face-culling mesher: one quad for every face of a rendered block that
//! borders the chunk boundary or a transparent neighbour.

use crate::constants::{
    cell_index, cell_x, cell_y, cell_z, in_chunk, lemma_cell_coords_roundtrip,
    lemma_cell_index_roundtrip, CHUNK_WIDTH,
};
use crate::render::block::{
    name_model, projects, Block, BlockDescriptor, BlockRegistry, DescriptorModel,
};
use crate::render::texture::{AtlasTexCoords, TextureAtlas};
use crate::render::types::Vertex;
use crate::world::chunk::{lemma_chunk_density, Chunk, ChunkState};
use crate::world::winding::{lemma_mesh_quads, lemma_quads_winding, winding_consistent};
use vstd::prelude::*;

verus! {

/// The six faces of a cell. `Up` and `Down` face +Y and -Y, `Left` and `Right`
/// face +X and -X, `Back` and `Front` face +Z and -Z.
#[derive(Copy, Clone, Debug, PartialEq, Eq, Structural)]
pub enum Dir {
    Up,
    Down,
    Left,
    Right,
    Front,
    Back,
}

/// The cell that the face `dir` of `(x, y, z)` looks at.
pub open spec fn neighbor_of(x: int, y: int, z: int, dir: Dir) -> (int, int, int) {
    match dir {
        Dir::Up => (x, y + 1, z),
        Dir::Down => (x, y - 1, z),
        Dir::Left => (x + 1, y, z),
        Dir::Right => (x - 1, y, z),
        Dir::Back => (x, y, z + 1),
        Dir::Front => (x, y, z - 1),
    }
}

/// Whether the face `dir` of `(x, y, z)` lies on the chunk boundary or borders
/// a transparent block.
pub open spec fn face_exposed(blocks: Seq<Block>, x: int, y: int, z: int, dir: Dir) -> bool {
    let (nx, ny, nz) = neighbor_of(x, y, z, dir);
    !in_chunk(nx, ny, nz) || blocks[cell_index(nx, ny, nz)].transparent
}

/// The texture that a block type shows on its face `dir`.
pub open spec fn texture_name(desc: DescriptorModel, dir: Dir) -> Option<Seq<char>> {
    match dir {
        Dir::Up => desc.top_texture,
        Dir::Down => desc.bottom_texture,
        Dir::Front => desc.side_textures[0],
        Dir::Right => desc.side_textures[1],
        Dir::Back => desc.side_textures[2],
        Dir::Left => desc.side_textures[3],
    }
}

/// The outward unit normal of the face `dir`.
pub open spec fn face_normal(dir: Dir) -> [i8; 3] {
    match dir {
        Dir::Up => [0i8, 1i8, 0i8],
        Dir::Down => [0i8, -1i8, 0i8],
        Dir::Left => [1i8, 0i8, 0i8],
        Dir::Right => [-1i8, 0i8, 0i8],
        Dir::Back => [0i8, 0i8, 1i8],
        Dir::Front => [0i8, 0i8, -1i8],
    }
}

/// Where the `k`-th corner of the face `dir` lies on the unit cube.
pub open spec fn corner_offset(dir: Dir, k: int) -> (int, int, int) {
    match dir {
        Dir::Up => if k == 0 {
            (0, 1, 0)
        } else if k == 1 {
            (1, 1, 0)
        } else if k == 2 {
            (0, 1, 1)
        } else {
            (1, 1, 1)
        },
        Dir::Down => if k == 0 {
            (0, 0, 0)
        } else if k == 1 {
            (0, 0, 1)
        } else if k == 2 {
            (1, 0, 0)
        } else {
            (1, 0, 1)
        },
        Dir::Right => if k == 0 {
            (0, 0, 0)
        } else if k == 1 {
            (0, 1, 0)
        } else if k == 2 {
            (0, 0, 1)
        } else {
            (0, 1, 1)
        },
        Dir::Left => if k == 0 {
            (1, 0, 0)
        } else if k == 1 {
            (1, 0, 1)
        } else if k == 2 {
            (1, 1, 0)
        } else {
            (1, 1, 1)
        },
        Dir::Back => if k == 0 {
            (0, 0, 1)
        } else if k == 1 {
            (0, 1, 1)
        } else if k == 2 {
            (1, 0, 1)
        } else {
            (1, 1, 1)
        },
        Dir::Front => if k == 0 {
            (0, 0, 0)
        } else if k == 1 {
            (1, 0, 0)
        } else if k == 2 {
            (0, 1, 0)
        } else {
            (1, 1, 0)
        },
    }
}

/// Which corner of the texture the `k`-th corner of the face `dir` shows.
pub open spec fn corner_texcoord(dir: Dir, k: int, tex: AtlasTexCoords) -> [u32; 2] {
    match dir {
        Dir::Up | Dir::Down => if k == 0 {
            tex.tr
        } else if k == 1 {
            tex.tl
        } else if k == 2 {
            tex.br
        } else {
            tex.bl
        },
        Dir::Right | Dir::Back => if k == 0 {
            tex.br
        } else if k == 1 {
            tex.tr
        } else if k == 2 {
            tex.bl
        } else {
            tex.tl
        },
        Dir::Left => if k == 0 {
            tex.bl
        } else if k == 1 {
            tex.br
        } else if k == 2 {
            tex.tl
        } else {
            tex.tr
        },
        Dir::Front => if k == 0 {
            tex.br
        } else if k == 1 {
            tex.bl
        } else if k == 2 {
            tex.tr
        } else {
            tex.tl
        },
    }
}

/// The `k`-th vertex of the quad on the face `dir` of the unit cube at
/// `(x, y, z)`.
pub open spec fn face_vertex(
    x: int,
    y: int,
    z: int,
    dir: Dir,
    tex: AtlasTexCoords,
    k: int,
) -> Vertex {
    let o = corner_offset(dir, k);
    Vertex {
        position: [(x + o.0) as i128, (y + o.1) as i128, (z + o.2) as i128],
        texcoord: corner_texcoord(dir, k, tex),
        normals: face_normal(dir),
    }
}

/// The four vertices of the quad on the face `dir` of the unit cube at
/// `(x, y, z)`.
pub open spec fn face_vertices(x: int, y: int, z: int, dir: Dir, tex: AtlasTexCoords) -> Seq<
    Vertex,
> {
    Seq::new(4, |k: int| face_vertex(x, y, z, dir, tex, k))
}

/// Which of a quad's four vertices the `k`-th of its six indices names: two
/// triangles, (1, 0, 2) and (1, 2, 3).
pub open spec fn quad_corner(k: int) -> int {
    if k == 0 {
        1
    } else if k == 1 {
        0
    } else if k == 2 {
        2
    } else if k == 3 {
        1
    } else if k == 4 {
        2
    } else {
        3
    }
}

/// The six indices of a quad whose first vertex has the index `start`.
pub open spec fn face_indices(start: int) -> Seq<u32> {
    Seq::new(6, |k: int| (start + quad_corner(k)) as u32)
}

/// The index list of a mesh of `quads` quads, each with four vertices of its
/// own: quad after quad, six indices each.
pub open spec fn quad_indices(quads: nat) -> Seq<u32> {
    Seq::new(6 * quads, |k: int| (4 * (k / 6) + quad_corner(k % 6)) as u32)
}

/// Adding one quad to a mesh adds its six indices at the end.
pub proof fn lemma_quad_indices_step(quads: nat)
    ensures
        quad_indices(quads + 1) == quad_indices(quads) + face_indices(4 * quads as int),
{
    let a = quad_indices(quads + 1);
    let b = quad_indices(quads) + face_indices(4 * quads as int);
    assert(a.len() == b.len());
    assert forall|k: int| 0 <= k < a.len() implies a[k] == b[k] by {
        if k >= 6 * quads {
            let j = k - 6 * quads;
            assert(k / 6 == quads && k % 6 == j);
            assert(b[k] == face_indices(4 * quads as int)[j]);
        }
    }
    assert(a =~= b);
}

/// Whether the cell with index `i` takes part in meshing: its block is not
/// flagged invisible and its visibility bit is set.
pub open spec fn cell_renders(s: ChunkState, i: int) -> bool {
    !s.blocks[i].invisible && s.visible[i]
}

/// The atlas coordinates of the quad emitted for the face `dir` of the cell
/// `(x, y, z)`, whose block has the descriptor `desc`: there is one exactly
/// when the face is exposed and the atlas holds the face's texture.
pub open spec fn emitted_texcoords(
    blocks: Seq<Block>,
    atlas: Map<Seq<char>, AtlasTexCoords>,
    desc: DescriptorModel,
    x: int,
    y: int,
    z: int,
    dir: Dir,
) -> Option<AtlasTexCoords> {
    if face_exposed(blocks, x, y, z, dir) {
        match texture_name(desc, dir) {
            Some(name) => if atlas.contains_key(name) {
                Some(atlas[name])
            } else {
                None
            },
            None => None,
        }
    } else {
        None
    }
}

/// The vertices emitted for the face `dir` of the cell `(x, y, z)`: a quad or
/// nothing.
pub open spec fn emitted_face(
    blocks: Seq<Block>,
    atlas: Map<Seq<char>, AtlasTexCoords>,
    desc: DescriptorModel,
    x: int,
    y: int,
    z: int,
    dir: Dir,
) -> Seq<Vertex> {
    match emitted_texcoords(blocks, atlas, desc, x, y, z, dir) {
        Some(tex) => face_vertices(x, y, z, dir, tex),
        None => Seq::empty(),
    }
}

/// The vertices emitted for the cell with index `i`, face after face in the
/// order +Y, +X, +Z, -Y, -X, -Z.
pub open spec fn cell_vertices(
    s: ChunkState,
    atlas: Map<Seq<char>, AtlasTexCoords>,
    registry: Seq<DescriptorModel>,
    i: int,
) -> Seq<Vertex> {
    if cell_renders(s, i) {
        let desc = registry[s.blocks[i].desc_index as int];
        let (x, y, z) = (cell_x(i), cell_y(i), cell_z(i));
        emitted_face(s.blocks, atlas, desc, x, y, z, Dir::Up) + emitted_face(
            s.blocks,
            atlas,
            desc,
            x,
            y,
            z,
            Dir::Left,
        ) + emitted_face(s.blocks, atlas, desc, x, y, z, Dir::Back) + emitted_face(
            s.blocks,
            atlas,
            desc,
            x,
            y,
            z,
            Dir::Down,
        ) + emitted_face(s.blocks, atlas, desc, x, y, z, Dir::Right) + emitted_face(
            s.blocks,
            atlas,
            desc,
            x,
            y,
            z,
            Dir::Front,
        )
    } else {
        Seq::empty()
    }
}

/// The vertices emitted for the first `n` cells in order of flattened index.
pub open spec fn mesh_vertices_upto(
    s: ChunkState,
    atlas: Map<Seq<char>, AtlasTexCoords>,
    registry: Seq<DescriptorModel>,
    n: nat,
) -> Seq<Vertex>
    decreases n,
{
    if n == 0 {
        Seq::empty()
    } else {
        mesh_vertices_upto(s, atlas, registry, (n - 1) as nat) + cell_vertices(
            s,
            atlas,
            registry,
            n - 1,
        )
    }
}

/// The vertices of the mesh of a whole chunk.
pub open spec fn mesh_vertices(
    s: ChunkState,
    atlas: Map<Seq<char>, AtlasTexCoords>,
    registry: Seq<DescriptorModel>,
) -> Seq<Vertex> {
    mesh_vertices_upto(s, atlas, registry, 4096)
}

/// Cells that do not render contribute nothing: if none of the first `n`
/// cells renders, no vertex is emitted for them. In particular a chunk of air
/// has an empty mesh.
pub proof fn lemma_mesh_without_rendering_cells(
    s: ChunkState,
    atlas: Map<Seq<char>, AtlasTexCoords>,
    registry: Seq<DescriptorModel>,
    n: nat,
)
    requires
        forall|i: int| 0 <= i < n ==> !cell_renders(s, i),
    ensures
        mesh_vertices_upto(s, atlas, registry, n) == Seq::<Vertex>::empty(),
        quad_indices((mesh_vertices_upto(s, atlas, registry, n).len() / 4) as nat) == Seq::<
            u32,
        >::empty(),
    decreases n,
{
    if n > 0 {
        lemma_mesh_without_rendering_cells(s, atlas, registry, (n - 1) as nat);
        assert(!cell_renders(s, n - 1));
        assert(mesh_vertices_upto(s, atlas, registry, n) =~= Seq::<Vertex>::empty());
    }
    assert(quad_indices(0) =~= Seq::<u32>::empty());
}

/// Whether every coordinate of `v` lies between `lo` and `hi`.
pub open spec fn vertex_within(v: Vertex, lo: int, hi: int) -> bool {
    &&& lo <= v.position[0] <= hi
    &&& lo <= v.position[1] <= hi
    &&& lo <= v.position[2] <= hi
}

/// Whether every coordinate of every vertex lies between `lo` and `hi`.
pub open spec fn positions_within(vertices: Seq<Vertex>, lo: int, hi: int) -> bool {
    forall|i: int| 0 <= i < vertices.len() ==> vertex_within(#[trigger] vertices[i], lo, hi)
}

/// The quad on a face of a cell of the chunk has its corners on the lattice
/// points of the chunk, from 0 to 16 on each axis.
pub proof fn lemma_face_within_chunk(x: int, y: int, z: int, dir: Dir, tex: AtlasTexCoords)
    requires
        in_chunk(x, y, z),
    ensures
        positions_within(face_vertices(x, y, z, dir, tex), 0, 16),
{
    let face = face_vertices(x, y, z, dir, tex);
    assert forall|i: int| 0 <= i < face.len() implies vertex_within(#[trigger] face[i], 0, 16) by {
        assert(face[i] == face_vertex(x, y, z, dir, tex, i));
    }
}

/// Joining two vertex lists keeps a bound that both obey.
pub proof fn lemma_within_concat(a: Seq<Vertex>, b: Seq<Vertex>, lo: int, hi: int)
    requires
        positions_within(a, lo, hi),
        positions_within(b, lo, hi),
    ensures
        positions_within(a + b, lo, hi),
{
    assert forall|i: int| 0 <= i < (a + b).len() implies vertex_within(
        #[trigger] (a + b)[i],
        lo,
        hi,
    ) by {
        if i < a.len() {
            assert((a + b)[i] == a[i]);
        } else {
            assert((a + b)[i] == b[i - a.len()]);
        }
    }
}

/// Every vertex of a chunk's mesh lies on a lattice point of the chunk, and
/// the vertices come in fours, at most six fours to a cell.
pub proof fn lemma_mesh_shape(
    s: ChunkState,
    atlas: Map<Seq<char>, AtlasTexCoords>,
    registry: Seq<DescriptorModel>,
    n: nat,
)
    requires
        n <= 4096,
    ensures
        positions_within(mesh_vertices_upto(s, atlas, registry, n), 0, 16),
        mesh_vertices_upto(s, atlas, registry, n).len() % 4 == 0,
        mesh_vertices_upto(s, atlas, registry, n).len() <= 24 * n,
    decreases n,
{
    if n > 0 {
        let i = n - 1;
        lemma_mesh_shape(s, atlas, registry, i as nat);
        lemma_cell_coords_roundtrip(i);
        let (x, y, z) = (cell_x(i), cell_y(i), cell_z(i));
        let desc = registry[s.blocks[i].desc_index as int];
        let before = mesh_vertices_upto(s, atlas, registry, i as nat);
        let cell = cell_vertices(s, atlas, registry, i);
        if cell_renders(s, i) {
            let f1 = emitted_face(s.blocks, atlas, desc, x, y, z, Dir::Up);
            let f2 = emitted_face(s.blocks, atlas, desc, x, y, z, Dir::Left);
            let f3 = emitted_face(s.blocks, atlas, desc, x, y, z, Dir::Back);
            let f4 = emitted_face(s.blocks, atlas, desc, x, y, z, Dir::Down);
            let f5 = emitted_face(s.blocks, atlas, desc, x, y, z, Dir::Right);
            let f6 = emitted_face(s.blocks, atlas, desc, x, y, z, Dir::Front);
            lemma_emitted_face_shape(s.blocks, atlas, desc, x, y, z, Dir::Up);
            lemma_emitted_face_shape(s.blocks, atlas, desc, x, y, z, Dir::Left);
            lemma_emitted_face_shape(s.blocks, atlas, desc, x, y, z, Dir::Back);
            lemma_emitted_face_shape(s.blocks, atlas, desc, x, y, z, Dir::Down);
            lemma_emitted_face_shape(s.blocks, atlas, desc, x, y, z, Dir::Right);
            lemma_emitted_face_shape(s.blocks, atlas, desc, x, y, z, Dir::Front);
            lemma_within_concat(f1, f2, 0, 16);
            lemma_within_concat(f1 + f2, f3, 0, 16);
            lemma_within_concat(f1 + f2 + f3, f4, 0, 16);
            lemma_within_concat(f1 + f2 + f3 + f4, f5, 0, 16);
            lemma_within_concat(f1 + f2 + f3 + f4 + f5, f6, 0, 16);
            assert(cell == f1 + f2 + f3 + f4 + f5 + f6);
        }
        lemma_within_concat(before, cell, 0, 16);
    }
}

/// What is emitted for one face is nothing or one quad within the chunk.
pub proof fn lemma_emitted_face_shape(
    blocks: Seq<Block>,
    atlas: Map<Seq<char>, AtlasTexCoords>,
    desc: DescriptorModel,
    x: int,
    y: int,
    z: int,
    dir: Dir,
)
    requires
        in_chunk(x, y, z),
    ensures
        positions_within(emitted_face(blocks, atlas, desc, x, y, z, dir), 0, 16),
        emitted_face(blocks, atlas, desc, x, y, z, dir).len() == 0 || emitted_face(
            blocks,
            atlas,
            desc,
            x,
            y,
            z,
            dir,
        ).len() == 4,
{
    match emitted_texcoords(blocks, atlas, desc, x, y, z, dir) {
        Some(tex) => {
            lemma_face_within_chunk(x, y, z, dir, tex);
        },
        None => {},
    }
}

/// What meshing needs of a chunk and a registry: every block's descriptor is
/// registered, and a block that renders names a texture for each of its
/// exposed faces.
pub open spec fn meshable(s: ChunkState, registry: Seq<DescriptorModel>) -> bool {
    &&& s.blocks.len() == 4096
    &&& s.visible.len() == 4096
    &&& forall|i: int| 0 <= i < 4096 ==> (#[trigger] s.blocks[i]).desc_index < registry.len()
    &&& forall|i: int, dir: Dir|
        0 <= i < 4096 && cell_renders(s, i) && #[trigger] face_exposed(
            s.blocks,
            cell_x(i),
            cell_y(i),
            cell_z(i),
            dir,
        ) ==> texture_name(registry[s.blocks[i].desc_index as int], dir) is Some
}

/// Whether every descriptor of a block that renders names a texture for each
/// of the six faces.
pub open spec fn fully_textured(registry: Seq<DescriptorModel>) -> bool {
    forall|i: int, dir: Dir|
        0 <= i < registry.len() && !registry[i].invisible ==> #[trigger] texture_name(
            registry[i],
            dir,
        ) is Some
}

/// A chunk whose blocks are copies of registered descriptors can be meshed
/// if the registry names all textures of the blocks that render.
pub proof fn lemma_meshable_from_registry(s: ChunkState, registry: Seq<DescriptorModel>)
    requires
        s.blocks.len() == 4096,
        s.visible.len() == 4096,
        forall|i: int| 0 <= i < 4096 ==> projects(registry, #[trigger] s.blocks[i]),
        fully_textured(registry),
    ensures
        meshable(s, registry),
{
    assert forall|i: int, dir: Dir|
        0 <= i < 4096 && cell_renders(s, i) && #[trigger] face_exposed(
            s.blocks,
            cell_x(i),
            cell_y(i),
            cell_z(i),
            dir,
        ) implies texture_name(registry[s.blocks[i].desc_index as int], dir) is Some by {
        assert(projects(registry, s.blocks[i]));
    }
    assert forall|i: int| 0 <= i < 4096 implies (#[trigger] s.blocks[i]).desc_index
        < registry.len() by {
        assert(projects(registry, s.blocks[i]));
    }
}

/// Whether `indices` is the index list that belongs to `vertices`, taken as a
/// list of quads.
pub open spec fn quad_indexed(vertices: Seq<Vertex>, indices: Seq<u32>) -> bool {
    &&& vertices.len() % 4 == 0
    &&& indices == quad_indices((vertices.len() / 4) as nat)
}

fn corner(x: i128, y: i128, z: i128, texcoord: [u32; 2], normals: [i8; 3]) -> (v: Vertex)
    ensures
        v == (Vertex { position: [x, y, z], texcoord, normals }),
{
    let mut v = Vertex::from_pos(x, y, z);
    v.texcoord = texcoord;
    v.normals = normals;
    v
}

/// Appends the quad on the face `dir` of the unit cube at `pos`, textured with
/// `texcoords`, and the six indices of its two triangles.
pub fn add_face(
    vertices: &mut Vec<Vertex>,
    indices: &mut Vec<u32>,
    pos: (usize, usize, usize),
    dir: Dir,
    texcoords: AtlasTexCoords,
)
    requires
        old(vertices)@.len() + 3 <= u32::MAX,
    ensures
        final(vertices)@ == old(vertices)@ + face_vertices(
            pos.0 as int,
            pos.1 as int,
            pos.2 as int,
            dir,
            texcoords,
        ),
        final(indices)@ == old(indices)@ + face_indices(old(vertices)@.len() as int),
{
    let x: i128 = pos.0 as i128;
    let y: i128 = pos.1 as i128;
    let z: i128 = pos.2 as i128;
    let face_start: u32 = vertices.len() as u32;
    let ghost before = vertices@;
    let ghost before_indices = indices@;

    match dir {
        Dir::Up => {
            let n: [i8; 3] = [0, 1, 0];
            vertices.push(corner(x, y + 1, z, texcoords.tr, n));
            vertices.push(corner(x + 1, y + 1, z, texcoords.tl, n));
            vertices.push(corner(x, y + 1, z + 1, texcoords.br, n));
            vertices.push(corner(x + 1, y + 1, z + 1, texcoords.bl, n));
        },
        Dir::Down => {
            let n: [i8; 3] = [0, -1, 0];
            vertices.push(corner(x, y, z, texcoords.tr, n));
            vertices.push(corner(x, y, z + 1, texcoords.tl, n));
            vertices.push(corner(x + 1, y, z, texcoords.br, n));
            vertices.push(corner(x + 1, y, z + 1, texcoords.bl, n));
        },
        Dir::Right => {
            let n: [i8; 3] = [-1, 0, 0];
            vertices.push(corner(x, y, z, texcoords.br, n));
            vertices.push(corner(x, y + 1, z, texcoords.tr, n));
            vertices.push(corner(x, y, z + 1, texcoords.bl, n));
            vertices.push(corner(x, y + 1, z + 1, texcoords.tl, n));
        },
        Dir::Left => {
            let n: [i8; 3] = [1, 0, 0];
            vertices.push(corner(x + 1, y, z, texcoords.bl, n));
            vertices.push(corner(x + 1, y, z + 1, texcoords.br, n));
            vertices.push(corner(x + 1, y + 1, z, texcoords.tl, n));
            vertices.push(corner(x + 1, y + 1, z + 1, texcoords.tr, n));
        },
        Dir::Back => {
            let n: [i8; 3] = [0, 0, 1];
            vertices.push(corner(x, y, z + 1, texcoords.br, n));
            vertices.push(corner(x, y + 1, z + 1, texcoords.tr, n));
            vertices.push(corner(x + 1, y, z + 1, texcoords.bl, n));
            vertices.push(corner(x + 1, y + 1, z + 1, texcoords.tl, n));
        },
        Dir::Front => {
            let n: [i8; 3] = [0, 0, -1];
            vertices.push(corner(x, y, z, texcoords.br, n));
            vertices.push(corner(x + 1, y, z, texcoords.bl, n));
            vertices.push(corner(x, y + 1, z, texcoords.tr, n));
            vertices.push(corner(x + 1, y + 1, z, texcoords.tl, n));
        },
    }
    proof {
        let face = face_vertices(pos.0 as int, pos.1 as int, pos.2 as int, dir, texcoords);
        assert(vertices@.len() == before.len() + 4);
        assert forall|k: int| 0 <= k < 4 implies vertices@[before.len() + k] == face[k] by {
            let v = vertices@[before.len() + k];
            let f = face_vertex(pos.0 as int, pos.1 as int, pos.2 as int, dir, texcoords, k);
            assert(v.position@ =~= f.position@);
            assert(v.normals@ =~= f.normals@);
            assert(v.position == f.position);
            assert(v.normals == f.normals);
        }
        assert(vertices@ =~= before + face);
    }

    indices.push(face_start + 1);
    indices.push(face_start);
    indices.push(face_start + 2);
    indices.push(face_start + 1);
    indices.push(face_start + 2);
    indices.push(face_start + 3);
    proof {
        assert(indices@ =~= before_indices + face_indices(before.len() as int));
    }
}

fn face_is_exposed(chunk: &Chunk, x: usize, y: usize, z: usize, dir: Dir) -> (exposed: bool)
    requires
        x < 16,
        y < 16,
        z < 16,
    ensures
        exposed == face_exposed(chunk@.blocks, x as int, y as int, z as int, dir),
{
    match dir {
        Dir::Up => y == CHUNK_WIDTH - 1 || chunk.get_ref(x, y + 1, z).transparent,
        Dir::Down => y == 0 || chunk.get_ref(x, y - 1, z).transparent,
        Dir::Left => x == CHUNK_WIDTH - 1 || chunk.get_ref(x + 1, y, z).transparent,
        Dir::Right => x == 0 || chunk.get_ref(x - 1, y, z).transparent,
        Dir::Back => z == CHUNK_WIDTH - 1 || chunk.get_ref(x, y, z + 1).transparent,
        Dir::Front => z == 0 || chunk.get_ref(x, y, z - 1).transparent,
    }
}

fn face_texture(desc: &BlockDescriptor, dir: Dir) -> (name: &Option<String>)
    ensures
        name_model(*name) == texture_name(desc@, dir),
{
    match dir {
        Dir::Up => &desc.top_texture,
        Dir::Down => &desc.bottom_texture,
        Dir::Front => &desc.side_textures[0],
        Dir::Right => &desc.side_textures[1],
        Dir::Back => &desc.side_textures[2],
        Dir::Left => &desc.side_textures[3],
    }
}

fn emit_face(
    chunk: &Chunk,
    atlas: &TextureAtlas,
    desc: &BlockDescriptor,
    vertices: &mut Vec<Vertex>,
    indices: &mut Vec<u32>,
    pos: (usize, usize, usize),
    dir: Dir,
)
    requires
        pos.0 < 16,
        pos.1 < 16,
        pos.2 < 16,
        old(vertices)@.len() + 3 <= u32::MAX,
        quad_indexed(old(vertices)@, old(indices)@),
        face_exposed(chunk@.blocks, pos.0 as int, pos.1 as int, pos.2 as int, dir)
            ==> texture_name(desc@, dir) is Some,
    ensures
        final(vertices)@ == old(vertices)@ + emitted_face(
            chunk@.blocks,
            atlas@,
            desc@,
            pos.0 as int,
            pos.1 as int,
            pos.2 as int,
            dir,
        ),
        quad_indexed(final(vertices)@, final(indices)@),
        final(vertices)@.len() <= old(vertices)@.len() + 4,
{
    let ghost before = vertices@;
    if face_is_exposed(chunk, pos.0, pos.1, pos.2, dir) {
        let name = face_texture(desc, dir);
        let coords = atlas.coords_of(name.as_ref().unwrap());
        if let Ok(texcoords) = coords {
            add_face(vertices, indices, pos, dir, texcoords);
            proof {
                lemma_quad_indices_step((before.len() / 4) as nat);
            }
        }
    }
    assert(vertices@ =~= before + emitted_face(
        chunk@.blocks,
        atlas@,
        desc@,
        pos.0 as int,
        pos.1 as int,
        pos.2 as int,
        dir,
    ));
}

/// Whether the block of the cell `(x, y, z)` can be meshed: its descriptor is
/// registered, and if the cell renders the descriptor names a texture for
/// each exposed face.
pub open spec fn cell_meshable(
    s: ChunkState,
    registry: Seq<DescriptorModel>,
    x: int,
    y: int,
    z: int,
) -> bool {
    let i = cell_index(x, y, z);
    &&& s.blocks[i].desc_index < registry.len()
    &&& cell_renders(s, i) ==> forall|dir: Dir| #[trigger]
        face_exposed(s.blocks, x, y, z, dir) ==> texture_name(
            registry[s.blocks[i].desc_index as int],
            dir,
        ) is Some
}

/// A chunk that can be meshed can be meshed cell by cell.
pub proof fn lemma_meshable_cell(
    s: ChunkState,
    registry: Seq<DescriptorModel>,
    x: int,
    y: int,
    z: int,
)
    requires
        meshable(s, registry),
        in_chunk(x, y, z),
    ensures
        cell_meshable(s, registry, x, y, z),
{
    lemma_cell_index_roundtrip(x, y, z);
    let i = cell_index(x, y, z);
    assert(s.blocks[i].desc_index < registry.len());
    if cell_renders(s, i) {
        assert forall|dir: Dir| #[trigger]
            face_exposed(s.blocks, x, y, z, dir) implies texture_name(
            registry[s.blocks[i].desc_index as int],
            dir,
        ) is Some by {
            assert(face_exposed(s.blocks, cell_x(i), cell_y(i), cell_z(i), dir));
        }
    }
}

fn mesh_cell(
    chunk: &Chunk,
    atlas: &TextureAtlas,
    block_registry: &BlockRegistry,
    vertices: &mut Vec<Vertex>,
    indices: &mut Vec<u32>,
    pos: (usize, usize, usize),
)
    requires
        pos.0 < 16,
        pos.1 < 16,
        pos.2 < 16,
        cell_meshable(chunk@, block_registry@, pos.0 as int, pos.1 as int, pos.2 as int),
        old(vertices)@.len() + 24 <= u32::MAX,
        quad_indexed(old(vertices)@, old(indices)@),
    ensures
        final(vertices)@ == old(vertices)@ + cell_vertices(
            chunk@,
            atlas@,
            block_registry@,
            cell_index(pos.0 as int, pos.1 as int, pos.2 as int),
        ),
        quad_indexed(final(vertices)@, final(indices)@),
        final(vertices)@.len() <= old(vertices)@.len() + 24,
{
    let (x, y, z) = pos;
    let ghost before = vertices@;
    let ghost i = cell_index(x as int, y as int, z as int);
    let ghost (xi, yi, zi) = (x as int, y as int, z as int);
    proof {
        lemma_cell_index_roundtrip(xi, yi, zi);
    }
    let block = chunk.get_ref(x, y, z);
    let desc = block_registry.get_uint(&block.desc_index);

    if !block.invisible && chunk.is_visible(x, y, z) {
        let ghost blocks = chunk@.blocks;
        let ghost f1 = emitted_face(blocks, atlas@, desc@, xi, yi, zi, Dir::Up);
        let ghost f2 = emitted_face(blocks, atlas@, desc@, xi, yi, zi, Dir::Left);
        let ghost f3 = emitted_face(blocks, atlas@, desc@, xi, yi, zi, Dir::Back);
        let ghost f4 = emitted_face(blocks, atlas@, desc@, xi, yi, zi, Dir::Down);
        let ghost f5 = emitted_face(blocks, atlas@, desc@, xi, yi, zi, Dir::Right);
        let ghost f6 = emitted_face(blocks, atlas@, desc@, xi, yi, zi, Dir::Front);
        assert(cell_renders(chunk@, i));
        emit_face(chunk, atlas, desc, vertices, indices, pos, Dir::Up);
        emit_face(chunk, atlas, desc, vertices, indices, pos, Dir::Left);
        assert(vertices@ =~= before + (f1 + f2));
        emit_face(chunk, atlas, desc, vertices, indices, pos, Dir::Back);
        emit_face(chunk, atlas, desc, vertices, indices, pos, Dir::Down);
        assert(vertices@ =~= before + (f1 + f2 + f3 + f4));
        emit_face(chunk, atlas, desc, vertices, indices, pos, Dir::Right);
        emit_face(chunk, atlas, desc, vertices, indices, pos, Dir::Front);
        assert(vertices@ =~= before + (f1 + f2 + f3 + f4 + f5 + f6));
        assert(cell_vertices(chunk@, atlas@, block_registry@, i) == f1 + f2 + f3 + f4 + f5 + f6);
    } else {
        assert(!cell_renders(chunk@, i));
        assert(vertices@ =~= before + cell_vertices(chunk@, atlas@, block_registry@, i));
    }
}

/// If every cell of a chunk can be meshed, the chunk can.
pub proof fn lemma_meshable_from_cells(s: ChunkState, registry: Seq<DescriptorModel>)
    requires
        s.blocks.len() == 4096,
        s.visible.len() == 4096,
        forall|i: int|
            0 <= i < 4096 ==> #[trigger] cell_meshable(
                s,
                registry,
                cell_x(i),
                cell_y(i),
                cell_z(i),
            ),
    ensures
        meshable(s, registry),
{
    assert forall|i: int| 0 <= i < 4096 implies (#[trigger] s.blocks[i]).desc_index
        < registry.len() by {
        lemma_cell_coords_roundtrip(i);
        assert(cell_meshable(s, registry, cell_x(i), cell_y(i), cell_z(i)));
    }
    assert forall|i: int, dir: Dir|
        0 <= i < 4096 && cell_renders(s, i) && #[trigger] face_exposed(
            s.blocks,
            cell_x(i),
            cell_y(i),
            cell_z(i),
            dir,
        ) implies texture_name(registry[s.blocks[i].desc_index as int], dir) is Some by {
        lemma_cell_coords_roundtrip(i);
        assert(cell_meshable(s, registry, cell_x(i), cell_y(i), cell_z(i)));
    }
}

fn face_can_mesh(
    chunk: &Chunk,
    desc: &BlockDescriptor,
    pos: (usize, usize, usize),
    dir: Dir,
) -> (ok: bool)
    requires
        pos.0 < 16,
        pos.1 < 16,
        pos.2 < 16,
    ensures
        ok == (face_exposed(chunk@.blocks, pos.0 as int, pos.1 as int, pos.2 as int, dir)
            ==> texture_name(desc@, dir) is Some),
{
    !face_is_exposed(chunk, pos.0, pos.1, pos.2, dir) || face_texture(desc, dir).is_some()
}

fn cell_can_mesh(chunk: &Chunk, block_registry: &BlockRegistry, pos: (usize, usize, usize)) -> (ok:
    bool)
    requires
        pos.0 < 16,
        pos.1 < 16,
        pos.2 < 16,
    ensures
        ok == cell_meshable(chunk@, block_registry@, pos.0 as int, pos.1 as int, pos.2 as int),
{
    let (x, y, z) = pos;
    let block = chunk.get_ref(x, y, z);
    if block.desc_index as usize >= block_registry.len() {
        return false;
    }
    if block.invisible || !chunk.is_visible(x, y, z) {
        return true;
    }
    let desc = block_registry.get_uint(&block.desc_index);
    let ok = face_can_mesh(chunk, desc, pos, Dir::Up) && face_can_mesh(chunk, desc, pos, Dir::Left)
        && face_can_mesh(chunk, desc, pos, Dir::Back) && face_can_mesh(
        chunk,
        desc,
        pos,
        Dir::Down,
    ) && face_can_mesh(chunk, desc, pos, Dir::Right) && face_can_mesh(
        chunk,
        desc,
        pos,
        Dir::Front,
    );
    proof {
        let i = cell_index(x as int, y as int, z as int);
        if ok {
            assert forall|dir: Dir| #[trigger]
                face_exposed(chunk@.blocks, x as int, y as int, z as int, dir) implies texture_name(
                block_registry@[chunk@.blocks[i].desc_index as int],
                dir,
            ) is Some by {
                match dir {
                    Dir::Up => {},
                    Dir::Down => {},
                    Dir::Left => {},
                    Dir::Right => {},
                    Dir::Front => {},
                    Dir::Back => {},
                }
            }
        }
    }
    ok
}

/// Whether the chunk can be meshed with the registry: the test that `greedy`
/// asks its callers to have passed.
pub fn can_mesh(chunk: &Chunk, block_registry: &BlockRegistry) -> (ok: bool)
    ensures
        ok == meshable(chunk@, block_registry@),
{
    proof {
        lemma_chunk_density(*chunk);
    }
    let mut x: usize = 0;
    while x < CHUNK_WIDTH
        invariant
            x <= 16,
            forall|i: int|
                0 <= i < 256 * x ==> #[trigger] cell_meshable(
                    chunk@,
                    block_registry@,
                    cell_x(i),
                    cell_y(i),
                    cell_z(i),
                ),
        decreases 16 - x,
    {
        let mut y: usize = 0;
        while y < CHUNK_WIDTH
            invariant
                x < 16,
                y <= 16,
                forall|i: int|
                    0 <= i < 256 * x + 16 * y ==> #[trigger] cell_meshable(
                        chunk@,
                        block_registry@,
                        cell_x(i),
                        cell_y(i),
                        cell_z(i),
                    ),
            decreases 16 - y,
        {
            let mut z: usize = 0;
            while z < CHUNK_WIDTH
                invariant
                    x < 16,
                    y < 16,
                    z <= 16,
                    forall|i: int|
                        0 <= i < 256 * x + 16 * y + z ==> #[trigger] cell_meshable(
                            chunk@,
                            block_registry@,
                            cell_x(i),
                            cell_y(i),
                            cell_z(i),
                        ),
                decreases 16 - z,
            {
                proof {
                    lemma_cell_index_roundtrip(x as int, y as int, z as int);
                }
                if !cell_can_mesh(chunk, block_registry, (x, y, z)) {
                    proof {
                        if meshable(chunk@, block_registry@) {
                            lemma_meshable_cell(
                                chunk@,
                                block_registry@,
                                x as int,
                                y as int,
                                z as int,
                            );
                        }
                    }
                    return false;
                }
                z = z + 1;
            }
            y = y + 1;
        }
        x = x + 1;
    }
    proof {
        lemma_meshable_from_cells(chunk@, block_registry@);
    }
    true
}

/// Builds the mesh of a chunk. Cells are visited in order of flattened index;
/// a cell whose block is not flagged invisible and whose visibility bit is set
/// gets a quad on each exposed face whose texture the atlas holds. A face
/// whose texture the atlas lacks is left out.
pub fn greedy(chunk: &Chunk, atlas: &TextureAtlas, block_registry: &BlockRegistry) -> (mesh: (
    Vec<Vertex>,
    Vec<u32>,
))
    requires
        meshable(chunk@, block_registry@),
    ensures
        mesh.0@ == mesh_vertices(chunk@, atlas@, block_registry@),
        mesh.1@ == quad_indices((mesh.0@.len() / 4) as nat),
        mesh.0@.len() % 4 == 0,
        mesh.1@.len() == 6 * (mesh.0@.len() / 4),
        mesh.0@.len() <= 98304,
        winding_consistent(mesh.0@, mesh.1@),
{
    let mut vertices: Vec<Vertex> = Vec::new();
    let mut indices: Vec<u32> = Vec::new();
    assert(indices@ =~= quad_indices(0));

    let mut x: usize = 0;
    while x < CHUNK_WIDTH
        invariant
            x <= 16,
            meshable(chunk@, block_registry@),
            vertices@ == mesh_vertices_upto(chunk@, atlas@, block_registry@, (256 * x) as nat),
            quad_indexed(vertices@, indices@),
            vertices@.len() <= 24 * (256 * x),
        decreases 16 - x,
    {
        let mut y: usize = 0;
        while y < CHUNK_WIDTH
            invariant
                x < 16,
                y <= 16,
                meshable(chunk@, block_registry@),
                vertices@ == mesh_vertices_upto(
                    chunk@,
                    atlas@,
                    block_registry@,
                    (256 * x + 16 * y) as nat,
                ),
                quad_indexed(vertices@, indices@),
                vertices@.len() <= 24 * (256 * x + 16 * y),
            decreases 16 - y,
        {
            let mut z: usize = 0;
            while z < CHUNK_WIDTH
                invariant
                    x < 16,
                    y < 16,
                    z <= 16,
                    meshable(chunk@, block_registry@),
                    vertices@ == mesh_vertices_upto(
                        chunk@,
                        atlas@,
                        block_registry@,
                        (256 * x + 16 * y + z) as nat,
                    ),
                    quad_indexed(vertices@, indices@),
                    vertices@.len() <= 24 * (256 * x + 16 * y + z),
                decreases 16 - z,
            {
                proof {
                    lemma_meshable_cell(chunk@, block_registry@, x as int, y as int, z as int);
                }
                mesh_cell(chunk, atlas, block_registry, &mut vertices, &mut indices, (x, y, z));
                z = z + 1;
            }
            y = y + 1;
        }
        x = x + 1;
    }
    proof {
        lemma_mesh_quads(chunk@, atlas@, block_registry@, 4096);
        lemma_quads_winding(vertices@);
    }
    (vertices, indices)
}

} // verus!
