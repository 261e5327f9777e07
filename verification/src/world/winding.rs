//! Orientation of the triangles of a mesh: every triangle, taken in index
//! order, turns counter-clockwise as seen from outside its block.

use crate::constants::{cell_x, cell_y, cell_z, in_chunk, lemma_cell_coords_roundtrip};
use crate::render::block::{Block, DescriptorModel};
use crate::render::texture::AtlasTexCoords;
use crate::render::types::Vertex;
use crate::world::chunk::ChunkState;
use crate::world::mesher::{
    cell_renders, cell_vertices, emitted_face, emitted_texcoords, face_normal, face_vertex,
    face_vertices, lemma_mesh_shape, mesh_vertices, mesh_vertices_upto, quad_corner,
    quad_indices, vertex_within, Dir,
};
use crate::world::stitch::{chunk_origin, translated, ChunkPos};
use crate::world::world_vertices_upto;
use vstd::prelude::*;

verus! {

/// The vector from `a` to `b`.
pub open spec fn edge(a: Vertex, b: Vertex) -> (int, int, int) {
    (
        b.position[0] - a.position[0],
        b.position[1] - a.position[1],
        b.position[2] - a.position[2],
    )
}

/// The cross product of `u` and `v`.
pub open spec fn cross(u: (int, int, int), v: (int, int, int)) -> (int, int, int) {
    (u.1 * v.2 - u.2 * v.1, u.2 * v.0 - u.0 * v.2, u.0 * v.1 - u.1 * v.0)
}

/// The sign of `a`: -1, 0 or 1.
pub open spec fn sign(a: int) -> int {
    if a < 0 {
        -1
    } else if a == 0 {
        0
    } else {
        1
    }
}

/// Whether the triangle `a`, `b`, `c`, taken in this order, has a normal with
/// the signs of `normal` in every coordinate.
pub open spec fn triangle_faces_along(a: Vertex, b: Vertex, c: Vertex, normal: [i8; 3]) -> bool {
    let n = cross(edge(a, b), edge(a, c));
    &&& sign(n.0) == sign(normal[0] as int)
    &&& sign(n.1) == sign(normal[1] as int)
    &&& sign(n.2) == sign(normal[2] as int)
}

/// Whether the `t`-th triangle of the mesh points the way that the normal
/// stored with each of its three vertices says.
pub open spec fn triangle_consistent(vertices: Seq<Vertex>, indices: Seq<u32>, t: int) -> bool {
    let a = vertices[indices[3 * t] as int];
    let b = vertices[indices[3 * t + 1] as int];
    let c = vertices[indices[3 * t + 2] as int];
    &&& triangle_faces_along(a, b, c, a.normals)
    &&& triangle_faces_along(a, b, c, b.normals)
    &&& triangle_faces_along(a, b, c, c.normals)
}

/// Whether every triangle of the mesh points the way its stored normals say.
pub open spec fn winding_consistent(vertices: Seq<Vertex>, indices: Seq<u32>) -> bool {
    forall|t: int|
        0 <= t && 3 * t + 2 < indices.len() ==> #[trigger] triangle_consistent(
            vertices,
            indices,
            t,
        )
}

/// Whether `(x, y, z)` is far enough from the ends of 128 bits that the unit
/// cube at it has exact corners.
pub open spec fn cube_fits(x: int, y: int, z: int) -> bool {
    &&& -0x1_0000_0000_0000_0000_0000 <= x <= 0x1_0000_0000_0000_0000_0000
    &&& -0x1_0000_0000_0000_0000_0000 <= y <= 0x1_0000_0000_0000_0000_0000
    &&& -0x1_0000_0000_0000_0000_0000 <= z <= 0x1_0000_0000_0000_0000_0000
}

/// Whether the four vertices from `4 * q` on are the quad of some face of
/// some unit cube.
pub open spec fn is_face_quad(vertices: Seq<Vertex>, q: int) -> bool {
    exists|x: int, y: int, z: int, dir: Dir, tex: AtlasTexCoords|
        cube_fits(x, y, z) && #[trigger] face_vertices(x, y, z, dir, tex) == vertices.subrange(
            4 * q,
            4 * q + 4,
        )
}

/// Whether `vertices` is a list of quads, each on a face of a unit cube.
pub open spec fn quads_of_cubes(vertices: Seq<Vertex>) -> bool {
    &&& vertices.len() % 4 == 0
    &&& forall|q: int| 0 <= q && 4 * q < vertices.len() ==> #[trigger] is_face_quad(vertices, q)
}

/// Both triangles of a face's quad point along the face's outward normal.
pub proof fn lemma_face_winding(x: int, y: int, z: int, dir: Dir, tex: AtlasTexCoords)
    requires
        cube_fits(x, y, z),
    ensures
        ({
            let v0 = face_vertex(x, y, z, dir, tex, 0);
            let v1 = face_vertex(x, y, z, dir, tex, 1);
            let v2 = face_vertex(x, y, z, dir, tex, 2);
            let v3 = face_vertex(x, y, z, dir, tex, 3);
            &&& triangle_faces_along(v1, v0, v2, face_normal(dir))
            &&& triangle_faces_along(v1, v2, v3, face_normal(dir))
        }),
{
    let v0 = face_vertex(x, y, z, dir, tex, 0);
    let v1 = face_vertex(x, y, z, dir, tex, 1);
    let v2 = face_vertex(x, y, z, dir, tex, 2);
    let v3 = face_vertex(x, y, z, dir, tex, 3);
    let a = edge(v1, v0);
    let b = edge(v1, v2);
    let c = edge(v1, v3);
    match dir {
        Dir::Up => {
            assert(a == (-1int, 0int, 0int) && b == (-1int, 0int, 1int) && c == (0int, 0int, 1int));
            lemma_cross_of(a, b, (0, 1, 0));
            lemma_cross_of(b, c, (0, 1, 0));
        },
        Dir::Down => {
            assert(a == (0int, 0int, -1int) && b == (1int, 0int, -1int) && c == (1int, 0int, 0int));
            lemma_cross_of(a, b, (0, -1, 0));
            lemma_cross_of(b, c, (0, -1, 0));
        },
        Dir::Right => {
            assert(a == (0int, -1int, 0int) && b == (0int, -1int, 1int) && c == (0int, 0int, 1int));
            lemma_cross_of(a, b, (-1, 0, 0));
            lemma_cross_of(b, c, (-1, 0, 0));
        },
        Dir::Left => {
            assert(a == (0int, 0int, -1int) && b == (0int, 1int, -1int) && c == (0int, 1int, 0int));
            lemma_cross_of(a, b, (1, 0, 0));
            lemma_cross_of(b, c, (1, 0, 0));
        },
        Dir::Back => {
            assert(a == (0int, -1int, 0int) && b == (1int, -1int, 0int) && c == (1int, 0int, 0int));
            lemma_cross_of(a, b, (0, 0, 1));
            lemma_cross_of(b, c, (0, 0, 1));
        },
        Dir::Front => {
            assert(a == (-1int, 0int, 0int) && b == (-1int, 1int, 0int) && c == (0int, 1int, 0int));
            lemma_cross_of(a, b, (0, 0, -1));
            lemma_cross_of(b, c, (0, 0, -1));
        },
    }
}

proof fn lemma_cross_of(u: (int, int, int), v: (int, int, int), n: (int, int, int))
    requires
        -1 <= u.0 <= 1 && -1 <= u.1 <= 1 && -1 <= u.2 <= 1,
        -1 <= v.0 <= 1 && -1 <= v.1 <= 1 && -1 <= v.2 <= 1,
        n.0 == unit_product(u.1, v.2) - unit_product(u.2, v.1),
        n.1 == unit_product(u.2, v.0) - unit_product(u.0, v.2),
        n.2 == unit_product(u.0, v.1) - unit_product(u.1, v.0),
    ensures
        cross(u, v) == n,
{
    lemma_unit_product(u.1, v.2);
    lemma_unit_product(u.2, v.1);
    lemma_unit_product(u.2, v.0);
    lemma_unit_product(u.0, v.2);
    lemma_unit_product(u.0, v.1);
    lemma_unit_product(u.1, v.0);
}

/// The product of two numbers that are -1, 0 or 1 each, by cases.
spec fn unit_product(a: int, b: int) -> int {
    if a == 0 || b == 0 {
        0
    } else if a == b {
        1
    } else {
        -1
    }
}

proof fn lemma_unit_product(a: int, b: int)
    requires
        -1 <= a <= 1,
        -1 <= b <= 1,
    ensures
        a * b == unit_product(a, b),
{
    assert(a * b == unit_product(a, b)) by (nonlinear_arith)
        requires
            -1 <= a <= 1,
            -1 <= b <= 1,
    ;
}

/// Joining two lists of quads gives a list of quads.
pub proof fn lemma_quads_concat(a: Seq<Vertex>, b: Seq<Vertex>)
    requires
        quads_of_cubes(a),
        quads_of_cubes(b),
    ensures
        quads_of_cubes(a + b),
{
    let ab = a + b;
    assert forall|q: int| 0 <= q && 4 * q < ab.len() implies #[trigger] is_face_quad(ab, q) by {
        if 4 * q < a.len() {
            assert(is_face_quad(a, q));
            assert(ab.subrange(4 * q, 4 * q + 4) =~= a.subrange(4 * q, 4 * q + 4));
        } else {
            let r = q - a.len() / 4;
            assert(is_face_quad(b, r));
            assert(ab.subrange(4 * q, 4 * q + 4) =~= b.subrange(4 * r, 4 * r + 4));
        }
    }
}

/// What is emitted for one face of a cell of the chunk is a list of quads:
/// one quad or none.
pub proof fn lemma_emitted_face_quads(
    blocks: Seq<Block>,
    atlas: Map<Seq<char>, AtlasTexCoords>,
    desc: DescriptorModel,
    x: int,
    y: int,
    z: int,
    dir: Dir,
)
    requires
        in_chunk(x, y, z),
    ensures
        quads_of_cubes(emitted_face(blocks, atlas, desc, x, y, z, dir)),
{
    let face = emitted_face(blocks, atlas, desc, x, y, z, dir);
    match emitted_texcoords(blocks, atlas, desc, x, y, z, dir) {
        Some(tex) => {
            assert(face.subrange(0, 4) =~= face_vertices(x, y, z, dir, tex));
            assert(is_face_quad(face, 0));
        },
        None => {},
    }
}

/// The mesh of a chunk is a list of quads on faces of unit cubes.
pub proof fn lemma_mesh_quads(
    s: ChunkState,
    atlas: Map<Seq<char>, AtlasTexCoords>,
    registry: Seq<DescriptorModel>,
    n: nat,
)
    requires
        n <= 4096,
    ensures
        quads_of_cubes(mesh_vertices_upto(s, atlas, registry, n)),
    decreases n,
{
    if n > 0 {
        let i = n - 1;
        lemma_mesh_quads(s, atlas, registry, i as nat);
        lemma_cell_coords_roundtrip(i);
        let (x, y, z) = (cell_x(i), cell_y(i), cell_z(i));
        let desc = registry[s.blocks[i].desc_index as int];
        let before = mesh_vertices_upto(s, atlas, registry, i as nat);
        let cell = cell_vertices(s, atlas, registry, i);
        if cell_renders(s, i) {
            let f1 = emitted_face(s.blocks, atlas, desc, x, y, z, Dir::Up);
            let f2 = emitted_face(s.blocks, atlas, desc, x, y, z, Dir::Left);
            let f3 = emitted_face(s.blocks, atlas, desc, x, y, z, Dir::Back);
            let f4 = emitted_face(s.blocks, atlas, desc, x, y, z, Dir::Down);
            let f5 = emitted_face(s.blocks, atlas, desc, x, y, z, Dir::Right);
            let f6 = emitted_face(s.blocks, atlas, desc, x, y, z, Dir::Front);
            lemma_emitted_face_quads(s.blocks, atlas, desc, x, y, z, Dir::Up);
            lemma_emitted_face_quads(s.blocks, atlas, desc, x, y, z, Dir::Left);
            lemma_emitted_face_quads(s.blocks, atlas, desc, x, y, z, Dir::Back);
            lemma_emitted_face_quads(s.blocks, atlas, desc, x, y, z, Dir::Down);
            lemma_emitted_face_quads(s.blocks, atlas, desc, x, y, z, Dir::Right);
            lemma_emitted_face_quads(s.blocks, atlas, desc, x, y, z, Dir::Front);
            lemma_quads_concat(f1, f2);
            lemma_quads_concat(f1 + f2, f3);
            lemma_quads_concat(f1 + f2 + f3, f4);
            lemma_quads_concat(f1 + f2 + f3 + f4, f5);
            lemma_quads_concat(f1 + f2 + f3 + f4 + f5, f6);
            assert(cell == f1 + f2 + f3 + f4 + f5 + f6);
        }
        lemma_quads_concat(before, cell);
    }
}

/// Moving a list of quads moves each quad to the face of another unit cube.
pub proof fn lemma_quads_translated(vertices: Seq<Vertex>, d: (int, int, int))
    requires
        quads_of_cubes(vertices),
        -0x1_0000_0000_0000_0000_00 <= d.0 <= 0x1_0000_0000_0000_0000_00,
        -0x1_0000_0000_0000_0000_00 <= d.1 <= 0x1_0000_0000_0000_0000_00,
        -0x1_0000_0000_0000_0000_00 <= d.2 <= 0x1_0000_0000_0000_0000_00,
        forall|i: int|
            0 <= i < vertices.len() ==> -0x1_0000_0000 <= (#[trigger] vertices[i]).position[0]
                <= 0x1_0000_0000 && -0x1_0000_0000 <= vertices[i].position[1] <= 0x1_0000_0000
                && -0x1_0000_0000 <= vertices[i].position[2] <= 0x1_0000_0000,
    ensures
        quads_of_cubes(translated(vertices, d)),
{
    let moved = translated(vertices, d);
    assert forall|q: int| 0 <= q && 4 * q < moved.len() implies #[trigger] is_face_quad(
        moved,
        q,
    ) by {
        assert(is_face_quad(vertices, q));
        let (x, y, z, dir, tex) = choose|x: int, y: int, z: int, dir: Dir, tex: AtlasTexCoords|
            cube_fits(x, y, z) && #[trigger] face_vertices(x, y, z, dir, tex) == vertices.subrange(
                4 * q,
                4 * q + 4,
            );
        let old_face = face_vertices(x, y, z, dir, tex);
        let new_face = face_vertices(x + d.0, y + d.1, z + d.2, dir, tex);
        let part = moved.subrange(4 * q, 4 * q + 4);
        assert(old_face[0] == vertices[4 * q]);
        assert(old_face[0] == face_vertex(x, y, z, dir, tex, 0));
        assert(-0x1_0000_0001 <= x <= 0x1_0000_0000);
        assert(-0x1_0000_0001 <= y <= 0x1_0000_0000);
        assert(-0x1_0000_0001 <= z <= 0x1_0000_0000);
        assert forall|k: int| 0 <= k < 4 implies new_face[k] == part[k] by {
            assert(old_face[k] == vertices[4 * q + k]);
            assert(old_face[k] == face_vertex(x, y, z, dir, tex, k));
            let a = new_face[k];
            let b = part[k];
            assert(b == vertices[4 * q + k].spec_translated(d.0, d.1, d.2));
            assert(a.position@ =~= b.position@);
        }
        assert(new_face =~= part);
        assert(cube_fits(x + d.0, y + d.1, z + d.2));
    }
}

/// The mesh of a world is a list of quads on faces of unit cubes.
pub proof fn lemma_world_quads(
    positions: Seq<ChunkPos>,
    states: Seq<ChunkState>,
    atlas: Map<Seq<char>, AtlasTexCoords>,
    registry: Seq<DescriptorModel>,
    n: nat,
)
    ensures
        quads_of_cubes(world_vertices_upto(positions, states, atlas, registry, n)),
    decreases n,
{
    if n > 0 {
        lemma_world_quads(positions, states, atlas, registry, (n - 1) as nat);
        let local = mesh_vertices(states[n - 1], atlas, registry);
        let d = chunk_origin(positions[n - 1]);
        lemma_mesh_quads(states[n - 1], atlas, registry, 4096);
        lemma_mesh_shape(states[n - 1], atlas, registry, 4096);
        assert forall|i: int| 0 <= i < local.len() implies -0x1_0000_0000 <= (
        #[trigger] local[i]).position[0] <= 0x1_0000_0000 && -0x1_0000_0000
            <= local[i].position[1] <= 0x1_0000_0000 && -0x1_0000_0000 <= local[i].position[2]
            <= 0x1_0000_0000 by {
            assert(vertex_within(local[i], 0, 16));
        }
        lemma_quads_translated(local, d);
        lemma_quads_concat(
            world_vertices_upto(positions, states, atlas, registry, (n - 1) as nat),
            translated(local, d),
        );
    }
}

/// In a list of quads on faces of unit cubes, indexed quad by quad, every
/// triangle points the way its stored normals say.
pub proof fn lemma_quads_winding(vertices: Seq<Vertex>)
    requires
        quads_of_cubes(vertices),
        vertices.len() <= 0x1_0000_0000,
    ensures
        winding_consistent(vertices, quad_indices((vertices.len() / 4) as nat)),
{
    let quads = (vertices.len() / 4) as nat;
    let indices = quad_indices(quads);
    assert forall|t: int| 0 <= t && 3 * t + 2 < indices.len() implies #[trigger]
        triangle_consistent(vertices, indices, t) by {
        let q = t / 2;
        let h = t % 2;
        assert(0 <= q < quads);
        assert(is_face_quad(vertices, q));
        let (x, y, z, dir, tex) = choose|x: int, y: int, z: int, dir: Dir, tex: AtlasTexCoords|
            cube_fits(x, y, z) && #[trigger] face_vertices(x, y, z, dir, tex) == vertices.subrange(
                4 * q,
                4 * q + 4,
            );
        let face = face_vertices(x, y, z, dir, tex);
        lemma_face_winding(x, y, z, dir, tex);
        assert forall|k: int| 0 <= k < 4 implies vertices[4 * q + k] == face_vertex(
            x,
            y,
            z,
            dir,
            tex,
            k,
        ) by {
            assert(face[k] == vertices.subrange(4 * q, 4 * q + 4)[k]);
        }
        let k0 = 3 * t;
        assert(k0 / 6 == q && (k0 + 1) / 6 == q && (k0 + 2) / 6 == q);
        assert(k0 % 6 == 3 * h && (k0 + 1) % 6 == 3 * h + 1 && (k0 + 2) % 6 == 3 * h + 2);
        assert(indices[k0] == 4 * q + quad_corner(3 * h));
        assert(indices[k0 + 1] == 4 * q + quad_corner(3 * h + 1));
        assert(indices[k0 + 2] == 4 * q + quad_corner(3 * h + 2));
    }
}

} // verus!
