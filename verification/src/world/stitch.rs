//! Merging the meshes of single chunks into one mesh of the world.

use crate::render::types::Vertex;
use crate::world::mesher::{quad_corner, quad_indexed, quad_indices};
use vstd::prelude::*;
use vstd::seq_lib::{commutative_foldl, lemma_fold_left_permutation};

verus! {

/// Coordinates of a chunk in the grid of chunks.
#[derive(Copy, Clone, Debug, PartialEq, Eq, Structural, Hash)]
pub struct ChunkPos {
    pub x: isize,
    pub y: isize,
    pub z: isize,
}

impl ChunkPos {
    /// The chunk at `(x, y, z)` of the grid.
    pub fn new(x: isize, y: isize, z: isize) -> (p: Self)
        ensures
            p == (ChunkPos { x, y, z }),
    {
        ChunkPos { x, y, z }
    }
}

/// The world position of the cell `(0, 0, 0)` of the chunk at `p`.
pub open spec fn chunk_origin(p: ChunkPos) -> (int, int, int) {
    (p.x * 16, p.y * 16, p.z * 16)
}

/// Whether `v` moved by `d` still has coordinates of 128 bits.
pub open spec fn translation_fits(v: Vertex, d: (int, int, int)) -> bool {
    &&& i128::MIN <= v.position[0] + d.0 <= i128::MAX
    &&& i128::MIN <= v.position[1] + d.1 <= i128::MAX
    &&& i128::MIN <= v.position[2] + d.2 <= i128::MAX
}

/// Every vertex of `vertices` moved by `d`.
pub open spec fn translated(vertices: Seq<Vertex>, d: (int, int, int)) -> Seq<Vertex> {
    Seq::new(vertices.len(), |i: int| vertices[i].spec_translated(d.0, d.1, d.2))
}

/// Every index of `indices` raised by `offset`.
pub open spec fn rebased(indices: Seq<u32>, offset: int) -> Seq<u32> {
    Seq::new(indices.len(), |i: int| (indices[i] + offset) as u32)
}

/// The greatest element of `s`; 0 for the empty sequence.
pub open spec fn seq_max(s: Seq<u32>) -> int
    decreases s.len(),
{
    if s.len() == 0 {
        0
    } else if s.last() >= seq_max(s.drop_last()) {
        s.last() as int
    } else {
        seq_max(s.drop_last())
    }
}

/// The greatest element of a sequence that is not empty occurs in it and no
/// element exceeds it.
pub proof fn lemma_seq_max(s: Seq<u32>)
    requires
        s.len() > 0,
    ensures
        forall|i: int| 0 <= i < s.len() ==> s[i] <= seq_max(s),
        exists|i: int| 0 <= i < s.len() && s[i] == seq_max(s),
    decreases s.len(),
{
    let rest = s.drop_last();
    if rest.len() > 0 {
        lemma_seq_max(rest);
        let w = choose|i: int| 0 <= i < rest.len() && rest[i] == seq_max(rest);
        assert(s[w] == rest[w]);
        assert forall|i: int| 0 <= i < s.len() implies s[i] <= seq_max(s) by {
            if i < rest.len() {
                assert(s[i] == rest[i]);
            }
        }
        if s.last() >= seq_max(rest) {
            assert(s[s.len() - 1] == seq_max(s));
        } else {
            assert(s[w] == seq_max(s));
        }
    } else {
        assert(seq_max(rest) == 0);
        assert(s[0] == seq_max(s));
    }
}

/// An element that no other exceeds is the greatest.
pub proof fn lemma_seq_max_is(s: Seq<u32>, m: int, at: int)
    requires
        0 <= at < s.len(),
        s[at] == m,
        forall|i: int| 0 <= i < s.len() ==> s[i] <= m,
    ensures
        seq_max(s) == m,
{
    lemma_seq_max(s);
}

/// What is added to the indices of a mesh that joins a buffer already holding
/// `indices`: nothing if the buffer is empty, else one more than its greatest
/// index.
pub open spec fn rebase_offset(indices: Seq<u32>) -> int {
    if indices.len() == 0 {
        0
    } else {
        seq_max(indices) + 1
    }
}

/// In the index list of a mesh of quads every index names a vertex of the
/// mesh.
pub proof fn lemma_quad_indices_in_range(quads: nat)
    requires
        4 * quads <= 0x1_0000_0000,
    ensures
        forall|k: int| 0 <= k < 6 * quads ==> #[trigger] quad_indices(quads)[k] < 4 * quads,
{
    assert forall|k: int| 0 <= k < 6 * quads implies #[trigger] quad_indices(quads)[k] < 4
        * quads by {
        assert(0 <= k / 6 < quads && 0 <= k % 6 < 6);
        assert(0 <= quad_corner(k % 6) <= 3);
    }
}

/// The offset for a mesh that joins a buffer of `quads` quads is the number of
/// vertices in the buffer.
pub proof fn lemma_rebase_offset_of_quads(quads: nat)
    requires
        4 * quads <= 0x1_0000_0000,
    ensures
        rebase_offset(quad_indices(quads)) == 4 * quads,
{
    if quads > 0 {
        let s = quad_indices(quads);
        lemma_quad_indices_in_range(quads);
        let at = 6 * quads - 1;
        assert(at / 6 == quads - 1 && at % 6 == 5);
        assert(s[at] == 4 * quads - 1);
        assert forall|i: int| 0 <= i < s.len() implies s[i] <= 4 * quads - 1 by {
            assert(quad_indices(quads)[i] < 4 * quads);
        }
        lemma_seq_max_is(s, 4 * quads - 1, at);
    }
}

/// Joining a mesh of `more` quads to a buffer of `quads` quads, with the
/// offset that the buffer gives, yields the index list of a mesh of
/// `quads + more` quads.
pub proof fn lemma_quad_indices_append(quads: nat, more: nat)
    requires
        4 * (quads + more) <= 0x1_0000_0000,
    ensures
        quad_indices(quads) + rebased(quad_indices(more), rebase_offset(quad_indices(quads)))
            == quad_indices(quads + more),
{
    lemma_rebase_offset_of_quads(quads);
    lemma_quad_indices_in_range(more);
    let joined = quad_indices(quads) + rebased(quad_indices(more), 4 * quads as int);
    let whole = quad_indices(quads + more);
    assert(joined.len() == whole.len());
    assert forall|k: int| 0 <= k < whole.len() implies joined[k] == whole[k] by {
        if k >= 6 * quads {
            let j = k - 6 * quads;
            assert(k / 6 == quads + j / 6 && k % 6 == j % 6);
            assert(0 <= j / 6 < more && 0 <= j % 6 < 6);
            assert(0 <= quad_corner(j % 6) <= 3);
            assert(quad_indices(more)[j] < 4 * more);
            assert(joined[k] == rebased(quad_indices(more), 4 * quads as int)[j]);
        } else {
            assert(0 <= k / 6 < quads && 0 <= k % 6 < 6);
            assert(0 <= quad_corner(k % 6) <= 3);
        }
    }
    assert(joined =~= whole);
}

/// The mesh of one chunk as it arrives for merging.
pub struct ChunkMesh {
    pub position: ChunkPos,
    pub vertices: Seq<Vertex>,
    pub indices: Seq<u32>,
}

/// The buffers after `meshes` were merged, one after another in the order
/// of the sequence, into empty buffers.
pub open spec fn stitched(meshes: Seq<ChunkMesh>) -> (Seq<Vertex>, Seq<u32>)
    decreases meshes.len(),
{
    if meshes.len() == 0 {
        (Seq::empty(), Seq::empty())
    } else {
        let acc = stitched(meshes.drop_last());
        let m = meshes.last();
        (
            acc.0 + translated(m.vertices, chunk_origin(m.position)),
            acc.1 + rebased(m.indices, rebase_offset(acc.1)),
        )
    }
}

/// The number of vertices in all of `meshes`.
pub open spec fn vertex_total(meshes: Seq<ChunkMesh>) -> nat {
    meshes.fold_left(0nat, |sum: nat, m: ChunkMesh| sum + m.vertices.len())
}

/// The number of indices in all of `meshes`.
pub open spec fn index_total(meshes: Seq<ChunkMesh>) -> nat {
    meshes.fold_left(0nat, |sum: nat, m: ChunkMesh| sum + m.indices.len())
}

/// Whether every one of `meshes` is a mesh of quads, indexed quad by quad.
pub open spec fn all_quad_indexed(meshes: Seq<ChunkMesh>) -> bool {
    forall|i: int|
        0 <= i < meshes.len() ==> quad_indexed((#[trigger] meshes[i]).vertices, meshes[i].indices)
}

/// Merging meshes of quads keeps every vertex and every index, and leaves
/// every index naming a vertex of the joint buffer: the result is again a
/// mesh of quads, indexed quad by quad.
pub proof fn lemma_stitching(meshes: Seq<ChunkMesh>)
    requires
        all_quad_indexed(meshes),
        vertex_total(meshes) <= 0x1_0000_0000,
    ensures
        stitched(meshes).0.len() == vertex_total(meshes),
        stitched(meshes).1.len() == index_total(meshes),
        quad_indexed(stitched(meshes).0, stitched(meshes).1),
        forall|k: int|
            0 <= k < stitched(meshes).1.len() ==> #[trigger] stitched(meshes).1[k] < stitched(
                meshes,
            ).0.len(),
    decreases meshes.len(),
{
    if meshes.len() > 0 {
        let rest = meshes.drop_last();
        let m = meshes.last();
        assert forall|i: int| 0 <= i < rest.len() implies quad_indexed(
            (#[trigger] rest[i]).vertices,
            rest[i].indices,
        ) by {
            assert(rest[i] == meshes[i]);
        }
        lemma_stitching(rest);
        let acc = stitched(rest);
        assert(quad_indexed(m.vertices, m.indices));
        let quads = (acc.0.len() / 4) as nat;
        let more = (m.vertices.len() / 4) as nat;
        lemma_quad_indices_append(quads, more);
    }
    lemma_quad_indices_in_range((stitched(meshes).0.len() / 4) as nat);
    assert(quad_indices(0) =~= Seq::<u32>::empty());
}

/// The order in which meshes arrive does not matter to what the merged
/// buffers hold in number: two orders of the same meshes give as many
/// vertices and as many indices, and in both every index names a vertex.
pub proof fn lemma_stitching_any_order(first: Seq<ChunkMesh>, second: Seq<ChunkMesh>)
    requires
        first.to_multiset() == second.to_multiset(),
        all_quad_indexed(first),
        vertex_total(first) <= 0x1_0000_0000,
    ensures
        stitched(first).0.len() == stitched(second).0.len(),
        stitched(first).1.len() == stitched(second).1.len(),
        forall|k: int|
            0 <= k < stitched(second).1.len() ==> #[trigger] stitched(second).1[k] < stitched(
                second,
            ).0.len(),
{
    broadcast use vstd::seq_lib::group_to_multiset_ensures;

    let count_vertices = |sum: nat, m: ChunkMesh| sum + m.vertices.len();
    let count_indices = |sum: nat, m: ChunkMesh| sum + m.indices.len();
    assert(commutative_foldl(count_vertices));
    assert(commutative_foldl(count_indices));
    lemma_fold_left_permutation(first, second, count_vertices, 0nat);
    lemma_fold_left_permutation(first, second, count_indices, 0nat);
    assert forall|i: int| 0 <= i < second.len() implies quad_indexed(
        (#[trigger] second[i]).vertices,
        second[i].indices,
    ) by {
        assert(second.to_multiset().count(second[i]) > 0);
        assert(first.contains(second[i]));
        let k = first.index_of(second[i]);
        assert(quad_indexed(first[k].vertices, first[k].indices));
    }
    lemma_stitching(first);
    lemma_stitching(second);
}

/// The greatest element of `indices`.
pub fn max_index(indices: &Vec<u32>) -> (m: u32)
    requires
        indices@.len() > 0,
    ensures
        m == seq_max(indices@),
{
    let mut m: u32 = indices[0];
    let mut i: usize = 1;
    assert(seq_max(indices@.subrange(0, 1).drop_last()) == 0);
    while i < indices.len()
        invariant
            1 <= i <= indices@.len(),
            m == seq_max(indices@.subrange(0, i as int)),
        decreases indices@.len() - i,
    {
        assert(indices@.subrange(0, i + 1).drop_last() =~= indices@.subrange(0, i as int));
        if indices[i] >= m {
            m = indices[i];
        }
        i = i + 1;
    }
    assert(indices@.subrange(0, i as int) =~= indices@);
    m
}

/// Appends the mesh of the chunk at `position` to a buffer of world meshes.
/// The chunk's vertices are moved to the chunk's place in the world. Its
/// indices keep naming its own vertices through an offset taken from the
/// buffer as it is at this moment: one more than the greatest index in it, or
/// nothing if it holds none.
pub fn merge_mesh(
    vertices: &mut Vec<Vertex>,
    indices: &mut Vec<u32>,
    position: ChunkPos,
    chunk_vertices: Vec<Vertex>,
    chunk_indices: Vec<u32>,
)
    requires
        forall|i: int|
            0 <= i < chunk_vertices@.len() ==> translation_fits(
                #[trigger] chunk_vertices@[i],
                chunk_origin(position),
            ),
        chunk_indices@.len() > 0 ==> rebase_offset(old(indices)@) + seq_max(chunk_indices@)
            <= u32::MAX,
    ensures
        final(vertices)@ == old(vertices)@ + translated(chunk_vertices@, chunk_origin(position)),
        final(indices)@ == old(indices)@ + rebased(
            chunk_indices@,
            rebase_offset(old(indices)@),
        ),
{
    let ghost before = vertices@;
    let ghost before_indices = indices@;
    let ghost origin = chunk_origin(position);
    let dx: i128 = position.x as i128 * 16;
    let dy: i128 = position.y as i128 * 16;
    let dz: i128 = position.z as i128 * 16;
    let mut i: usize = 0;
    while i < chunk_vertices.len()
        invariant
            i <= chunk_vertices@.len(),
            origin == (dx as int, dy as int, dz as int),
            forall|i: int|
                0 <= i < chunk_vertices@.len() ==> translation_fits(
                    #[trigger] chunk_vertices@[i],
                    origin,
                ),
            vertices@ == before + translated(chunk_vertices@, origin).subrange(0, i as int),
        decreases chunk_vertices@.len() - i,
    {
        let v = chunk_vertices[i];
        assert(translation_fits(chunk_vertices@[i as int], origin));
        vertices.push(v.translated(dx, dy, dz));
        i = i + 1;
        assert(vertices@ =~= before + translated(chunk_vertices@, origin).subrange(0, i as int));
    }
    assert(translated(chunk_vertices@, origin).subrange(0, i as int) =~= translated(
        chunk_vertices@,
        origin,
    ));

    if indices.is_empty() {
        let mut j: usize = 0;
        while j < chunk_indices.len()
            invariant
                j <= chunk_indices@.len(),
                indices@ == before_indices + rebased(chunk_indices@, 0).subrange(0, j as int),
            decreases chunk_indices@.len() - j,
        {
            indices.push(chunk_indices[j]);
            j = j + 1;
            assert(indices@ =~= before_indices + rebased(chunk_indices@, 0).subrange(0, j as int));
        }
        assert(rebased(chunk_indices@, 0).subrange(0, j as int) =~= rebased(chunk_indices@, 0));
    } else {
        let max = max_index(indices);
        let ghost offset = max + 1;
        proof {
            if chunk_indices@.len() > 0 {
                lemma_seq_max(chunk_indices@);
            }
        }
        let mut j: usize = 0;
        while j < chunk_indices.len()
            invariant
                j <= chunk_indices@.len(),
                offset == max + 1,
                forall|i: int| 0 <= i < chunk_indices@.len() ==> chunk_indices@[i] + offset
                    <= u32::MAX,
                indices@ == before_indices + rebased(chunk_indices@, offset).subrange(
                    0,
                    j as int,
                ),
            decreases chunk_indices@.len() - j,
        {
            let x = chunk_indices[j];
            indices.push(x + max + 1);
            j = j + 1;
            assert(indices@ =~= before_indices + rebased(chunk_indices@, offset).subrange(
                0,
                j as int,
            ));
        }
        assert(rebased(chunk_indices@, offset).subrange(0, j as int) =~= rebased(
            chunk_indices@,
            offset,
        ));
    }
}

} // verus!
