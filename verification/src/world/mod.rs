//! Chunks of blocks, their meshes, and the world that holds them.

pub mod chunk;
pub mod generator;
pub mod mesher;
pub mod solid;
pub mod stitch;
pub mod winding;

use crate::constants::{lemma_cell_index_roundtrip, CHUNK_WIDTH};
use crate::render::block::{projects, BlockRegistry, DescriptorModel};
use crate::render::texture::{AtlasTexCoords, TextureAtlas};
use crate::render::types::Vertex;
pub use crate::world::chunk::Chunk;
use crate::world::chunk::{pristine, remeshed, ChunkState};
use crate::world::generator::{generated_upto, ready_for_chunk};
pub use crate::world::generator::{GenBalls, GenFullRandom, WorldGen};
pub use crate::world::stitch::ChunkPos;
use crate::world::mesher::{
    can_mesh, lemma_mesh_shape, mesh_vertices, meshable, quad_indexed, quad_indices, vertex_within,
};
use crate::world::stitch::{
    chunk_origin, lemma_quad_indices_append, lemma_quad_indices_in_range,
    lemma_rebase_offset_of_quads, merge_mesh, translated, translation_fits,
};
use crate::world::winding::{lemma_quads_winding, lemma_world_quads, winding_consistent};
use rayon::iter::{IntoParallelRefMutIterator, ParallelIterator};
use vstd::prelude::*;

verus! {

/// The text that reports that no chunk exists at `(x, y, z)`: the three
/// coordinates in decimal inside a fixed sentence.
pub uninterp spec fn missing_chunk_text(x: int, y: int, z: int) -> Seq<char>;

/// Formats the report of a missing chunk with std's `format!`. The result is
/// taken to depend on the three coordinates alone.
#[verifier::external_body]
fn missing_chunk_message(position: ChunkPos) -> (msg: String)
    ensures
        msg@ == missing_chunk_text(position.x as int, position.y as int, position.z as int),
{
    format!("Chunk {}, {}, {} doesn't exist", position.x, position.y, position.z)
}

/// Brings the cached mesh of every chunk up to date, in parallel, with
/// rayon's `par_iter_mut` and `for_each`: the closure runs `Chunk::remesh`
/// once on each element of the vector, and the call returns when all have
/// run. What holds of each chunk afterwards is what `Chunk::remesh` ensures.
#[verifier::external_body]
fn par_remesh(chunks: &mut Vec<Chunk>, atlas: &TextureAtlas, palette: &BlockRegistry)
    requires
        forall|i: int|
            0 <= i < old(chunks)@.len() ==> {
                &&& (#[trigger] old(chunks)@[i]).wf()
                &&& old(chunks)@[i].is_dirty() ==> meshable(old(chunks)@[i]@, palette@)
            },
    ensures
        final(chunks)@.len() == old(chunks)@.len(),
        forall|i: int|
            0 <= i < old(chunks)@.len() ==> remeshed(
                old(chunks)@[i],
                #[trigger] final(chunks)@[i],
                atlas@,
                palette@,
            ),
{
    chunks.par_iter_mut().for_each(|chunk| chunk.remesh(atlas, palette));
}

/// The greatest number of chunks whose meshes, however large, can be joined
/// into one mesh indexed with 32 bits.
pub const MAX_MESHED_CHUNKS: usize = 43690;

/// The state of a chunk made by `generator`: filled cell by cell, or left
/// empty where there is no generator.
pub open spec fn generated_state<G: WorldGen>(
    generator: Option<G>,
    registry: Seq<DescriptorModel>,
) -> ChunkState {
    match generator {
        Some(g) => generated_upto(g, registry, 4096),
        None => pristine(),
    }
}

/// The states of `chunks`, one by one.
pub open spec fn states_of(chunks: Seq<Chunk>) -> Seq<ChunkState> {
    Seq::new(chunks.len(), |i: int| chunks[i]@)
}

/// The vertices of the world mesh of the first `n` chunks: the mesh of each,
/// moved to the chunk's place in the world, one after another.
pub open spec fn world_vertices_upto(
    positions: Seq<ChunkPos>,
    states: Seq<ChunkState>,
    atlas: Map<Seq<char>, AtlasTexCoords>,
    registry: Seq<DescriptorModel>,
    n: nat,
) -> Seq<Vertex>
    decreases n,
{
    if n == 0 {
        Seq::empty()
    } else {
        world_vertices_upto(positions, states, atlas, registry, (n - 1) as nat) + translated(
            mesh_vertices(states[n - 1], atlas, registry),
            chunk_origin(positions[n - 1]),
        )
    }
}

/// The world mesh has as many vertices as the meshes of its chunks together:
/// it grows by the size of each chunk's mesh, comes in fours, and has at most
/// 98304 vertices to a chunk.
pub proof fn lemma_world_vertices_len(
    positions: Seq<ChunkPos>,
    states: Seq<ChunkState>,
    atlas: Map<Seq<char>, AtlasTexCoords>,
    registry: Seq<DescriptorModel>,
    m: nat,
    n: nat,
)
    requires
        m <= n,
    ensures
        world_vertices_upto(positions, states, atlas, registry, m).len() <= world_vertices_upto(
            positions,
            states,
            atlas,
            registry,
            n,
        ).len(),
        world_vertices_upto(positions, states, atlas, registry, n).len() % 4 == 0,
        world_vertices_upto(positions, states, atlas, registry, n).len() <= 98304 * n,
        n > 0 ==> world_vertices_upto(positions, states, atlas, registry, n).len()
            == world_vertices_upto(positions, states, atlas, registry, (n - 1) as nat).len()
            + mesh_vertices(states[n - 1], atlas, registry).len(),
    decreases n,
{
    if n > 0 {
        lemma_mesh_shape(states[n - 1], atlas, registry, 4096);
        if m < n {
            lemma_world_vertices_len(positions, states, atlas, registry, m, (n - 1) as nat);
        } else {
            lemma_world_vertices_len(
                positions,
                states,
                atlas,
                registry,
                (n - 1) as nat,
                (n - 1) as nat,
            );
        }
    }
}

/// In a sequence without repetition an element is found where it stands.
pub proof fn lemma_index_of_unique(s: Seq<ChunkPos>, p: ChunkPos, i: int)
    requires
        s.no_duplicates(),
        0 <= i < s.len(),
        s[i] == p,
    ensures
        s.contains(p),
        s.index_of(p) == i,
{
    let k = s.index_of(p);
    assert(0 <= k < s.len() && s[k] == p);
}

/// A sparse grid of chunks with the generator that fills new ones. A chunk
/// comes into being when it is first asked for and is never dropped: the
/// world grows without bound.
pub struct World<G: WorldGen> {
    positions: Vec<ChunkPos>,
    chunks: Vec<Chunk>,
    generator: Option<G>,
}

impl<G: WorldGen> View for World<G> {
    type V = Map<ChunkPos, ChunkState>;

    open spec fn view(&self) -> Map<ChunkPos, ChunkState> {
        Map::new(
            |p: ChunkPos| self.spec_positions().contains(p),
            |p: ChunkPos| self.spec_chunks()[self.spec_positions().index_of(p)]@,
        )
    }
}

impl World<GenBalls> {
    /// An empty world whose chunks will be filled by `GenBalls`.
    pub fn new() -> (world: Self)
        ensures
            world.wf(),
            world.spec_positions() == Seq::<ChunkPos>::empty(),
            world.spec_chunks() == Seq::<Chunk>::empty(),
            world.spec_generator() == Some(GenBalls {  }),
    {
        World { positions: Vec::new(), chunks: Vec::new(), generator: Some(GenBalls {  }) }
    }
}

impl<G: WorldGen> World<G> {
    /// The coordinates of the chunks, in the order in which they were made.
    pub closed spec fn spec_positions(&self) -> Seq<ChunkPos> {
        self.positions@
    }

    /// The chunks, in the order in which they were made.
    pub closed spec fn spec_chunks(&self) -> Seq<Chunk> {
        self.chunks@
    }

    /// The generator that fills new chunks.
    pub closed spec fn spec_generator(&self) -> Option<G> {
        self.generator
    }

    /// Each chunk has coordinates of its own, and each is well formed.
    pub open spec fn wf(&self) -> bool {
        &&& self.spec_positions().len() == self.spec_chunks().len()
        &&& self.spec_positions().no_duplicates()
        &&& forall|i: int|
            0 <= i < self.spec_chunks().len() ==> (#[trigger] self.spec_chunks()[i]).wf()
    }

    /// Whether every chunk that was written can be meshed with `registry`.
    pub open spec fn meshable_with(&self, registry: Seq<DescriptorModel>) -> bool {
        forall|i: int|
            0 <= i < self.spec_chunks().len() && (#[trigger] self.spec_chunks()[i]).is_dirty()
                ==> meshable(self.spec_chunks()[i]@, registry)
    }

    /// The vertices of the mesh of the whole world.
    pub open spec fn spec_mesh_vertices(
        &self,
        atlas: Map<Seq<char>, AtlasTexCoords>,
        registry: Seq<DescriptorModel>,
    ) -> Seq<Vertex> {
        world_vertices_upto(
            self.spec_positions(),
            states_of(self.spec_chunks()),
            atlas,
            registry,
            self.spec_chunks().len(),
        )
    }

    /// An empty world whose chunks will be filled by `generator`, or left
    /// empty where there is none.
    pub fn with_generator(generator: Option<G>) -> (world: Self)
        ensures
            world.wf(),
            world.spec_positions() == Seq::<ChunkPos>::empty(),
            world.spec_chunks() == Seq::<Chunk>::empty(),
            world.spec_generator() == generator,
    {
        World { positions: Vec::new(), chunks: Vec::new(), generator }
    }

    /// Number of chunks in the world.
    pub fn len(&self) -> (n: usize)
        ensures
            n == self.spec_chunks().len(),
    {
        self.chunks.len()
    }

    fn find(&self, position: ChunkPos) -> (found: Option<usize>)
        requires
            self.wf(),
        ensures
            match found {
                Some(i) => i < self.spec_positions().len() && self.spec_positions()[i as int]
                    == position && self.spec_positions().index_of(position) == i,
                None => !self.spec_positions().contains(position),
            },
    {
        let mut i: usize = 0;
        while i < self.positions.len()
            invariant
                self.wf(),
                i <= self.positions@.len(),
                forall|j: int| 0 <= j < i ==> self.positions@[j] != position,
            decreases self.positions@.len() - i,
        {
            if self.positions[i] == position {
                proof {
                    lemma_index_of_unique(self.positions@, position, i as int);
                }
                return Some(i);
            }
            i = i + 1;
        }
        None
    }

    /// The chunk at `position`, or a report that there is none.
    pub fn get_chunk(&self, position: ChunkPos) -> (r: Result<&Chunk, String>)
        requires
            self.wf(),
        ensures
            match r {
                Ok(chunk) => {
                    &&& self@.contains_key(position)
                    &&& *chunk == self.spec_chunks()[self.spec_positions().index_of(position)]
                    &&& chunk@ == self@[position]
                },
                Err(msg) => !self@.contains_key(position) && msg@ == missing_chunk_text(
                    position.x as int,
                    position.y as int,
                    position.z as int,
                ),
            },
    {
        match self.find(position) {
            Some(i) => Ok(&self.chunks[i]),
            None => Err(missing_chunk_message(position)),
        }
    }

    /// Whether the registry holds what the world's generator looks up when it
    /// fills a chunk.
    pub open spec fn generator_ready(&self, registry: Seq<DescriptorModel>) -> bool {
        match self.spec_generator() {
            Some(g) => ready_for_chunk(g, registry),
            None => true,
        }
    }

    /// Makes the chunk for `position` without adding it to the world: every
    /// cell written once with the generator's block, in order of flattened
    /// index, or an empty chunk where the world has no generator. Where the
    /// world already holds a chunk at `position`, reports that instead.
    pub fn generate_chunk(&mut self, position: ChunkPos, palette: &BlockRegistry) -> (r: Result<
        Chunk,
        String,
    >)
        requires
            old(self).wf(),
            palette.wf(),
            !old(self)@.contains_key(position) ==> old(self).generator_ready(palette@),
        ensures
            *final(self) == *old(self),
            match r {
                Ok(chunk) => {
                    &&& !old(self)@.contains_key(position)
                    &&& chunk.wf()
                    &&& chunk@ == generated_state(old(self).spec_generator(), palette@)
                    &&& chunk.is_dirty() == (old(self).spec_generator() is Some)
                    &&& old(self).spec_generator() is Some ==> forall|i: int|
                        0 <= i < 4096 ==> projects(palette@, #[trigger] chunk@.blocks[i])
                },
                Err(msg) => old(self)@.contains_key(position) && msg@ == "Chunk already exists"@,
            },
    {
        if self.find(position).is_some() {
            Err("Chunk already exists".to_owned())
        } else if self.generator.is_none() {
            Ok(Chunk::new())
        } else {
            let generator = self.generator.as_ref().unwrap();
            let mut chunk = Chunk::new();

            let mut x: usize = 0;
            while x < CHUNK_WIDTH
                invariant
                    x <= 16,
                    palette.wf(),
                    ready_for_chunk(*generator, palette@),
                    chunk.wf(),
                    x > 0 ==> chunk.is_dirty(),
                    chunk@ == generated_upto(*generator, palette@, (256 * x) as nat),
                    chunk@.blocks.len() == 4096,
                    forall|i: int|
                        0 <= i < 256 * x ==> projects(palette@, #[trigger] chunk@.blocks[i]),
                decreases 16 - x,
            {
                let mut y: usize = 0;
                while y < CHUNK_WIDTH
                    invariant
                        x < 16,
                        y <= 16,
                        palette.wf(),
                        ready_for_chunk(*generator, palette@),
                        chunk.wf(),
                        x > 0 || y > 0 ==> chunk.is_dirty(),
                        chunk@ == generated_upto(*generator, palette@, (256 * x + 16 * y) as nat),
                        chunk@.blocks.len() == 4096,
                        forall|i: int|
                            0 <= i < 256 * x + 16 * y ==> projects(
                                palette@,
                                #[trigger] chunk@.blocks[i],
                            ),
                    decreases 16 - y,
                {
                    let mut z: usize = 0;
                    while z < CHUNK_WIDTH
                        invariant
                            x < 16,
                            y < 16,
                            z <= 16,
                            palette.wf(),
                            ready_for_chunk(*generator, palette@),
                            chunk.wf(),
                            x > 0 || y > 0 || z > 0 ==> chunk.is_dirty(),
                            chunk@ == generated_upto(
                                *generator,
                                palette@,
                                (256 * x + 16 * y + z) as nat,
                            ),
                            chunk@.blocks.len() == 4096,
                            forall|i: int|
                                0 <= i < 256 * x + 16 * y + z ==> projects(
                                    palette@,
                                    #[trigger] chunk@.blocks[i],
                                ),
                        decreases 16 - z,
                    {
                        proof {
                            lemma_cell_index_roundtrip(x as int, y as int, z as int);
                            assert(generator.ready((x as int, y as int, z as int), palette@));
                        }
                        let block = generator.at((x, y, z), palette);
                        chunk.set_block(x, y, z, block);
                        z = z + 1;
                    }
                    y = y + 1;
                }
                x = x + 1;
            }
            Ok(chunk)
        }
    }

    /// The chunk at `position`. Where the world holds none yet, one is made
    /// as `generate_chunk` does and added to the world first.
    pub fn get_chunk_or_generate(&mut self, position: ChunkPos, palette: &BlockRegistry) -> (chunk:
        &Chunk)
        requires
            old(self).wf(),
            palette.wf(),
            !old(self)@.contains_key(position) ==> old(self).generator_ready(palette@),
        ensures
            final(self).wf(),
            final(self).spec_generator() == old(self).spec_generator(),
            old(self)@.contains_key(position) ==> {
                &&& final(self).spec_positions() == old(self).spec_positions()
                &&& final(self).spec_chunks() == old(self).spec_chunks()
            },
            !old(self)@.contains_key(position) ==> {
                &&& final(self).spec_positions() == old(self).spec_positions().push(position)
                &&& final(self).spec_chunks() == old(self).spec_chunks().push(*chunk)
                &&& chunk@ == generated_state(old(self).spec_generator(), palette@)
                &&& chunk.is_dirty() == (old(self).spec_generator() is Some)
                &&& old(self).spec_generator() is Some ==> forall|i: int|
                    0 <= i < 4096 ==> projects(palette@, #[trigger] chunk@.blocks[i])
            },
            final(self)@ == if old(self)@.contains_key(position) {
                old(self)@
            } else {
                old(self)@.insert(position, generated_state(old(self).spec_generator(), palette@))
            },
            final(self)@.contains_key(position),
            chunk@ == final(self)@[position],
    {
        let ghost before = *self;
        match self.find(position) {
            Some(i) => {
                assert(self@ =~= before@);
                &self.chunks[i]
            },
            None => {
                match self.generate_chunk(position, palette) {
                    Ok(fresh) => {
                        self.positions.push(position);
                        self.chunks.push(fresh);
                    },
                    Err(_) => {},
                }
                let last = self.chunks.len() - 1;
                proof {
                    let ps = before.positions@;
                    let cs = before.chunks@;
                    let fresh = self.chunks@[last as int];
                    assert(self.positions@ == ps.push(position));
                    assert(self.chunks@ == cs.push(fresh));
                    assert(self.positions@.no_duplicates());
                    lemma_index_of_unique(self.positions@, position, last as int);
                    assert forall|p: ChunkPos| ps.contains(p) implies self.positions@.contains(p)
                        && self.positions@.index_of(p) == ps.index_of(p) by {
                        let k = ps.index_of(p);
                        assert(self.positions@[k] == p);
                        lemma_index_of_unique(self.positions@, p, k);
                    }
                    assert forall|p: ChunkPos| self.positions@.contains(p) implies ps.contains(p)
                        || p == position by {
                        let k = self.positions@.index_of(p);
                        if k < ps.len() {
                            assert(ps[k] == p);
                        }
                    }
                    assert(self@ =~= before@.insert(position, fresh@));
                }
                &self.chunks[last]
            },
        }
    }

    /// Whether the world can be meshed with the registry and is small enough
    /// for its mesh to be indexed with 32 bits whatever its chunks hold: a
    /// test that is enough for `make_mesh`.
    pub fn can_make_mesh(&self, palette: &BlockRegistry) -> (ok: bool)
        requires
            self.wf(),
        ensures
            ok == (self.meshable_with(palette@) && self.spec_chunks().len() <= MAX_MESHED_CHUNKS),
            ok ==> forall|atlas: Map<Seq<char>, AtlasTexCoords>|
                (#[trigger] self.spec_mesh_vertices(atlas, palette@)).len() <= 0x1_0000_0000,
    {
        if self.chunks.len() > MAX_MESHED_CHUNKS {
            return false;
        }
        let mut i: usize = 0;
        while i < self.chunks.len()
            invariant
                i <= self.chunks@.len(),
                forall|j: int|
                    0 <= j < i && (#[trigger] self.chunks@[j]).is_dirty() ==> meshable(
                        self.chunks@[j]@,
                        palette@,
                    ),
            decreases self.chunks@.len() - i,
        {
            if self.chunks[i].needs_remesh() && !can_mesh(&self.chunks[i], palette) {
                return false;
            }
            i = i + 1;
        }
        proof {
            assert forall|atlas: Map<Seq<char>, AtlasTexCoords>|
                (#[trigger] self.spec_mesh_vertices(atlas, palette@)).len() <= 0x1_0000_0000 by {
                lemma_world_vertices_len(
                    self.positions@,
                    states_of(self.chunks@),
                    atlas,
                    palette@,
                    self.chunks@.len(),
                    self.chunks@.len(),
                );
            }
        }
        true
    }

    /// Builds the mesh of the whole world. The cached mesh of every chunk is
    /// brought up to date, the chunks being worked on in parallel; then the
    /// meshes are joined in the order of the chunks, each moved to its chunk's
    /// place in the world and its indices rebased onto the joint buffer.
    pub fn make_mesh(&mut self, atlas: &TextureAtlas, palette: &BlockRegistry) -> (mesh: (
        Vec<Vertex>,
        Vec<u32>,
    ))
        requires
            old(self).wf(),
            old(self).meshable_with(palette@),
            old(self).spec_mesh_vertices(atlas@, palette@).len() <= 0x1_0000_0000,
        ensures
            final(self).wf(),
            final(self).spec_positions() == old(self).spec_positions(),
            states_of(final(self).spec_chunks()) == states_of(old(self).spec_chunks()),
            final(self).spec_generator() == old(self).spec_generator(),
            final(self)@ == old(self)@,
            final(self).spec_chunks().len() == old(self).spec_chunks().len(),
            forall|i: int|
                0 <= i < old(self).spec_chunks().len() ==> remeshed(
                    old(self).spec_chunks()[i],
                    #[trigger] final(self).spec_chunks()[i],
                    atlas@,
                    palette@,
                ),
            mesh.0@ == old(self).spec_mesh_vertices(atlas@, palette@),
            quad_indexed(mesh.0@, mesh.1@),
            mesh.1@.len() == 6 * (mesh.0@.len() / 4),
            forall|k: int| 0 <= k < mesh.1@.len() ==> #[trigger] mesh.1@[k] < mesh.0@.len(),
            winding_consistent(mesh.0@, mesh.1@),
    {
        let ghost before = *self;
        let ghost positions = self.positions@;
        let ghost states = states_of(self.chunks@);
        par_remesh(&mut self.chunks, atlas, palette);
        proof {
            assert(states_of(self.chunks@) =~= states);
            assert(self@ =~= before@);
        }

        let mut vertices: Vec<Vertex> = Vec::new();
        let mut indices: Vec<u32> = Vec::new();
        assert(indices@ =~= quad_indices(0));
        let n = self.chunks.len();
        let mut i: usize = 0;
        while i < n
            invariant
                i <= n,
                n == self.chunks@.len(),
                n == self.positions@.len(),
                positions == self.positions@,
                states == states_of(self.chunks@),
                forall|j: int|
                    0 <= j < n ==> remeshed(
                        before.chunks@[j],
                        #[trigger] self.chunks@[j],
                        atlas@,
                        palette@,
                    ),
                before.chunks@.len() == n,
                world_vertices_upto(positions, states, atlas@, palette@, n as nat).len()
                    <= 0x1_0000_0000,
                vertices@ == world_vertices_upto(positions, states, atlas@, palette@, i as nat),
                quad_indexed(vertices@, indices@),
            decreases n - i,
        {
            let (chunk_vertices, chunk_indices) = self.chunks[i].cached_mesh();
            let position = self.positions[i];
            proof {
                let chunk = self.chunks@[i as int];
                assert(remeshed(before.chunks@[i as int], chunk, atlas@, palette@));
                assert(chunk@ == states[i as int]);
                assert(chunk_vertices@ == mesh_vertices(states[i as int], atlas@, palette@));
                lemma_world_vertices_len(
                    positions,
                    states,
                    atlas@,
                    palette@,
                    (i + 1) as nat,
                    n as nat,
                );
                lemma_world_vertices_len(
                    positions,
                    states,
                    atlas@,
                    palette@,
                    i as nat,
                    (i + 1) as nat,
                );
                let quads = (vertices@.len() / 4) as nat;
                let more = (chunk_vertices@.len() / 4) as nat;
                assert(4 * (quads + more) <= 0x1_0000_0000);
                lemma_rebase_offset_of_quads(quads);
                lemma_rebase_offset_of_quads(more);
                lemma_quad_indices_append(quads, more);
                assert forall|k: int| 0 <= k < chunk_vertices@.len() implies translation_fits(
                    #[trigger] chunk_vertices@[k],
                    chunk_origin(position),
                ) by {
                    assert(vertex_within(chunk_vertices@[k], 0, 16));
                }
            }
            merge_mesh(&mut vertices, &mut indices, position, chunk_vertices, chunk_indices);
            i = i + 1;
        }
        proof {
            lemma_quad_indices_in_range((vertices@.len() / 4) as nat);
            lemma_world_quads(positions, states, atlas@, palette@, n as nat);
            lemma_quads_winding(vertices@);
        }
        (vertices, indices)
    }
}

} // verus!
