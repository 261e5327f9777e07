//! A chunk: a dense cube of blocks with a visibility bit per cell.

use crate::constants::{
    cell_index, cell_x, cell_y, cell_z, flat_index, in_chunk, lemma_cell_coords_roundtrip,
    CHUNK_SIZE,
};
use crate::render::block::{Block, BlockRegistry, DescriptorModel};
use crate::render::texture::{AtlasTexCoords, TextureAtlas};
use crate::render::types::Vertex;
use crate::world::mesher::{
    greedy, lemma_mesh_shape, lemma_mesh_without_rendering_cells, mesh_vertices, meshable,
    positions_within, quad_indices,
};
use vstd::prelude::*;

verus! {

/// Whether every neighbour of `(x, y, z)` inside the chunk is marked visible.
/// A neighbour outside the chunk does not count against the cell.
pub open spec fn neighbors_visible(visible: Seq<bool>, x: int, y: int, z: int) -> bool {
    &&& x > 0 ==> visible[cell_index(x - 1, y, z)]
    &&& x < 15 ==> visible[cell_index(x + 1, y, z)]
    &&& y > 0 ==> visible[cell_index(x, y - 1, z)]
    &&& y < 15 ==> visible[cell_index(x, y + 1, z)]
    &&& z > 0 ==> visible[cell_index(x, y, z - 1)]
    &&& z < 15 ==> visible[cell_index(x, y, z + 1)]
}

/// Whether the cell with index `i` shares a face with the cell `(x, y, z)`.
pub open spec fn adjacent(i: int, x: int, y: int, z: int) -> bool {
    let dx = cell_x(i) - x;
    let dy = cell_y(i) - y;
    let dz = cell_z(i) - z;
    &&& 0 <= i < 4096
    &&& {
        ||| (dx == 1 || dx == -1) && dy == 0 && dz == 0
        ||| dx == 0 && (dy == 1 || dy == -1) && dz == 0
        ||| dx == 0 && dy == 0 && (dz == 1 || dz == -1)
    }
}

/// The visibility bits after the cell `(x, y, z)` was written with a block
/// whose transparency is `transparent`. The cell itself becomes visible
/// exactly when all its neighbours inside the chunk were; if it did and the
/// block is transparent, the cells sharing a face with it become visible too,
/// and no cell beyond those changes.
pub open spec fn visibility_after(
    visible: Seq<bool>,
    x: int,
    y: int,
    z: int,
    transparent: bool,
) -> Seq<bool> {
    let own = neighbors_visible(visible, x, y, z);
    Seq::new(
        4096,
        |i: int|
            if i == cell_index(x, y, z) {
                own
            } else if transparent && own && adjacent(i, x, y, z) {
                true
            } else {
                visible[i]
            },
    )
}

/// The state of a chunk that was just created: air everywhere, every cell
/// marked visible.
pub open spec fn pristine() -> ChunkState {
    ChunkState {
        blocks: Seq::new(4096, |i: int| Block::air()),
        visible: Seq::new(4096, |i: int| true),
    }
}

/// The state after `block` was written to the cell `(x, y, z)`.
pub open spec fn written(s: ChunkState, x: int, y: int, z: int, block: Block) -> ChunkState {
    ChunkState {
        blocks: s.blocks.update(cell_index(x, y, z), block),
        visible: visibility_after(s.visible, x, y, z, block.transparent),
    }
}

/// Sixteen by sixteen by sixteen blocks, a visibility bit for each, and the
/// mesh last built from them.
pub struct Chunk {
    pub blocks: [Block; CHUNK_SIZE],
    pub visible: [bool; CHUNK_SIZE],
    needs_remesh: bool,
    vert_cache: (Vec<Vertex>, Vec<u32>),
}

/// What a chunk holds, cell by cell in order of flattened index.
pub struct ChunkState {
    pub blocks: Seq<Block>,
    pub visible: Seq<bool>,
}

impl View for Chunk {
    type V = ChunkState;

    closed spec fn view(&self) -> ChunkState {
        ChunkState { blocks: self.blocks@, visible: self.visible@ }
    }
}

impl Chunk {
    /// Whether a block was written since the chunk was created.
    pub closed spec fn is_dirty(&self) -> bool {
        self.needs_remesh
    }

    /// The vertices of the cached mesh.
    pub closed spec fn cached_vertices(&self) -> Seq<Vertex> {
        self.vert_cache.0@
    }

    /// The indices of the cached mesh.
    pub closed spec fn cached_indices(&self) -> Seq<u32> {
        self.vert_cache.1@
    }

    /// A chunk that was never written holds no block that renders, and its
    /// cached mesh is empty.
    pub open spec fn wf(&self) -> bool {
        !self.is_dirty() ==> {
            &&& self.cached_vertices().len() == 0
            &&& self.cached_indices().len() == 0
            &&& forall|i: int| 0 <= i < 4096 ==> (#[trigger] self@.blocks[i]).invisible
        }
    }

    /// An empty chunk: air in every cell, every cell marked visible.
    pub fn new() -> (chunk: Self)
        ensures
            chunk.wf(),
            !chunk.is_dirty(),
            chunk@ == pristine(),
    {
        let chunk = Self {
            blocks: [Block::air(); 4096],
            visible: [true; 4096],
            needs_remesh: false,
            vert_cache: (Vec::new(), Vec::new()),
        };
        assert(chunk@.blocks =~= pristine().blocks);
        assert(chunk@.visible =~= pristine().visible);
        chunk
    }

    /// The block in the cell `(x, y, z)`.
    pub fn get_ref(&self, x: usize, y: usize, z: usize) -> (block: &Block)
        requires
            x < 16,
            y < 16,
            z < 16,
        ensures
            *block == self@.blocks[cell_index(x as int, y as int, z as int)],
    {
        &self.blocks[flat_index(x, y, z)]
    }

    /// Whether the cell `(x, y, z)` is marked visible.
    pub fn is_visible(&self, x: usize, y: usize, z: usize) -> (v: bool)
        requires
            x < 16,
            y < 16,
            z < 16,
        ensures
            v == self@.visible[cell_index(x as int, y as int, z as int)],
    {
        self.visible[flat_index(x, y, z)]
    }

    /// Marks the cell `(x, y, z)` as visible or not.
    pub fn set_visible(&mut self, x: usize, y: usize, z: usize, visible: bool)
        requires
            x < 16,
            y < 16,
            z < 16,
        ensures
            final(self)@.visible == old(self)@.visible.update(
                cell_index(x as int, y as int, z as int),
                visible,
            ),
            final(self)@.blocks == old(self)@.blocks,
            final(self).is_dirty() == old(self).is_dirty(),
            final(self).cached_vertices() == old(self).cached_vertices(),
            final(self).cached_indices() == old(self).cached_indices(),
    {
        let i = flat_index(x, y, z);
        self.visible[i] = visible;
    }

    /// Recomputes the visibility of the cell `(x, y, z)` from its neighbours
    /// and, if the cell holds a transparent block and came out visible, marks
    /// the cells sharing a face with it visible.
    pub fn update_visible(&mut self, x: usize, y: usize, z: usize)
        requires
            x < 16,
            y < 16,
            z < 16,
        ensures
            final(self)@.visible == visibility_after(
                old(self)@.visible,
                x as int,
                y as int,
                z as int,
                old(self)@.blocks[cell_index(x as int, y as int, z as int)].transparent,
            ),
            final(self)@.blocks == old(self)@.blocks,
            final(self).is_dirty() == old(self).is_dirty(),
            final(self).cached_vertices() == old(self).cached_vertices(),
            final(self).cached_indices() == old(self).cached_indices(),
    {
        let is_visible = self.all_neighbors_visible(x, y, z);
        self.set_visible(x, y, z, is_visible);

        if self.get_ref(x, y, z).transparent && is_visible {
            self.show_neighbors(x, y, z);
        }
        proof {
            let after = visibility_after(
                old(self)@.visible,
                x as int,
                y as int,
                z as int,
                old(self)@.blocks[cell_index(x as int, y as int, z as int)].transparent,
            );
            assert forall|i: int| 0 <= i < 4096 implies self@.visible[i] == after[i] by {
                lemma_adjacent_cases(i, x as int, y as int, z as int);
            }
            assert(self@.visible =~= after);
        }
    }

    fn all_neighbors_visible(&self, x: usize, y: usize, z: usize) -> (all: bool)
        requires
            x < 16,
            y < 16,
            z < 16,
        ensures
            all == neighbors_visible(self@.visible, x as int, y as int, z as int),
    {
        let mut is_visible = true;
        if x > 0 {
            is_visible = is_visible && self.is_visible(x - 1, y, z);
        }
        if x < 15 {
            is_visible = is_visible && self.is_visible(x + 1, y, z);
        }
        if y > 0 {
            is_visible = is_visible && self.is_visible(x, y - 1, z);
        }
        if y < 15 {
            is_visible = is_visible && self.is_visible(x, y + 1, z);
        }
        if z > 0 {
            is_visible = is_visible && self.is_visible(x, y, z - 1);
        }
        if z < 15 {
            is_visible = is_visible && self.is_visible(x, y, z + 1);
        }
        is_visible
    }

    fn show_neighbors(&mut self, x: usize, y: usize, z: usize)
        requires
            x < 16,
            y < 16,
            z < 16,
            old(self)@.visible.len() == 4096,
        ensures
            final(self)@.visible == Seq::new(
                4096,
                |i: int|
                    if adjacent(i, x as int, y as int, z as int) {
                        true
                    } else {
                        old(self)@.visible[i]
                    },
            ),
            final(self)@.blocks == old(self)@.blocks,
            final(self).is_dirty() == old(self).is_dirty(),
            final(self).cached_vertices() == old(self).cached_vertices(),
            final(self).cached_indices() == old(self).cached_indices(),
    {
        let ghost before = self@.visible;
        let ghost (xi, yi, zi) = (x as int, y as int, z as int);
        if x > 0 {
            self.set_visible(x - 1, y, z, true);
        }
        if x < 15 {
            self.set_visible(x + 1, y, z, true);
        }
        assert(forall|i: int|
            0 <= i < 4096 ==> self@.visible[i] == (before[i] || (xi > 0 && i == cell_index(
                xi - 1,
                yi,
                zi,
            )) || (xi < 15 && i == cell_index(xi + 1, yi, zi))));
        let ghost after_x = self@.visible;
        if y > 0 {
            self.set_visible(x, y - 1, z, true);
        }
        if y < 15 {
            self.set_visible(x, y + 1, z, true);
        }
        assert(forall|i: int|
            0 <= i < 4096 ==> self@.visible[i] == (after_x[i] || (yi > 0 && i == cell_index(
                xi,
                yi - 1,
                zi,
            )) || (yi < 15 && i == cell_index(xi, yi + 1, zi))));
        let ghost after_y = self@.visible;
        if z > 0 {
            self.set_visible(x, y, z - 1, true);
        }
        if z < 15 {
            self.set_visible(x, y, z + 1, true);
        }
        assert(forall|i: int|
            0 <= i < 4096 ==> self@.visible[i] == (after_y[i] || (zi > 0 && i == cell_index(
                xi,
                yi,
                zi - 1,
            )) || (zi < 15 && i == cell_index(xi, yi, zi + 1))));
        proof {
            let after = Seq::new(
                4096,
                |i: int|
                    if adjacent(i, xi, yi, zi) {
                        true
                    } else {
                        before[i]
                    },
            );
            assert forall|i: int| 0 <= i < 4096 implies self@.visible[i] == after[i] by {
                lemma_adjacent_cases(i, xi, yi, zi);
            }
            assert(self@.visible =~= after);
        }
    }

    /// Whether a block was written since the chunk was created, so that the
    /// next request for the mesh builds it anew.
    pub fn needs_remesh(&self) -> (dirty: bool)
        ensures
            dirty == self.is_dirty(),
    {
        self.needs_remesh
    }

    /// Brings the cached mesh up to date: a chunk that was written is meshed
    /// anew, a chunk that never was keeps its empty mesh.
    pub fn remesh(&mut self, atlas: &TextureAtlas, palette: &BlockRegistry)
        requires
            old(self).wf(),
            old(self).is_dirty() ==> meshable(old(self)@, palette@),
        ensures
            remeshed(*old(self), *final(self), atlas@, palette@),
    {
        proof {
            lemma_mesh_shape(self@, atlas@, palette@, 4096);
        }
        if self.needs_remesh {
            self.vert_cache = greedy(self, atlas, palette);
        } else {
            proof {
                lemma_mesh_without_rendering_cells(self@, atlas@, palette@, 4096);
                assert(self.vert_cache.0@ =~= Seq::<Vertex>::empty());
                assert(self.vert_cache.1@ =~= Seq::<u32>::empty());
            }
        }
    }

    /// A copy of the cached mesh.
    pub fn cached_mesh(&self) -> (mesh: (Vec<Vertex>, Vec<u32>))
        ensures
            mesh.0@ == self.cached_vertices(),
            mesh.1@ == self.cached_indices(),
    {
        let vertices = self.vert_cache.0.clone();
        let indices = self.vert_cache.1.clone();
        assert(vertices@ =~= self.vert_cache.0@);
        assert(indices@ =~= self.vert_cache.1@);
        (vertices, indices)
    }

    /// The mesh of the chunk: vertices and indices, four vertices and six
    /// indices to a quad. The mesh is built anew whenever the chunk was ever
    /// written, and cached.
    pub fn get_mesh(&mut self, atlas: &TextureAtlas, palette: &BlockRegistry) -> (mesh: (
        Vec<Vertex>,
        Vec<u32>,
    ))
        requires
            old(self).wf(),
            old(self).is_dirty() ==> meshable(old(self)@, palette@),
        ensures
            remeshed(*old(self), *final(self), atlas@, palette@),
            mesh.0@ == mesh_vertices(old(self)@, atlas@, palette@),
            mesh.1@ == quad_indices((mesh.0@.len() / 4) as nat),
            mesh.0@.len() % 4 == 0,
            mesh.0@.len() <= 98304,
    {
        self.remesh(atlas, palette);
        self.cached_mesh()
    }

    /// Stores `block` in the cell `(x, y, z)`, updates the visibility bits
    /// around it and marks the chunk for remeshing.
    pub fn set_block(&mut self, x: usize, y: usize, z: usize, block: Block)
        requires
            x < 16,
            y < 16,
            z < 16,
        ensures
            final(self)@ == written(old(self)@, x as int, y as int, z as int, block),
            final(self).is_dirty(),
            final(self).wf(),
            final(self).cached_vertices() == old(self).cached_vertices(),
            final(self).cached_indices() == old(self).cached_indices(),
    {
        let i = flat_index(x, y, z);
        self.blocks[i] = block;
        self.update_visible(x, y, z);
        self.needs_remesh = true;
    }
}

/// A chunk always holds exactly one block and one visibility bit for each of
/// its 4096 cells.
pub proof fn lemma_chunk_density(chunk: Chunk)
    ensures
        chunk@.blocks.len() == 4096,
        chunk@.visible.len() == 4096,
{
}

/// Writing a block never hides a cell of a chunk in which every cell is
/// visible: a chunk that is only ever written keeps every bit set.
pub proof fn lemma_write_keeps_visible(s: ChunkState, x: int, y: int, z: int, block: Block)
    requires
        in_chunk(x, y, z),
        s.visible.len() == 4096,
        forall|i: int| 0 <= i < 4096 ==> s.visible[i],
    ensures
        written(s, x, y, z, block).visible.len() == 4096,
        forall|i: int| 0 <= i < 4096 ==> written(s, x, y, z, block).visible[i],
{
    assert(neighbors_visible(s.visible, x, y, z));
}

/// One write of a block to a cell.
pub struct BlockWrite {
    pub x: int,
    pub y: int,
    pub z: int,
    pub block: Block,
}

/// The state that the first `n` of `writes`, made in order, lead to from
/// `start`.
pub open spec fn replayed(start: ChunkState, writes: Seq<BlockWrite>, n: nat) -> ChunkState
    decreases n,
{
    if n == 0 {
        start
    } else {
        let w = writes[n - 1];
        written(replayed(start, writes, (n - 1) as nat), w.x, w.y, w.z, w.block)
    }
}

/// The visibility bits are a function of the history of writes alone: two
/// chunks that start with the same bits and see writes to the same cells
/// with blocks of the same transparency end with the same bits, whatever
/// else differs between them.
pub proof fn lemma_visibility_from_history(
    a: ChunkState,
    b: ChunkState,
    writes_a: Seq<BlockWrite>,
    writes_b: Seq<BlockWrite>,
    n: nat,
)
    requires
        a.visible == b.visible,
        n <= writes_a.len(),
        n <= writes_b.len(),
        forall|i: int|
            0 <= i < n ==> {
                &&& (#[trigger] writes_a[i]).x == writes_b[i].x
                &&& writes_a[i].y == writes_b[i].y
                &&& writes_a[i].z == writes_b[i].z
                &&& writes_a[i].block.transparent == writes_b[i].block.transparent
            },
    ensures
        replayed(a, writes_a, n).visible == replayed(b, writes_b, n).visible,
    decreases n,
{
    if n > 0 {
        lemma_visibility_from_history(a, b, writes_a, writes_b, (n - 1) as nat);
        assert(writes_a[n - 1].x == writes_b[n - 1].x);
    }
}

/// What bringing the cached mesh of `before` up to date leaves in `after`:
/// the same blocks and visibility bits, and in the cache the mesh of the
/// chunk.
pub open spec fn remeshed(
    before: Chunk,
    after: Chunk,
    atlas: Map<Seq<char>, AtlasTexCoords>,
    registry: Seq<DescriptorModel>,
) -> bool {
    &&& after@ == before@
    &&& after.is_dirty() == before.is_dirty()
    &&& after.wf()
    &&& after.cached_vertices() == mesh_vertices(before@, atlas, registry)
    &&& after.cached_indices() == quad_indices((after.cached_vertices().len() / 4) as nat)
    &&& after.cached_vertices().len() % 4 == 0
    &&& after.cached_vertices().len() <= 98304
    &&& positions_within(after.cached_vertices(), 0, 16)
}

/// A cell shares a face with `(x, y, z)` exactly when its index is that of one
/// of the six neighbouring coordinates inside the chunk.
pub proof fn lemma_adjacent_cases(i: int, x: int, y: int, z: int)
    requires
        0 <= i < 4096,
        in_chunk(x, y, z),
    ensures
        adjacent(i, x, y, z) <==> {
            ||| x > 0 && i == cell_index(x - 1, y, z)
            ||| x < 15 && i == cell_index(x + 1, y, z)
            ||| y > 0 && i == cell_index(x, y - 1, z)
            ||| y < 15 && i == cell_index(x, y + 1, z)
            ||| z > 0 && i == cell_index(x, y, z - 1)
            ||| z < 15 && i == cell_index(x, y, z + 1)
        },
        i == cell_index(x, y, z) ==> !adjacent(i, x, y, z),
{
    lemma_cell_coords_roundtrip(i);
}

} // verus!
