//! World generation: which block a generator puts in each cell of a chunk.

use crate::constants::{cell_x, cell_y, cell_z, in_chunk, lemma_cell_coords_roundtrip};
use crate::render::block::{
    block_named, has_name, projects, Block, BlockRegistry, DescriptorModel,
};
use crate::world::chunk::{lemma_write_keeps_visible, pristine, written, ChunkState};
use vstd::prelude::*;

verus! {

/// A strategy that decides the block of each cell of a chunk from the cell's
/// coordinates and the registry alone. A generator written in verified code
/// defines `ready` and `block_at`; one written elsewhere leaves them as they
/// are and is trusted to decide the same block whenever it is asked again.
pub trait WorldGen {
    /// Whether the registry holds what the generator looks up for the cell
    /// `coords`.
    open spec fn ready(&self, coords: (int, int, int), registry: Seq<DescriptorModel>) -> bool {
        true
    }

    /// The block that the generator puts in the cell `coords`.
    open spec fn block_at(&self, coords: (int, int, int), registry: Seq<DescriptorModel>) -> Block {
        arbitrary()
    }

    /// Decides the block of the cell `coords`.
    fn at(&self, coords: (usize, usize, usize), palette: &BlockRegistry) -> (block: Block)
        requires
            in_chunk(coords.0 as int, coords.1 as int, coords.2 as int),
            palette.wf(),
            self.ready((coords.0 as int, coords.1 as int, coords.2 as int), palette@),
        ensures
            block == self.block_at((coords.0 as int, coords.1 as int, coords.2 as int), palette@),
            projects(palette@, block),
    ;
}

/// Whether the registry holds what `generator` looks up for every cell of a
/// chunk.
pub open spec fn ready_for_chunk<G: WorldGen>(
    generator: G,
    registry: Seq<DescriptorModel>,
) -> bool {
    forall|x: int, y: int, z: int|
        in_chunk(x, y, z) ==> #[trigger] generator.ready((x, y, z), registry)
}

/// The chunk after `generator` has filled the first `n` cells in order of
/// flattened index, each through one write.
pub open spec fn generated_upto<G: WorldGen>(
    generator: G,
    registry: Seq<DescriptorModel>,
    n: nat,
) -> ChunkState
    decreases n,
{
    if n == 0 {
        pristine()
    } else {
        let (x, y, z) = (cell_x(n - 1), cell_y(n - 1), cell_z(n - 1));
        written(
            generated_upto(generator, registry, (n - 1) as nat),
            x,
            y,
            z,
            generator.block_at((x, y, z), registry),
        )
    }
}

/// A generated chunk holds a block in each of its 4096 cells and has every
/// cell marked visible.
pub proof fn lemma_generated_visible<G: WorldGen>(
    generator: G,
    registry: Seq<DescriptorModel>,
    n: nat,
)
    requires
        n <= 4096,
    ensures
        generated_upto(generator, registry, n).blocks.len() == 4096,
        generated_upto(generator, registry, n).visible.len() == 4096,
        forall|i: int| 0 <= i < 4096 ==> generated_upto(generator, registry, n).visible[i],
    decreases n,
{
    if n > 0 {
        lemma_generated_visible(generator, registry, (n - 1) as nat);
        lemma_cell_coords_roundtrip(n - 1);
        let (x, y, z) = (cell_x(n - 1), cell_y(n - 1), cell_z(n - 1));
        lemma_write_keeps_visible(
            generated_upto(generator, registry, (n - 1) as nat),
            x,
            y,
            z,
            generator.block_at((x, y, z), registry),
        );
    }
}

/// The square of the distance from the cell `(x, y, z)` to the middle of a
/// chunk, the cell `(8, 8, 8)`.
pub open spec fn center_distance_squared(x: int, y: int, z: int) -> int {
    (x - 8) * (x - 8) + (y - 8) * (y - 8) + (z - 8) * (z - 8)
}

/// Whether the cell `(x, y, z)` lies within `r` of the middle of a chunk.
pub open spec fn spec_in_sphere(x: int, y: int, z: int, r: int) -> bool {
    center_distance_squared(x, y, z) < r * r
}

fn center_offset(c: usize) -> (d: u64)
    ensures
        d == if c >= 8 {
            c - 8
        } else {
            8 - c
        },
        (d as int) * (d as int) == (c - 8) * (c - 8),
{
    let d: u64 = if c >= 8 {
        (c - 8) as u64
    } else {
        (8 - c) as u64
    };
    assert((d as int) * (d as int) == (c - 8) * (c - 8)) by (nonlinear_arith)
        requires
            d == c - 8 || d == 8 - c,
    ;
    d
}

/// Fills a ball around the middle of a chunk: earth inside, grass on top.
pub struct GenBalls;

/// Radius of the ball that `GenBalls` fills.
pub const BALL_RADIUS: u32 = 18;

impl GenBalls {
    /// Whether the cell `(x, y, z)` lies within `r` of the middle of a chunk.
    pub fn in_sphere(x: usize, y: usize, z: usize, r: u32) -> (inside: bool)
        ensures
            inside == spec_in_sphere(x as int, y as int, z as int, r as int),
    {
        let dx = center_offset(x);
        let dy = center_offset(y);
        let dz = center_offset(z);
        let r64: u64 = r as u64;
        if dx >= r64 || dy >= r64 || dz >= r64 {
            proof {
                lemma_outside_on_one_axis(dx as int, dy as int, dz as int, r as int);
            }
            false
        } else {
            proof {
                lemma_square_bound(dx as int, r as int);
                lemma_square_bound(dy as int, r as int);
                lemma_square_bound(dz as int, r as int);
                lemma_square_bound(r as int, 0x1_0000_0000);
            }
            let d2: u128 = (dx * dx) as u128 + (dy * dy) as u128 + (dz * dz) as u128;
            d2 < (r64 * r64) as u128
        }
    }

    /// The name of the block that fills the cell `(x, y, z)`: earth where the
    /// cell above lies in the ball too, grass on the ball's upper surface,
    /// air outside the ball.
    pub open spec fn name_at(x: int, y: int, z: int) -> Seq<char> {
        if spec_in_sphere(x, y, z, BALL_RADIUS as int) {
            if spec_in_sphere(x, y + 1, z, BALL_RADIUS as int) {
                "dirt"@
            } else {
                "grass"@
            }
        } else {
            "air"@
        }
    }
}

proof fn lemma_square_bound(d: int, r: int)
    requires
        0 <= d < r,
    ensures
        0 <= d * d < r * r,
{
    assert(0 <= d * d < r * r) by (nonlinear_arith)
        requires
            0 <= d < r,
    ;
}

proof fn lemma_outside_on_one_axis(dx: int, dy: int, dz: int, r: int)
    requires
        0 <= dx,
        0 <= dy,
        0 <= dz,
        0 <= r,
        dx >= r || dy >= r || dz >= r,
    ensures
        dx * dx + dy * dy + dz * dz >= r * r,
{
    assert(dx * dx + dy * dy + dz * dz >= r * r) by (nonlinear_arith)
        requires
            0 <= dx,
            0 <= dy,
            0 <= dz,
            0 <= r,
            dx >= r || dy >= r || dz >= r,
    ;
}

impl WorldGen for GenBalls {
    open spec fn ready(&self, coords: (int, int, int), registry: Seq<DescriptorModel>) -> bool {
        has_name(registry, GenBalls::name_at(coords.0, coords.1, coords.2))
    }

    open spec fn block_at(&self, coords: (int, int, int), registry: Seq<DescriptorModel>) -> Block {
        block_named(registry, GenBalls::name_at(coords.0, coords.1, coords.2))
    }

    fn at(&self, coords: (usize, usize, usize), palette: &BlockRegistry) -> (block: Block) {
        let (x, y, z) = coords;
        if GenBalls::in_sphere(x, y, z, BALL_RADIUS) {
            if GenBalls::in_sphere(x, y + 1, z, BALL_RADIUS) {
                palette.block("dirt")
            } else {
                palette.block("grass")
            }
        } else {
            palette.block("air")
        }
    }
}

/// Fills every cell with earth.
pub struct GenFullRandom;

impl WorldGen for GenFullRandom {
    open spec fn ready(&self, coords: (int, int, int), registry: Seq<DescriptorModel>) -> bool {
        has_name(registry, "dirt"@)
    }

    open spec fn block_at(&self, coords: (int, int, int), registry: Seq<DescriptorModel>) -> Block {
        block_named(registry, "dirt"@)
    }

    fn at(&self, coords: (usize, usize, usize), palette: &BlockRegistry) -> (block: Block) {
        palette.block("dirt")
    }
}

} // verus!
