//! The vertex record produced by meshing.

use vstd::prelude::*;

verus! {

/// One corner of a quad. Every component is a whole number: `position` is a
/// point of the cell lattice, `texcoord` counts atlas tiles from the atlas
/// origin, and `normals` is one of the six unit axis vectors (or zero before a
/// face is assigned).
#[derive(Copy, Clone, Debug)]
pub struct Vertex {
    pub position: [i128; 3],
    pub texcoord: [u32; 2],
    pub normals: [i8; 3],
}

impl Vertex {
    /// A vertex at `(x, y, z)` with zero texture coordinate and zero normal.
    pub open spec fn spec_from_pos(x: i128, y: i128, z: i128) -> Vertex {
        Vertex { position: [x, y, z], texcoord: [0u32, 0u32], normals: [0i8, 0i8, 0i8] }
    }

    /// A vertex at `(x, y, z)` with zero texture coordinate and zero normal.
    #[verifier::when_used_as_spec(spec_from_pos)]
    pub fn from_pos(x: i128, y: i128, z: i128) -> (v: Vertex)
        ensures
            v == Vertex::spec_from_pos(x, y, z),
    {
        Vertex { position: [x, y, z], texcoord: [0, 0], normals: [0, 0, 0] }
    }

    /// This vertex moved by `(dx, dy, dz)`; texture coordinate and normal stay.
    pub open spec fn spec_translated(self, dx: int, dy: int, dz: int) -> Vertex {
        Vertex {
            position: [
                (self.position[0] + dx) as i128,
                (self.position[1] + dy) as i128,
                (self.position[2] + dz) as i128,
            ],
            texcoord: self.texcoord,
            normals: self.normals,
        }
    }

    /// Moves the vertex by `(dx, dy, dz)`.
    pub fn translated(self, dx: i128, dy: i128, dz: i128) -> (v: Vertex)
        requires
            i128::MIN <= self.position[0] + dx <= i128::MAX,
            i128::MIN <= self.position[1] + dy <= i128::MAX,
            i128::MIN <= self.position[2] + dz <= i128::MAX,
        ensures
            v == self.spec_translated(dx as int, dy as int, dz as int),
    {
        Vertex {
            position: [self.position[0] + dx, self.position[1] + dy, self.position[2] + dz],
            texcoord: self.texcoord,
            normals: self.normals,
        }
    }
}

} // verus!
