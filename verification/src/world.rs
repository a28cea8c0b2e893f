//! World-side data the mesh pipeline consumes: chunk identifiers, viewport
//! dimensions, voxel grids, neighbor visibility, and chunk lifecycle events.

use vstd::prelude::*;
use crate::mesh::MeshType;

verus! {

/// Identifier of one fixed-size cubic region of the voxel world.
/// Totally ordered by its position-derived numeric value.
#[derive(Clone, Copy, Debug, PartialEq, Eq, Structural, Hash)]
pub struct ChunkID {
    pub id: u64,
}

/// Width and height of the viewport, in pixels.
#[derive(Clone, Copy, Debug, PartialEq, Eq, Structural)]
pub struct Dimension {
    pub width: u32,
    pub height: u32,
}

/// One side of an axis-aligned cube.
#[derive(Clone, Copy, Debug, PartialEq, Eq, Structural)]
pub enum Side {
    Top,
    Bottom,
    Left,
    Right,
    Front,
    Back,
}

/// Visibility of the six chunk-boundary faces: a `true` bit means the
/// neighboring chunk occludes that whole boundary face, so no geometry is
/// emitted for voxel faces on that boundary.
#[derive(Clone, Copy, Debug, PartialEq, Eq, Structural)]
pub struct NeighborMask {
    pub top: bool,
    pub bottom: bool,
    pub left: bool,
    pub right: bool,
    pub front: bool,
    pub back: bool,
}

impl NeighborMask {
    /// Whether the boundary face toward `side` is occluded by the neighbor.
    pub open spec fn spec_occluded(self, side: Side) -> bool {
        match side {
            Side::Top => self.top,
            Side::Bottom => self.bottom,
            Side::Left => self.left,
            Side::Right => self.right,
            Side::Front => self.front,
            Side::Back => self.back,
        }
    }

    pub fn occluded(&self, side: Side) -> (r: bool)
        ensures
            r == self.spec_occluded(side),
    {
        match side {
            Side::Top => self.top,
            Side::Bottom => self.bottom,
            Side::Left => self.left,
            Side::Right => self.right,
            Side::Front => self.front,
            Side::Back => self.back,
        }
    }
}

/// One voxel entry: the block's mesh type and its 4-bit lighting value.
#[derive(Clone, Copy, Debug, PartialEq, Eq, Structural)]
pub struct Block {
    pub mesh: MeshType,
    pub light: u8,
}

impl Block {
    /// A well-formed block has a 4-bit light value and a valid mesh type.
    pub open spec fn wf(self) -> bool {
        &&& self.light < 16
        &&& self.mesh.wf()
    }

    /// Decides well-formedness, for callers that receive a block from
    /// outside and must test it before meshing.
    pub fn check_wf(&self) -> (r: bool)
        ensures
            r == self.wf(),
    {
        self.light < 16 && self.mesh.check_wf()
    }

    /// Whether the block fills its cell with cube geometry, occluding the
    /// faces of its neighbors.
    pub open spec fn spec_solid(self) -> bool {
        self.mesh is Cube
    }

    pub fn solid(&self) -> (r: bool)
        ensures
            r == self.spec_solid(),
    {
        match self.mesh {
            MeshType::Cube { .. } => true,
            MeshType::Null => false,
        }
    }
}

/// A dense cubic grid of blocks for one chunk. Element `(x, y, z)` lives at
/// flat position `y * size * size + z * size + x`.
#[derive(Clone, Debug, PartialEq)]
pub struct VoxelChunk {
    pub id: ChunkID,
    pub size: usize,
    pub blocks: Vec<Block>,
}

impl VoxelChunk {
    /// Well-formedness: a nonempty cube of bounded edge length, a block for
    /// every cell, and every block valid.
    pub open spec fn wf(self) -> bool {
        &&& 1 <= self.size <= 64
        &&& self.blocks@.len() == self.size * self.size * self.size
        &&& forall|i: int| 0 <= i < self.blocks@.len() ==> (#[trigger] self.blocks@[i]).wf()
    }

    /// The block at cell `(x, y, z)`.
    pub open spec fn spec_block_at(self, x: int, y: int, z: int) -> Block {
        self.blocks@[y * (self.size as int) * (self.size as int) + z * (self.size as int) + x]
    }

    /// Decides well-formedness, for callers that receive a chunk from the
    /// world source and must test it before handing it to the builder.
    pub fn check_wf(&self) -> (r: bool)
        ensures
            r == self.wf(),
    {
        if self.size < 1 || self.size > 64 {
            return false;
        }
        proof {
            let s = self.size as int;
            assert(s * s <= 64 * 64 && s * s * s <= 64 * 64 * 64) by (nonlinear_arith)
                requires
                    1 <= s <= 64,
            ;
        }
        if self.blocks.len() != self.size * self.size * self.size {
            return false;
        }
        let mut i: usize = 0;
        while i < self.blocks.len()
            invariant
                i <= self.blocks@.len(),
                forall|j: int| 0 <= j < i ==> (#[trigger] self.blocks@[j]).wf(),
            decreases self.blocks@.len() - i,
        {
            if !self.blocks[i].check_wf() {
                return false;
            }
            i += 1;
        }
        true
    }

    pub fn block_at(&self, x: usize, y: usize, z: usize) -> (b: &Block)
        requires
            self.wf(),
            x < self.size,
            y < self.size,
            z < self.size,
        ensures
            *b == self.spec_block_at(x as int, y as int, z as int),
    {
        proof {
            let s = self.size as int;
            assert({
                &&& 0 <= (y as int) * s * s + (z as int) * s + (x as int) < s * s * s
                &&& (y as int) * s <= 64 * 64
                &&& (y as int) * s * s <= 64 * 64 * 64
                &&& (z as int) * s <= 64 * 64
                &&& s * s * s <= 64 * 64 * 64
            }) by (nonlinear_arith)
                requires
                    1 <= s <= 64,
                    0 <= x < s,
                    0 <= y < s,
                    0 <= z < s,
            ;
        }
        &self.blocks[y * self.size * self.size + z * self.size + x]
    }
}

/// A world notification the mesh manager reacts to each frame.
#[derive(Clone, Copy, Debug, PartialEq, Eq, Structural)]
pub enum ChunkEvents {
    /// A chunk entered the visible set and needs meshing.
    ChunkAdded(ChunkID),
    /// A chunk left the visible set; its geometry is evicted.
    ChunkRemoved(ChunkID),
    /// A block or lighting edit made the chunk's cached geometry stale.
    BlockUpdated(ChunkID),
}

} // verus!
