//! The player as the mesh pipeline sees it: a camera that supplies the
//! per-frame uniform words and a block-grid position for world-bound
//! updates. Projection and matrix arithmetic happen outside the pipeline;
//! the camera hands in the finished matrices as opaque 32-bit words.

use vstd::prelude::*;
use crate::bundle::BindingSet;

verus! {

/// The camera's place in the voxel grid, in whole blocks.
#[derive(Clone, Copy, Debug, PartialEq, Eq, Structural)]
pub struct BlockPos {
    pub x: i64,
    pub y: i64,
    pub z: i64,
}

/// What the pipeline reads of the camera: its grid position and the
/// camera-derived uniform words (projection, view and world matrices, 16
/// words each).
#[derive(Debug)]
pub struct Camera {
    pub position: BlockPos,
    pub mvp: BindingSet,
}

/// The player, as far as meshing is concerned: the camera it carries.
#[derive(Debug)]
pub struct Player {
    pub camera: Camera,
}

} // verus!
