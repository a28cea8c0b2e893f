//! Chunk-based voxel mesh pipeline: converts chunked voxel data into
//! renderable cube geometry, keeps per-chunk geometry caches synchronized
//! with world edits, and assembles per-frame render bundles.

pub mod world;
pub mod shader;
pub mod texture;
pub mod builder;
pub mod cache;
pub mod aggregate;
pub mod dispatch;
pub mod bundle;
pub mod player;
pub mod mesh;
