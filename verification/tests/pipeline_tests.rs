use voxel_mesh::aggregate::MeshAggregator;
use voxel_mesh::builder::build;
use voxel_mesh::bundle::{assemble, BindingSet, RenderError, Viewport};
use voxel_mesh::cache::{ChunkMeshCache, ChunkState};
use voxel_mesh::dispatch::{BuildResult, ChunkSnapshot, MeshDispatcher};
use voxel_mesh::mesh::{MeshType, MeshesStructType};
use voxel_mesh::player::{BlockPos, Camera, Player};
use voxel_mesh::texture::TextureID;
use voxel_mesh::world::{Block, ChunkID, ChunkEvents, Dimension, NeighborMask, VoxelChunk};

fn one_voxel(id: u64) -> VoxelChunk {
    VoxelChunk {
        id: ChunkID { id },
        size: 1,
        blocks: vec![Block { mesh: MeshType::cube_all(TextureID { slot: 1 }), light: 1 }],
    }
}

fn open_mask() -> NeighborMask {
    NeighborMask { top: false, bottom: false, left: false, right: false, front: false, back: false }
}

fn closed_mask() -> NeighborMask {
    NeighborMask { top: true, bottom: true, left: true, right: true, front: true, back: true }
}

fn half_mask() -> NeighborMask {
    NeighborMask { top: true, bottom: true, left: true, right: false, front: false, back: false }
}

fn camera_words() -> BindingSet {
    BindingSet { words: vec![0u32; 48] }
}

fn atlas_binding() -> BindingSet {
    BindingSet { words: vec![7] }
}

fn manager() -> MeshesStructType {
    MeshesStructType::new(
        100,
        atlas_binding(),
        camera_words(),
        Dimension { width: 640, height: 480 },
    )
}

#[test]
fn add_chunk_is_idempotent() {
    let mut cache = ChunkMeshCache::new();
    cache.add_chunk(ChunkID { id: 5 });
    cache.add_chunk(ChunkID { id: 5 });
    assert_eq!(cache.len(), 1);
    assert_eq!(cache.entry_at(0).state, ChunkState::Requested);
}

#[test]
fn cache_keeps_entries_in_id_order() {
    let mut cache = ChunkMeshCache::new();
    cache.add_chunk(ChunkID { id: 9 });
    cache.add_chunk(ChunkID { id: 2 });
    cache.add_chunk(ChunkID { id: 5 });
    assert_eq!(cache.len(), 3);
    assert_eq!(cache.entry_at(0).id.id, 2);
    assert_eq!(cache.entry_at(1).id.id, 5);
    assert_eq!(cache.entry_at(2).id.id, 9);
}

#[test]
fn dirty_entries_leave_the_loaded_set() {
    let mut cache = ChunkMeshCache::new();
    let id = ChunkID { id: 1 };
    cache.add_chunk(id);
    let (v, ix) = build(&one_voxel(1), open_mask());
    assert!(cache.ingest_result(id, v, ix));
    assert_eq!(cache.loaded_entries().len(), 1);
    cache.mark_dirty(id);
    assert!(cache.loaded_entries().is_empty());
    assert_eq!(cache.entry_at(0).state, ChunkState::Dirty);
}

#[test]
fn stale_result_after_removal_is_discarded() {
    // Remove chunk A before its first build completes: the arriving result
    // finds no entry, is not applied, and aggregation excludes the chunk.
    let mut cache = ChunkMeshCache::new();
    let id = ChunkID { id: 8 };
    cache.add_chunk(id);
    cache.remv_chunk(id);
    let (v, ix) = build(&one_voxel(8), open_mask());
    let applied = cache.ingest_result(id, v, ix);
    assert!(!applied);
    assert_eq!(cache.len(), 0);
    let mut agg = MeshAggregator::new();
    agg.rebuild_if_dirty(&mut cache);
    assert!(agg.buffer().vertices.is_empty());
    assert!(agg.buffer().spans.is_empty());
}

#[test]
fn duplicate_submission_is_coalesced() {
    let mut cache = ChunkMeshCache::new();
    let mut dispatcher = MeshDispatcher::new();
    let id = ChunkID { id: 3 };
    cache.add_chunk(id);
    let first = dispatcher.submit(
        &cache,
        ChunkSnapshot { chunk: one_voxel(3), neighbors: open_mask() },
    );
    assert!(first.is_some());
    let second = dispatcher.submit(
        &cache,
        ChunkSnapshot { chunk: one_voxel(3), neighbors: open_mask() },
    );
    assert!(second.is_none());
}

#[test]
fn failed_build_is_eligible_for_resubmission() {
    let mut cache = ChunkMeshCache::new();
    let mut dispatcher = MeshDispatcher::new();
    let id = ChunkID { id: 3 };
    cache.add_chunk(id);
    let first = dispatcher.submit(
        &cache,
        ChunkSnapshot { chunk: one_voxel(3), neighbors: open_mask() },
    );
    assert!(first.is_some());
    dispatcher.build_failed(id);
    let retry = dispatcher.submit(
        &cache,
        ChunkSnapshot { chunk: one_voxel(3), neighbors: open_mask() },
    );
    assert!(retry.is_some());
}

#[test]
fn loaded_chunk_gets_no_new_job() {
    let mut cache = ChunkMeshCache::new();
    let mut dispatcher = MeshDispatcher::new();
    let id = ChunkID { id: 4 };
    cache.add_chunk(id);
    let (v, ix) = build(&one_voxel(4), open_mask());
    cache.ingest_result(id, v, ix);
    let job = dispatcher.submit(
        &cache,
        ChunkSnapshot { chunk: one_voxel(4), neighbors: open_mask() },
    );
    assert!(job.is_none());
}

#[test]
fn aggregation_spans_follow_id_order() {
    // Chunk A (id 1) with 3 visible faces, chunk B (id 2) fully occluded:
    // the buffer concatenates A then B, B's span starting right after A's.
    let mut cache = ChunkMeshCache::new();
    let a = ChunkID { id: 1 };
    let b = ChunkID { id: 2 };
    cache.add_chunk(b);
    cache.add_chunk(a);
    let (va, ia) = build(&one_voxel(1), half_mask());
    let (vb, ib) = build(&one_voxel(2), closed_mask());
    assert_eq!(va.len(), 12);
    assert_eq!(vb.len(), 0);
    cache.ingest_result(a, va, ia);
    cache.ingest_result(b, vb, ib);
    let mut agg = MeshAggregator::new();
    agg.rebuild_if_dirty(&mut cache);
    let buffer = agg.buffer();
    assert_eq!(buffer.vertices.len(), 12);
    assert_eq!(buffer.indices.len(), 18);
    assert_eq!(buffer.spans.len(), 2);
    assert_eq!(buffer.spans[0].id.id, 1);
    assert_eq!(buffer.spans[0].vertex_offset, 0);
    assert_eq!(buffer.spans[0].vertex_len, 12);
    assert_eq!(buffer.spans[1].id.id, 2);
    assert_eq!(buffer.spans[1].vertex_offset, 12);
    assert_eq!(buffer.spans[1].vertex_len, 0);
}

#[test]
fn rebuild_reuses_buffer_until_state_changes() {
    let mut cache = ChunkMeshCache::new();
    let id = ChunkID { id: 6 };
    cache.add_chunk(id);
    let (v, ix) = build(&one_voxel(6), open_mask());
    cache.ingest_result(id, v, ix);
    let mut agg = MeshAggregator::new();
    agg.rebuild_if_dirty(&mut cache);
    let g1 = agg.buffer().generation;
    let n1 = agg.buffer().vertices.len();
    agg.rebuild_if_dirty(&mut cache);
    assert_eq!(agg.buffer().generation, g1);
    assert_eq!(agg.buffer().vertices.len(), n1);
    // Loaded -> Dirty -> Loaded forces a fresh buffer.
    cache.mark_dirty(id);
    let (v2, i2) = build(&one_voxel(6), open_mask());
    cache.ingest_result(id, v2, i2);
    agg.rebuild_if_dirty(&mut cache);
    assert_ne!(agg.buffer().generation, g1);
    assert_eq!(agg.buffer().vertices.len(), n1);
}

#[test]
fn assemble_rejects_short_camera_uniform() {
    let agg = MeshAggregator::new();
    let bad = BindingSet { words: vec![0u32; 3] };
    let r = assemble(
        1,
        Viewport { width: 10, height: 10 },
        agg.buffer(),
        &atlas_binding(),
        &bad,
    );
    assert_eq!(r.err(), Some(RenderError::ResourceBindingFailure));
}

#[test]
fn load_chunks_submits_each_chunk_once() {
    // Adding the same chunk twice before its build completes yields exactly
    // one submission and, after the result arrives, one loaded entry.
    let mut m = manager();
    m.add_chunk(ChunkID { id: 1 });
    m.add_chunk(ChunkID { id: 1 });
    let jobs = m.load_chunks(vec![
        ChunkSnapshot { chunk: one_voxel(1), neighbors: open_mask() },
        ChunkSnapshot { chunk: one_voxel(1), neighbors: open_mask() },
    ]);
    assert_eq!(jobs.len(), 1);
    let job = &jobs[0];
    let (v, ix) = build(&job.chunk, job.neighbors);
    let results = vec![BuildResult { id: job.id, vertices: v, indices: ix }];
    let frame = m
        .render(100, Dimension { width: 640, height: 480 }, false, vec![], results)
        .unwrap();
    assert_eq!(frame.cube.buffer.spans.len(), 1);
    assert_eq!(frame.cube.buffer.spans[0].id.id, 1);
    assert_eq!(frame.cube.buffer.vertices.len(), 24);
}

#[test]
fn removal_event_beats_late_result() {
    // End to end: chunk removed while its build is in flight; the stale
    // result in the same frame is discarded and aggregation excludes it.
    let mut m = manager();
    m.add_chunk(ChunkID { id: 9 });
    let jobs = m.load_chunks(vec![ChunkSnapshot { chunk: one_voxel(9), neighbors: open_mask() }]);
    assert_eq!(jobs.len(), 1);
    let (v, ix) = build(&jobs[0].chunk, jobs[0].neighbors);
    let results = vec![BuildResult { id: jobs[0].id, vertices: v, indices: ix }];
    let events = vec![ChunkEvents::ChunkRemoved(ChunkID { id: 9 })];
    let frame = m
        .render(100, Dimension { width: 640, height: 480 }, false, events, results)
        .unwrap();
    assert!(frame.cube.buffer.vertices.is_empty());
    assert!(frame.cube.buffer.spans.is_empty());
}

#[test]
fn update_camera_touches_only_camera_binding() {
    let mut m = manager();
    let mut frame = m
        .render(100, Dimension { width: 640, height: 480 }, false, vec![], vec![])
        .unwrap();
    let generation = frame.cube.buffer.generation;
    let atlas_words = frame.cube.bindings[0].words.clone();
    let new_words: Vec<u32> = (0..48).collect();
    let cam = Camera {
        position: BlockPos { x: 0, y: 64, z: 0 },
        mvp: BindingSet { words: new_words.clone() },
    };
    frame
        .update_camera(&cam, Dimension { width: 640, height: 480 })
        .unwrap();
    assert_eq!(frame.cube.buffer.generation, generation);
    assert_eq!(frame.cube.bindings[0].words, atlas_words);
    assert_eq!(frame.cube.bindings[1].words, new_words);
}

#[test]
fn update_camera_rejects_short_uniform() {
    let mut m = manager();
    let mut frame = m
        .render(100, Dimension { width: 640, height: 480 }, false, vec![], vec![])
        .unwrap();
    let before = frame.cube.bindings[1].words.clone();
    let cam = Camera {
        position: BlockPos { x: 0, y: 0, z: 0 },
        mvp: BindingSet { words: vec![1, 2, 3] },
    };
    let r = frame.update_camera(&cam, Dimension { width: 640, height: 480 });
    assert_eq!(r.err(), Some(RenderError::ResourceBindingFailure));
    assert_eq!(frame.cube.bindings[1].words, before);
}

#[test]
fn render_with_bad_camera_binding_fails_frame() {
    let mut m = MeshesStructType::new(
        100,
        atlas_binding(),
        BindingSet { words: vec![0u32; 5] },
        Dimension { width: 640, height: 480 },
    );
    let r = m.render(100, Dimension { width: 640, height: 480 }, false, vec![], vec![]);
    assert_eq!(r.err(), Some(RenderError::ResourceBindingFailure));
}

#[test]
fn block_update_event_dirties_loaded_chunk() {
    let mut m = manager();
    m.add_chunk(ChunkID { id: 2 });
    let jobs = m.load_chunks(vec![ChunkSnapshot { chunk: one_voxel(2), neighbors: open_mask() }]);
    let (v, ix) = build(&jobs[0].chunk, jobs[0].neighbors);
    let results = vec![BuildResult { id: jobs[0].id, vertices: v, indices: ix }];
    let frame = m
        .render(100, Dimension { width: 640, height: 480 }, false, vec![], results)
        .unwrap();
    assert_eq!(frame.cube.buffer.spans.len(), 1);
    // An edit makes the chunk dirty: it leaves the aggregated set until a
    // remesh arrives.
    let events = vec![ChunkEvents::BlockUpdated(ChunkID { id: 2 })];
    let frame2 = m
        .render(100, Dimension { width: 640, height: 480 }, false, events, vec![])
        .unwrap();
    assert!(frame2.cube.buffer.spans.is_empty());
}

#[test]
fn update_stores_viewport_and_camera() {
    let mut m = manager();
    let words: Vec<u32> = (100..148).collect();
    let player = Player {
        camera: Camera {
            position: BlockPos { x: 1000, y: 64, z: 1000 },
            mvp: BindingSet { words: words.clone() },
        },
    };
    m.update(Dimension { width: 800, height: 600 }, &player);
    let frame = m
        .render(100, Dimension { width: 800, height: 600 }, false, vec![], vec![])
        .unwrap();
    assert_eq!(frame.cube.bindings[1].words, words);
    assert_eq!(frame.cube.viewport, Viewport { width: 800, height: 600 });
}

#[test]
fn rerender_adopts_new_pipeline_handle() {
    let mut m = manager();
    let f1 = m
        .render(200, Dimension { width: 640, height: 480 }, false, vec![], vec![])
        .unwrap();
    // Same dimensions, no forced re-render: the pipeline from construction
    // stays.
    assert_eq!(f1.cube.pipeline, 100);
    let f2 = m
        .render(200, Dimension { width: 640, height: 480 }, true, vec![], vec![])
        .unwrap();
    assert_eq!(f2.cube.pipeline, 200);
    // A resize alone also recreates pipeline-dependent state.
    let f3 = m
        .render(300, Dimension { width: 1024, height: 768 }, false, vec![], vec![])
        .unwrap();
    assert_eq!(f3.cube.pipeline, 300);
    assert_eq!(f3.cube.viewport, Viewport { width: 1024, height: 768 });
}

#[test]
fn frame_duplicate_preserves_contents() {
    let mut m = manager();
    let frame = m
        .render(100, Dimension { width: 640, height: 480 }, false, vec![], vec![])
        .unwrap();
    let copy = frame.duplicate();
    assert_eq!(copy.cube.pipeline, frame.cube.pipeline);
    assert_eq!(copy.cube.viewport, frame.cube.viewport);
    assert_eq!(copy.cube.buffer.generation, frame.cube.buffer.generation);
    assert_eq!(copy.cube.buffer.vertices, frame.cube.buffer.vertices);
    assert_eq!(copy.cube.bindings.len(), frame.cube.bindings.len());
    assert_eq!(copy.cube.bindings[0].words, frame.cube.bindings[0].words);
    assert_eq!(copy.cube.bindings[1].words, frame.cube.bindings[1].words);
}

#[test]
fn chunk_well_formedness_check() {
    assert!(one_voxel(1).check_wf());
    let bad_light = VoxelChunk {
        id: ChunkID { id: 1 },
        size: 1,
        blocks: vec![Block { mesh: MeshType::cube_all(TextureID { slot: 1 }), light: 16 }],
    };
    assert!(!bad_light.check_wf());
    let bad_slot = VoxelChunk {
        id: ChunkID { id: 1 },
        size: 1,
        blocks: vec![Block { mesh: MeshType::cube_all(TextureID { slot: 0x20000 }), light: 0 }],
    };
    assert!(!bad_slot.check_wf());
    let bad_len = VoxelChunk { id: ChunkID { id: 1 }, size: 2, blocks: vec![] };
    assert!(!bad_len.check_wf());
    let bad_size = VoxelChunk { id: ChunkID { id: 1 }, size: 0, blocks: vec![] };
    assert!(!bad_size.check_wf());
}
