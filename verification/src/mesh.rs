//! Mesh types and the mesh manager facade over the per-family pipelines.
//!
//! [`Cube`] is the one elaborated mesh family: it owns a chunk mesh cache,
//! a work dispatcher, and an aggregator, and routes chunk lifecycle events
//! and the per-frame render call through them. [`Meshes`] is the registry
//! over the (closed) set of families; today it carries the cube family
//! alone.

use vstd::prelude::*;
use crate::texture::TextureID;
use crate::world::{Side, ChunkID, Dimension, ChunkEvents};
use crate::cache::{
    ChunkMeshCache, CacheView, EntryView, spec_add, spec_remove, spec_mark, spec_ingest,
    has_id, has_loaded, has_pending, sorted_entries, lemma_add_of_present,
    lemma_remove_absent_id, lemma_ingest_of_absent, lemma_mark_of_not_loaded,
};
use crate::dispatch::{MeshDispatcher, ChunkSnapshot, BuildJob, BuildResult, ResultView, flight_has};
use crate::aggregate::{MeshAggregator, AggBufferView, buffer_matches};
use crate::bundle::{BindingSet, Viewport, FrameBundle, RenderError, assemble};
use crate::player::{Player, Camera};

verus! {

/// What kind of mesh a block contributes, with its per-side texture slots.
#[derive(Clone, Copy, Debug, PartialEq, Eq, Structural)]
pub enum MeshType {
    /// The block contributes no geometry.
    Null,
    /// An axis-aligned cube with one texture slot per side.
    Cube {
        top: TextureID,
        bottom: TextureID,
        left: TextureID,
        right: TextureID,
        front: TextureID,
        back: TextureID,
    },
}

impl MeshType {
    /// Every texture slot fits the packed attribute word.
    pub open spec fn wf(self) -> bool {
        match self {
            MeshType::Null => true,
            MeshType::Cube { top, bottom, left, right, front, back } => {
                &&& top.wf()
                &&& bottom.wf()
                &&& left.wf()
                &&& right.wf()
                &&& front.wf()
                &&& back.wf()
            },
        }
    }

    /// The texture slot a cube shows toward `side`; `Null` has none.
    pub open spec fn spec_texture_for(self, side: Side) -> TextureID {
        match self {
            MeshType::Null => TextureID { slot: 0 },
            MeshType::Cube { top, bottom, left, right, front, back } => match side {
                Side::Top => top,
                Side::Bottom => bottom,
                Side::Left => left,
                Side::Right => right,
                Side::Front => front,
                Side::Back => back,
            },
        }
    }

    /// Decides well-formedness, for callers that receive a mesh type from
    /// outside and must test it before meshing.
    pub fn check_wf(&self) -> (r: bool)
        ensures
            r == self.wf(),
    {
        match self {
            MeshType::Null => true,
            MeshType::Cube { top, bottom, left, right, front, back } => {
                top.slot < 0x20000 && bottom.slot < 0x20000 && left.slot < 0x20000 && right.slot
                    < 0x20000 && front.slot < 0x20000 && back.slot < 0x20000
            },
        }
    }

    pub fn texture_for(&self, side: Side) -> (t: TextureID)
        ensures
            t == self.spec_texture_for(side),
    {
        match self {
            MeshType::Null => TextureID { slot: 0 },
            MeshType::Cube { top, bottom, left, right, front, back } => match side {
                Side::Top => *top,
                Side::Bottom => *bottom,
                Side::Left => *left,
                Side::Right => *right,
                Side::Front => *front,
                Side::Back => *back,
            },
        }
    }

    /// A cube with the same texture on all six sides.
    pub fn cube_all(name: TextureID) -> (m: Self)
        ensures
            m == (MeshType::Cube {
                top: name,
                bottom: name,
                left: name,
                right: name,
                front: name,
                back: name,
            }),
    {
        MeshType::Cube {
            top: name,
            bottom: name,
            left: name,
            right: name,
            front: name,
            back: name,
        }
    }

    /// A cube textured uniformly with `name`, except the chosen side, which
    /// shows `single`.
    pub fn cube_except_one(name: TextureID, single: TextureID, side: Side) -> (m: Self)
        ensures
            m matches MeshType::Cube { top, bottom, left, right, front, back } && {
                &&& top == (if side == Side::Top { single } else { name })
                &&& bottom == (if side == Side::Bottom { single } else { name })
                &&& left == (if side == Side::Left { single } else { name })
                &&& right == (if side == Side::Right { single } else { name })
                &&& front == (if side == Side::Front { single } else { name })
                &&& back == (if side == Side::Back { single } else { name })
            },
    {
        MeshType::Cube {
            top: if let Side::Top = side { single } else { name },
            bottom: if let Side::Bottom = side { single } else { name },
            left: if let Side::Left = side { single } else { name },
            right: if let Side::Right = side { single } else { name },
            front: if let Side::Front = side { single } else { name },
            back: if let Side::Back = side { single } else { name },
        }
    }

    /// A cube with one texture chosen per side.
    pub fn cube_individual(
        top: TextureID,
        bottom: TextureID,
        left: TextureID,
        right: TextureID,
        front: TextureID,
        back: TextureID,
    ) -> (m: Self)
        ensures
            m == (MeshType::Cube { top, bottom, left, right, front, back }),
    {
        MeshType::Cube { top, bottom, left, right, front, back }
    }
}

/// The cache after one world event: an added chunk gets a `Requested`
/// entry, a removed chunk is purged, an edited chunk's geometry goes
/// stale.
pub open spec fn spec_apply_event(c: CacheView, e: ChunkEvents) -> CacheView {
    match e {
        ChunkEvents::ChunkAdded(id) => CacheView {
            entries: spec_add(c.entries, id.id),
            changed: c.changed || !has_id(c.entries, id.id),
        },
        ChunkEvents::ChunkRemoved(id) => CacheView {
            entries: spec_remove(c.entries, id.id),
            changed: c.changed || has_id(c.entries, id.id),
        },
        ChunkEvents::BlockUpdated(id) => CacheView {
            entries: spec_mark(c.entries, id.id),
            changed: c.changed || has_loaded(c.entries, id.id),
        },
    }
}

/// The cache after the events from position `k` on, applied in order.
pub open spec fn spec_apply_events(c: CacheView, evs: Seq<ChunkEvents>, k: int) -> CacheView
    decreases evs.len() - k,
{
    if k < 0 || k >= evs.len() {
        c
    } else {
        spec_apply_events(spec_apply_event(c, evs[k]), evs, k + 1)
    }
}

/// The cache after one drained build result is ingested.
pub open spec fn spec_apply_result(c: CacheView, r: ResultView) -> CacheView {
    CacheView {
        entries: spec_ingest(c.entries, r.id, r.vertices, r.indices),
        changed: c.changed || has_pending(c.entries, r.id),
    }
}

/// The cache after the drained results from position `k` on, in order.
pub open spec fn spec_apply_results(c: CacheView, rs: Seq<ResultView>, k: int) -> CacheView
    decreases rs.len() - k,
{
    if k < 0 || k >= rs.len() {
        c
    } else {
        spec_apply_results(spec_apply_result(c, rs[k]), rs, k + 1)
    }
}

/// The chunk identifiers of a snapshot batch, in order.
pub open spec fn snap_ids(chunks: Seq<ChunkSnapshot>) -> Seq<u64> {
    chunks.map_values(|c: ChunkSnapshot| c.chunk.id.id)
}

/// Whether `job` is exactly the build job for snapshot `i` of the batch.
pub open spec fn job_matches(job: BuildJob, snaps: Seq<ChunkSnapshot>, i: int) -> bool {
    &&& 0 <= i < snaps.len()
    &&& job.id == snaps[i].chunk.id
    &&& job.chunk == snaps[i].chunk
    &&& job.neighbors == snaps[i].neighbors
}

/// Bulk loading from position `k` on: each snapshot's chunk is entered in
/// the cache, and a build is submitted exactly when the chunk awaits
/// geometry and no build for it is in flight. Yields the cache, the
/// in-flight set, and the positions of the snapshots that got a job.
pub open spec fn spec_load(
    c: CacheView,
    flight: Seq<u64>,
    ids: Seq<u64>,
    k: int,
) -> (CacheView, Seq<u64>, Seq<int>)
    decreases ids.len() - k,
{
    if k < 0 || k >= ids.len() {
        (c, flight, Seq::empty())
    } else {
        let c1 = spec_apply_event(c, ChunkEvents::ChunkAdded(ChunkID { id: ids[k] }));
        if has_pending(c1.entries, ids[k]) && !flight_has(flight, ids[k]) {
            let rest = spec_load(c1, flight.push(ids[k]), ids, k + 1);
            (rest.0, rest.1, seq![k] + rest.2)
        } else {
            let rest = spec_load(c1, flight, ids, k + 1);
            (rest.0, rest.1, rest.2)
        }
    }
}

/// Applying one event keeps the cache ordered and keeps the aggregator's
/// buffer in agreement: either the flag is raised, or the entries did not
/// change at all.
proof fn lemma_event_preserves_sync(agg: MeshAggregator, pre: CacheView, e: ChunkEvents)
    requires
        sorted_entries(pre.entries),
        agg.synced(pre),
    ensures
        agg.synced(spec_apply_event(pre, e)),
        sorted_entries(spec_apply_event(pre, e).entries),
{
    let post = spec_apply_event(pre, e);
    match e {
        ChunkEvents::ChunkAdded(id) => {
            crate::cache::lemma_add_sorted_and_present(pre.entries, id.id);
            if !post.changed {
                lemma_add_of_present(pre.entries, id.id);
            }
        },
        ChunkEvents::ChunkRemoved(id) => {
            crate::cache::lemma_remove_absent_after(pre.entries, id.id);
            if !post.changed {
                lemma_remove_absent_id(pre.entries, id.id);
            }
        },
        ChunkEvents::BlockUpdated(id) => {
            crate::cache::lemma_mark_sorted(pre.entries, id.id);
            if !post.changed {
                lemma_mark_of_not_loaded(pre.entries, id.id);
            }
        },
    }
}

/// Ingesting one drained result keeps the cache ordered and keeps the
/// aggregator's buffer in agreement.
proof fn lemma_result_preserves_sync(agg: MeshAggregator, pre: CacheView, r: ResultView)
    requires
        sorted_entries(pre.entries),
        agg.synced(pre),
    ensures
        agg.synced(spec_apply_result(pre, r)),
        sorted_entries(spec_apply_result(pre, r).entries),
{
    crate::cache::lemma_ingest_sorted(pre.entries, r.id, r.vertices, r.indices);
    let post = spec_apply_result(pre, r);
    if !post.changed {
        lemma_ingest_of_absent(pre.entries, r.id, r.vertices, r.indices);
    }
}

/// No two of the handed-out jobs name the same chunk, every job's
/// snapshot position is in range, and none names a chunk whose build was
/// already in flight.
pub open spec fn jobs_distinct(flight: Seq<u64>, ids: Seq<int>, lo: int, all: Seq<u64>) -> bool {
    &&& forall|a: int, b: int| 0 <= a < b < ids.len() ==> all[#[trigger] ids[a]] != all[#[trigger] ids[b]]
    &&& forall|a: int| 0 <= a < ids.len() ==> lo <= #[trigger] ids[a] < all.len()
        && !flight_has(flight, all[ids[a]])
}

/// At most one build submission per chunk in a batch: however often a
/// chunk identifier occurs among the snapshots (and whatever the cache
/// holds for it), bulk loading hands out no two jobs for the same
/// identifier, and none for an identifier whose build is already in
/// flight.
pub proof fn lemma_batch_single_submission(c: CacheView, flight: Seq<u64>, ids: Seq<u64>, k: int)
    ensures
        jobs_distinct(flight, spec_load(c, flight, ids, k).2, k, ids),
    decreases ids.len() - k,
{
    if 0 <= k < ids.len() {
        let c1 = spec_apply_event(c, ChunkEvents::ChunkAdded(ChunkID { id: ids[k] }));
        let j = spec_load(c, flight, ids, k).2;
        if has_pending(c1.entries, ids[k]) && !flight_has(flight, ids[k]) {
            let f1 = flight.push(ids[k]);
            lemma_batch_single_submission(c1, f1, ids, k + 1);
            let rest = spec_load(c1, f1, ids, k + 1).2;
            assert(j == seq![k] + rest);
            assert(jobs_distinct(f1, rest, k + 1, ids));
            assert(flight_has(f1, ids[k])) by {
                assert(f1[flight.len() as int] == ids[k]);
            }
            assert forall|a: int| 0 <= a < j.len() implies k <= #[trigger] j[a] < ids.len()
                && !flight_has(flight, ids[j[a]]) by {
                if a == 0 {
                    assert(j[0] == k);
                } else {
                    assert(j[a] == rest[a - 1]);
                    assert(!flight_has(f1, ids[rest[a - 1]]));
                    if flight_has(flight, ids[rest[a - 1]]) {
                        let w = choose|w: int|
                            0 <= w < flight.len() && #[trigger] flight[w] == ids[rest[a - 1]];
                        assert(f1[w] == ids[rest[a - 1]]);
                    }
                }
            }
            assert forall|a: int, b: int| 0 <= a < b < j.len() implies ids[#[trigger] j[a]] != ids[
                #[trigger] j[b]
            ] by {
                if a == 0 {
                    assert(j[0] == k);
                    assert(j[b] == rest[b - 1]);
                    assert(!flight_has(f1, ids[rest[b - 1]]));
                } else {
                    assert(j[a] == rest[a - 1] && j[b] == rest[b - 1]);
                }
            }
            assert(jobs_distinct(flight, j, k, ids));
        } else {
            lemma_batch_single_submission(c1, flight, ids, k + 1);
            assert(jobs_distinct(flight, spec_load(c, flight, ids, k).2, k, ids));
        }
    }
}

/// Mathematical model of the cube mesh family's whole state.
pub ghost struct CubeView {
    pub cache: CacheView,
    pub in_flight: Seq<u64>,
    pub buffer: AggBufferView,
    pub pipeline: u64,
    pub viewport: Viewport,
    pub texture_binding: Seq<u32>,
    pub camera_binding: Seq<u32>,
}

/// The cube mesh family: cache, dispatcher and aggregator for axis-aligned
/// cube geometry, plus the pipeline handle, viewport state and binding
/// words the per-frame bundle is assembled from.
pub struct Cube {
    cache: ChunkMeshCache,
    dispatcher: MeshDispatcher,
    aggregator: MeshAggregator,
    pipeline: u64,
    viewport: Viewport,
    texture_binding: BindingSet,
    camera_binding: BindingSet,
}

impl View for Cube {
    type V = CubeView;

    closed spec fn view(&self) -> CubeView {
        CubeView {
            cache: self.cache@,
            in_flight: self.dispatcher@,
            buffer: self.aggregator@,
            pipeline: self.pipeline,
            viewport: self.viewport,
            texture_binding: self.texture_binding@,
            camera_binding: self.camera_binding@,
        }
    }
}

impl Cube {
    /// Internal consistency: the cache is ordered, no build is in flight
    /// twice, and the aggregated buffer agrees with the cache whenever the
    /// cache reports no pending change.
    pub closed spec fn wf(self) -> bool {
        &&& self.cache.wf()
        &&& self.dispatcher.wf()
        &&& self.aggregator.synced(self.cache@)
    }

    /// A fresh cube family with no chunks, nothing in flight, and an empty
    /// buffer, bound to the given pipeline, atlas binding and viewport.
    pub fn new(
        pipeline: u64,
        texture_binding: BindingSet,
        camera_binding: BindingSet,
        dimensions: Dimension,
    ) -> (c: Cube)
        ensures
            c@.cache.entries == Seq::<EntryView>::empty(),
            c@.cache.changed == false,
            c@.in_flight == Seq::<u64>::empty(),
            c@.buffer.generation == 0,
            c@.buffer.vertices == Seq::<crate::shader::CubeVert>::empty(),
            c@.buffer.indices == Seq::<u32>::empty(),
            c@.buffer.spans.len() == 0,
            c@.pipeline == pipeline,
            c@.viewport == (Viewport { width: dimensions.width, height: dimensions.height }),
            c@.texture_binding == texture_binding@,
            c@.camera_binding == camera_binding@,
            c.wf(),
    {
        let c = Cube {
            cache: ChunkMeshCache::new(),
            dispatcher: MeshDispatcher::new(),
            aggregator: MeshAggregator::new(),
            pipeline,
            viewport: Viewport { width: dimensions.width, height: dimensions.height },
            texture_binding,
            camera_binding,
        };
        c
    }

    /// Enters the chunk in the cache as `Requested`; adding a chunk that is
    /// already present, in any state, changes nothing.
    pub fn add_chunk(&mut self, chunk_id: ChunkID)
        requires
            old(self).wf(),
        ensures
            final(self)@ == (CubeView {
                cache: spec_apply_event(old(self)@.cache, ChunkEvents::ChunkAdded(chunk_id)),
                ..old(self)@
            }),
            final(self).wf(),
    {
        proof {
            lemma_event_preserves_sync(
                self.aggregator,
                self.cache@,
                ChunkEvents::ChunkAdded(chunk_id),
            );
        }
        self.cache.add_chunk(chunk_id);
    }

    /// Removes the chunk outright, whatever its state; an in-flight build
    /// result for it will be discarded when it arrives.
    pub fn remv_chunk(&mut self, id: ChunkID)
        requires
            old(self).wf(),
        ensures
            final(self)@ == (CubeView {
                cache: spec_apply_event(old(self)@.cache, ChunkEvents::ChunkRemoved(id)),
                ..old(self)@
            }),
            final(self).wf(),
    {
        proof {
            lemma_event_preserves_sync(
                self.aggregator,
                self.cache@,
                ChunkEvents::ChunkRemoved(id),
            );
        }
        self.cache.remv_chunk(id);
    }

    /// Marks the chunk's cached geometry stale after an edit; it leaves the
    /// aggregated set until a remesh is ingested.
    pub fn updt_chunks(&mut self, id: ChunkID)
        requires
            old(self).wf(),
        ensures
            final(self)@ == (CubeView {
                cache: spec_apply_event(old(self)@.cache, ChunkEvents::BlockUpdated(id)),
                ..old(self)@
            }),
            final(self).wf(),
    {
        proof {
            lemma_event_preserves_sync(
                self.aggregator,
                self.cache@,
                ChunkEvents::BlockUpdated(id),
            );
        }
        self.cache.mark_dirty(id);
    }

    /// Bulk ingestion feeding the dispatcher: every snapshot's chunk is
    /// entered in the cache, and one build job is handed out per chunk that
    /// awaits geometry and has no build outstanding, in snapshot order.
    /// Chunks already in flight are coalesced, and chunks with current
    /// geometry get no job.
    pub fn load_chunks(&mut self, chunks: Vec<ChunkSnapshot>) -> (r: Vec<BuildJob>)
        requires
            old(self).wf(),
        ensures
            final(self)@ == (CubeView {
                cache: spec_load(old(self)@.cache, old(self)@.in_flight, snap_ids(chunks@), 0).0,
                in_flight: spec_load(
                    old(self)@.cache,
                    old(self)@.in_flight,
                    snap_ids(chunks@),
                    0,
                ).1,
                ..old(self)@
            }),
            r@.len() == spec_load(
                old(self)@.cache,
                old(self)@.in_flight,
                snap_ids(chunks@),
                0,
            ).2.len(),
            forall|j: int|
                #![trigger r@[j]]
                0 <= j < r@.len() ==> job_matches(
                    r@[j],
                    chunks@,
                    spec_load(old(self)@.cache, old(self)@.in_flight, snap_ids(chunks@), 0).2[j],
                ),
            final(self).wf(),
    {
        let ghost orig = chunks@;
        let ghost ids = snap_ids(orig);
        let ghost c0 = self.cache@;
        let ghost f0 = self.dispatcher@;
        let ghost target = spec_load(c0, f0, ids, 0);
        let total = chunks.len();
        let mut chunks = chunks;
        let mut r: Vec<BuildJob> = Vec::new();
        let ghost mut emitted: Seq<int> = Seq::empty();
        let mut k: usize = 0;
        proof {
            assert(emitted + target.2 =~= target.2);
        }
        while chunks.len() > 0
            invariant
                self.wf(),
                total == orig.len(),
                k + chunks@.len() == orig.len(),
                chunks@ == orig.skip(k as int),
                ids == snap_ids(orig),
                spec_load(self.cache@, self.dispatcher@, ids, k as int).0 == target.0,
                spec_load(self.cache@, self.dispatcher@, ids, k as int).1 == target.1,
                emitted + spec_load(self.cache@, self.dispatcher@, ids, k as int).2 == target.2,
                r@.len() == emitted.len(),
                forall|j: int|
                    #![trigger r@[j]]
                    0 <= j < r@.len() ==> job_matches(r@[j], orig, emitted[j]),
                self.aggregator@ == old(self)@.buffer,
                self.pipeline == old(self)@.pipeline,
                self.viewport == old(self)@.viewport,
                self.texture_binding@ == old(self)@.texture_binding,
                self.camera_binding@ == old(self)@.camera_binding,
            decreases chunks@.len(),
        {
            let snap = chunks.remove(0);
            proof {
                assert(k < orig.len());
                assert(snap == orig[k as int]);
                assert(chunks@ =~= orig.skip(k as int + 1));
                assert(ids[k as int] == snap.chunk.id.id);
            }
            let ghost c_pre = self.cache@;
            let ghost f_pre = self.dispatcher@;
            proof {
                lemma_event_preserves_sync(
                    self.aggregator,
                    self.cache@,
                    ChunkEvents::ChunkAdded(snap.chunk.id),
                );
            }
            self.cache.add_chunk(snap.chunk.id);
            let ghost c1 = self.cache@;
            let job = self.dispatcher.submit(&self.cache, snap);
            proof {
                assert(c1 == spec_apply_event(c_pre, ChunkEvents::ChunkAdded(ChunkID { id: ids[k as int] })));
            }
            match job {
                Some(job) => {
                    let ghost gjob = job;
                    let ghost pre_r = r@;
                    let ghost pre_emitted = emitted;
                    r.push(job);
                    proof {
                        emitted = emitted.push(k as int);
                        let rest = spec_load(c1, f_pre.push(ids[k as int]), ids, k as int + 1);
                        assert(spec_load(c_pre, f_pre, ids, k as int).2 == seq![k as int] + rest.2);
                        assert(emitted + rest.2 =~= pre_emitted + (seq![k as int] + rest.2));
                        assert forall|j: int|
                            #![trigger r@[j]]
                            0 <= j < r@.len() implies job_matches(r@[j], orig, emitted[j]) by {
                            if j < r@.len() - 1 {
                                assert(r@[j] == pre_r[j]);
                                assert(emitted[j] == pre_emitted[j]);
                                assert(job_matches(pre_r[j], orig, pre_emitted[j]));
                            } else {
                                assert(r@[j] == gjob);
                                assert(emitted[j] == k as int);
                                assert(gjob.chunk == orig[k as int].chunk);
                                assert(job_matches(gjob, orig, k as int));
                            }
                        }
                    }
                },
                None => {
                    proof {
                        let rest = spec_load(c1, f_pre, ids, k as int + 1);
                        assert(spec_load(c_pre, f_pre, ids, k as int).2 == rest.2);
                    }
                },
            }
            k += 1;
        }
        proof {
            assert(k == orig.len());
            assert(spec_load(self.cache@, self.dispatcher@, ids, k as int).0 == self.cache@);
            assert(emitted + Seq::<int>::empty() =~= emitted);
            assert(emitted == target.2);
        }
        r
    }

    /// Updates world-bound state: the viewport the next frame is composed
    /// for, and the camera uniform words derived from the player's camera.
    pub fn updt_world(&mut self, dimensions: Dimension, player: &Player)
        requires
            old(self).wf(),
        ensures
            final(self)@ == (CubeView {
                viewport: Viewport { width: dimensions.width, height: dimensions.height },
                camera_binding: player.camera.mvp@,
                ..old(self)@
            }),
            final(self).wf(),
    {
        self.viewport = Viewport { width: dimensions.width, height: dimensions.height };
        self.camera_binding = player.camera.mvp.duplicate();
    }

    /// The per-frame call. Applies the frame's world events to the cache,
    /// then ingests the drained build results (a result for a chunk removed
    /// meanwhile is discarded, and its build leaves the in-flight set),
    /// re-aggregates only if the loaded geometry changed, adopts the handed
    /// pipeline when a re-render is forced or the viewport dimensions
    /// changed, and composes the frame bundle. Fails exactly when the
    /// camera uniform is malformed, leaving the frame to be skipped.
    pub fn render(
        &mut self,
        pipeline: u64,
        dimensions: Dimension,
        rerender: bool,
        chunk_events: Vec<ChunkEvents>,
        results: Vec<BuildResult>,
    ) -> (r: Result<FrameBundle, RenderError>)
        requires
            old(self).wf(),
        ensures
            final(self).wf(),
            final(self)@.cache.entries == spec_apply_results(
                spec_apply_events(old(self)@.cache, chunk_events@, 0),
                results@.map_values(|b: BuildResult| b@),
                0,
            ).entries,
            final(self)@.cache.changed == false,
            buffer_matches(final(self)@.buffer, final(self)@.cache.entries),
            !spec_apply_results(
                spec_apply_events(old(self)@.cache, chunk_events@, 0),
                results@.map_values(|b: BuildResult| b@),
                0,
            ).changed ==> final(self)@.buffer == old(self)@.buffer,
            spec_apply_results(
                spec_apply_events(old(self)@.cache, chunk_events@, 0),
                results@.map_values(|b: BuildResult| b@),
                0,
            ).changed ==> final(self)@.buffer.generation != old(self)@.buffer.generation,
            forall|x: u64|
                flight_has(final(self)@.in_flight, x) ==> flight_has(old(self)@.in_flight, x),
            final(self)@.pipeline == (if rerender || dimensions.width != old(
                self,
            )@.viewport.width || dimensions.height != old(self)@.viewport.height {
                pipeline
            } else {
                old(self)@.pipeline
            }),
            final(self)@.viewport == (Viewport { width: dimensions.width, height: dimensions.height }),
            final(self)@.texture_binding == old(self)@.texture_binding,
            final(self)@.camera_binding == old(self)@.camera_binding,
            match r {
                Ok(b) => {
                    &&& old(self)@.camera_binding.len() == crate::bundle::CAMERA_UNIFORM_WORDS
                    &&& b@.pipeline == final(self)@.pipeline
                    &&& b@.viewport == final(self)@.viewport
                    &&& b@.buffer == final(self)@.buffer
                    &&& b@.bindings == seq![
                        old(self)@.texture_binding,
                        old(self)@.camera_binding,
                    ]
                    &&& b.wf()
                },
                Err(e) => {
                    &&& e == RenderError::ResourceBindingFailure
                    &&& old(self)@.camera_binding.len() != crate::bundle::CAMERA_UNIFORM_WORDS
                },
            },
    {
        let ghost c0 = self.cache@;
        let ghost evs = chunk_events@;
        let ghost c_mid = spec_apply_events(c0, evs, 0);
        let mut k: usize = 0;
        while k < chunk_events.len()
            invariant
                self.wf(),
                k <= evs.len(),
                evs == chunk_events@,
                spec_apply_events(self.cache@, evs, k as int) == c_mid,
                self.dispatcher@ == old(self)@.in_flight,
                self.aggregator@ == old(self)@.buffer,
                self.pipeline == old(self)@.pipeline,
                self.viewport == old(self)@.viewport,
                self.texture_binding@ == old(self)@.texture_binding,
                self.camera_binding@ == old(self)@.camera_binding,
            decreases evs.len() - k,
        {
            let ghost c_pre = self.cache@;
            proof {
                lemma_event_preserves_sync(self.aggregator, self.cache@, evs[k as int]);
            }
            match chunk_events[k] {
                ChunkEvents::ChunkAdded(id) => {
                    self.cache.add_chunk(id);
                },
                ChunkEvents::ChunkRemoved(id) => {
                    self.cache.remv_chunk(id);
                },
                ChunkEvents::BlockUpdated(id) => {
                    self.cache.mark_dirty(id);
                },
            }
            proof {
                assert(self.cache@ == spec_apply_event(c_pre, evs[k as int]));
            }
            k += 1;
        }
        let ghost rs = results@.map_values(|b: BuildResult| b@);
        let ghost c_end = spec_apply_results(c_mid, rs, 0);
        proof {
            assert(self.cache@ == c_mid);
        }
        let total = results.len();
        let mut results = results;
        let mut n: usize = 0;
        while results.len() > 0
            invariant
                self.wf(),
                total == rs.len(),
                n + results@.len() == rs.len(),
                results@.map_values(|b: BuildResult| b@) == rs.skip(n as int),
                spec_apply_results(self.cache@, rs, n as int) == c_end,
                forall|x: u64|
                    flight_has(self.dispatcher@, x) ==> flight_has(old(self)@.in_flight, x),
                self.aggregator@ == old(self)@.buffer,
                self.pipeline == old(self)@.pipeline,
                self.viewport == old(self)@.viewport,
                self.texture_binding@ == old(self)@.texture_binding,
                self.camera_binding@ == old(self)@.camera_binding,
            decreases results@.len(),
        {
            let ghost c_pre = self.cache@;
            let ghost f_pre = self.dispatcher@;
            let ghost pre_results = results@;
            let result = results.remove(0);
            proof {
                assert(n < rs.len());
                assert(pre_results.map_values(|b: BuildResult| b@) == rs.skip(n as int));
                assert(result@ == rs.skip(n as int)[0]);
                assert(result@ == rs[n as int]);
                assert(results@.map_values(|b: BuildResult| b@) =~= rs.skip(n as int + 1)) by {
                    assert forall|j: int|
                        #![trigger results@[j]]
                        0 <= j < results@.len() implies results@.map_values(|b: BuildResult| b@)[j]
                        == rs.skip(n as int + 1)[j] by {
                        assert(results@[j] == pre_results[j + 1]);
                        assert(pre_results.map_values(|b: BuildResult| b@)[j + 1] == rs.skip(
                            n as int,
                        )[j + 1]);
                    }
                }
                lemma_result_preserves_sync(self.aggregator, self.cache@, rs[n as int]);
            }
            self.dispatcher.complete(result.id);
            proof {
                assert forall|x: u64|
                    flight_has(self.dispatcher@, x) implies flight_has(
                    old(self)@.in_flight,
                    x,
                ) by {
                    if x != result@.id {
                        assert(flight_has(f_pre, x));
                    }
                }
            }
            self.cache.ingest_result(result.id, result.vertices, result.indices);
            proof {
                assert(self.cache@ == spec_apply_result(c_pre, rs[n as int]));
            }
            n += 1;
        }
        proof {
            assert(n == rs.len());
            assert(self.cache@ == c_end);
        }
        if rerender || dimensions.width != self.viewport.width || dimensions.height
            != self.viewport.height {
            self.pipeline = pipeline;
        }
        self.viewport = Viewport { width: dimensions.width, height: dimensions.height };
        self.aggregator.rebuild_if_dirty(&mut self.cache);
        assemble(
            self.pipeline,
            self.viewport,
            self.aggregator.buffer(),
            &self.texture_binding,
            &self.camera_binding,
        )
    }
}

/// The registry over the closed set of mesh families. The cube family is
/// the one elaborated here; further families join as further fields behind
/// the same lifecycle and render calls.
#[derive(Debug)]
pub struct Meshes<C> {
    pub cube: C,
}

/// The mesh manager as the world drives it: one live pipeline per family.
pub type MeshesStructType = Meshes<Cube>;

/// The per-frame render data handed to the presentation layer: one frame
/// bundle per family.
pub type MeshesDataType = Meshes<FrameBundle>;

impl MeshesStructType {
    /// A mesh manager with a fresh cube family.
    pub fn new(
        pipeline: u64,
        texture_binding: BindingSet,
        camera_binding: BindingSet,
        dimensions: Dimension,
    ) -> (m: MeshesStructType)
        ensures
            m.cube@.cache.entries == Seq::<EntryView>::empty(),
            m.cube@.cache.changed == false,
            m.cube@.in_flight == Seq::<u64>::empty(),
            m.cube@.buffer.generation == 0,
            m.cube@.buffer.vertices == Seq::<crate::shader::CubeVert>::empty(),
            m.cube@.buffer.indices == Seq::<u32>::empty(),
            m.cube@.buffer.spans.len() == 0,
            m.cube@.pipeline == pipeline,
            m.cube@.viewport == (Viewport { width: dimensions.width, height: dimensions.height }),
            m.cube@.texture_binding == texture_binding@,
            m.cube@.camera_binding == camera_binding@,
            m.cube.wf(),
    {
        Meshes { cube: Cube::new(pipeline, texture_binding, camera_binding, dimensions) }
    }

    /// Routes a chunk addition to every family.
    pub fn add_chunk(&mut self, chunk_id: ChunkID)
        requires
            old(self).cube.wf(),
        ensures
            final(self).cube@ == (CubeView {
                cache: spec_apply_event(
                    old(self).cube@.cache,
                    ChunkEvents::ChunkAdded(chunk_id),
                ),
                ..old(self).cube@
            }),
            final(self).cube.wf(),
    {
        self.cube.add_chunk(chunk_id);
    }

    /// Routes bulk chunk loading to every family, collecting the build jobs
    /// to hand to the worker pool.
    pub fn load_chunks(&mut self, chunks: Vec<ChunkSnapshot>) -> (r: Vec<BuildJob>)
        requires
            old(self).cube.wf(),
        ensures
            final(self).cube@ == (CubeView {
                cache: spec_load(
                    old(self).cube@.cache,
                    old(self).cube@.in_flight,
                    snap_ids(chunks@),
                    0,
                ).0,
                in_flight: spec_load(
                    old(self).cube@.cache,
                    old(self).cube@.in_flight,
                    snap_ids(chunks@),
                    0,
                ).1,
                ..old(self).cube@
            }),
            r@.len() == spec_load(
                old(self).cube@.cache,
                old(self).cube@.in_flight,
                snap_ids(chunks@),
                0,
            ).2.len(),
            forall|j: int|
                #![trigger r@[j]]
                0 <= j < r@.len() ==> job_matches(
                    r@[j],
                    chunks@,
                    spec_load(
                        old(self).cube@.cache,
                        old(self).cube@.in_flight,
                        snap_ids(chunks@),
                        0,
                    ).2[j],
                ),
            final(self).cube.wf(),
    {
        self.cube.load_chunks(chunks)
    }

    /// Routes a chunk removal to every family.
    pub fn remv_chunk(&mut self, id: ChunkID)
        requires
            old(self).cube.wf(),
        ensures
            final(self).cube@ == (CubeView {
                cache: spec_apply_event(old(self).cube@.cache, ChunkEvents::ChunkRemoved(id)),
                ..old(self).cube@
            }),
            final(self).cube.wf(),
    {
        self.cube.remv_chunk(id);
    }

    /// Updates world-bound state (viewport and player camera) in every
    /// family.
    pub fn update(&mut self, dimensions: Dimension, player: &Player)
        requires
            old(self).cube.wf(),
        ensures
            final(self).cube@ == (CubeView {
                viewport: Viewport { width: dimensions.width, height: dimensions.height },
                camera_binding: player.camera.mvp@,
                ..old(self).cube@
            }),
            final(self).cube.wf(),
    {
        self.cube.updt_world(dimensions, player);
    }

    /// The per-frame call: applies the frame's chunk events and drained
    /// build results, re-aggregates if needed, and hands back the render
    /// data for every family. Fails exactly when a per-frame binding cannot
    /// be composed; the frame is then skipped.
    pub fn render(
        &mut self,
        pipeline: u64,
        dimensions: Dimension,
        rerender: bool,
        chunk_events: Vec<ChunkEvents>,
        results: Vec<BuildResult>,
    ) -> (r: Result<MeshesDataType, RenderError>)
        requires
            old(self).cube.wf(),
        ensures
            final(self).cube.wf(),
            final(self).cube@.cache.entries == spec_apply_results(
                spec_apply_events(old(self).cube@.cache, chunk_events@, 0),
                results@.map_values(|b: BuildResult| b@),
                0,
            ).entries,
            buffer_matches(final(self).cube@.buffer, final(self).cube@.cache.entries),
            !spec_apply_results(
                spec_apply_events(old(self).cube@.cache, chunk_events@, 0),
                results@.map_values(|b: BuildResult| b@),
                0,
            ).changed ==> final(self).cube@.buffer == old(self).cube@.buffer,
            spec_apply_results(
                spec_apply_events(old(self).cube@.cache, chunk_events@, 0),
                results@.map_values(|b: BuildResult| b@),
                0,
            ).changed ==> final(self).cube@.buffer.generation != old(
                self,
            ).cube@.buffer.generation,
            final(self).cube@.pipeline == (if rerender || dimensions.width != old(
                self,
            ).cube@.viewport.width || dimensions.height != old(self).cube@.viewport.height {
                pipeline
            } else {
                old(self).cube@.pipeline
            }),
            final(self).cube@.viewport == (Viewport {
                width: dimensions.width,
                height: dimensions.height,
            }),
            match r {
                Ok(m) => {
                    &&& m.cube@.buffer == final(self).cube@.buffer
                    &&& m.cube@.pipeline == final(self).cube@.pipeline
                    &&& m.cube@.viewport == final(self).cube@.viewport
                    &&& m.cube@.bindings == seq![
                        old(self).cube@.texture_binding,
                        old(self).cube@.camera_binding,
                    ]
                    &&& m.cube.wf()
                },
                Err(e) => {
                    &&& e == RenderError::ResourceBindingFailure
                    &&& old(self).cube@.camera_binding.len()
                        != crate::bundle::CAMERA_UNIFORM_WORDS
                },
            },
    {
        match self.cube.render(pipeline, dimensions, rerender, chunk_events, results) {
            Ok(bundle) => Ok(Meshes { cube: bundle }),
            Err(e) => Err(e),
        }
    }
}

impl MeshesDataType {
    /// A structural copy of the per-frame render data of every family,
    /// models equal, for holding one frame's data beyond the next render.
    pub fn duplicate(&self) -> (r: MeshesDataType)
        ensures
            r.cube@ == self.cube@,
    {
        Meshes { cube: self.cube.duplicate() }
    }

    /// The fast camera path: replaces only the camera-dependent binding set
    /// in every family's bundle, leaving pipeline, viewport and the
    /// vertex/index buffers untouched. Fails, changing nothing, when the
    /// camera uniform is malformed.
    pub fn update_camera(&mut self, cam: &Camera, dimensions: Dimension) -> (r: Result<
        (),
        RenderError,
    >)
        requires
            old(self).cube.wf(),
        ensures
            match r {
                Ok(()) => {
                    &&& cam.mvp@.len() == crate::bundle::CAMERA_UNIFORM_WORDS
                    &&& final(self).cube@.bindings == seq![
                        old(self).cube@.bindings[0],
                        cam.mvp@,
                    ]
                    &&& final(self).cube@.pipeline == old(self).cube@.pipeline
                    &&& final(self).cube@.viewport == old(self).cube@.viewport
                    &&& final(self).cube@.buffer == old(self).cube@.buffer
                    &&& final(self).cube.wf()
                },
                Err(e) => {
                    &&& e == RenderError::ResourceBindingFailure
                    &&& cam.mvp@.len() != crate::bundle::CAMERA_UNIFORM_WORDS
                    &&& final(self).cube@ == old(self).cube@
                },
            },
    {
        let _ = dimensions;
        self.cube.update_camera(&cam.mvp)
    }
}

} // verus!

