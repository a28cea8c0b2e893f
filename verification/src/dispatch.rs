//! Meshing work dispatcher: decides which chunks get a background build and
//! tracks the builds in flight, so each chunk has at most one outstanding
//! build at a time (a repeated request is coalesced, not duplicated). The
//! workers themselves live outside the pipeline: the dispatcher hands out
//! [`BuildJob`] values and is told when a build completes or fails.

use vstd::prelude::*;
use crate::world::{ChunkID, VoxelChunk, NeighborMask};
use crate::shader::CubeVert;
use crate::cache::{ChunkMeshCache, has_pending};

verus! {

/// A chunk snapshot with its neighbor visibility, as handed in for meshing.
#[derive(Clone, Debug)]
pub struct ChunkSnapshot {
    pub chunk: VoxelChunk,
    pub neighbors: NeighborMask,
}

/// One build task for a background worker: everything the builder needs.
#[derive(Debug)]
pub struct BuildJob {
    pub id: ChunkID,
    pub chunk: VoxelChunk,
    pub neighbors: NeighborMask,
}

/// A completed build delivered back from a worker.
#[derive(Debug)]
pub struct BuildResult {
    pub id: ChunkID,
    pub vertices: Vec<CubeVert>,
    pub indices: Vec<u32>,
}

/// Mathematical model of a build result.
pub ghost struct ResultView {
    pub id: u64,
    pub vertices: Seq<CubeVert>,
    pub indices: Seq<u32>,
}

impl View for BuildResult {
    type V = ResultView;

    open spec fn view(&self) -> ResultView {
        ResultView { id: self.id.id, vertices: self.vertices@, indices: self.indices@ }
    }
}

/// Whether a build for `id` is outstanding.
pub open spec fn flight_has(s: Seq<u64>, id: u64) -> bool {
    exists|i: int| 0 <= i < s.len() && #[trigger] s[i] == id
}

/// Tracks the chunk identifiers with an outstanding background build.
pub struct MeshDispatcher {
    in_flight: Vec<u64>,
}

impl View for MeshDispatcher {
    type V = Seq<u64>;

    closed spec fn view(&self) -> Seq<u64> {
        self.in_flight@
    }
}

impl MeshDispatcher {
    /// No build is outstanding twice.
    pub open spec fn wf(self) -> bool {
        forall|i: int, j: int| 0 <= i < j < self@.len() ==> self@[i] != self@[j]
    }

    /// A dispatcher with nothing in flight.
    pub fn new() -> (d: MeshDispatcher)
        ensures
            d@ == Seq::<u64>::empty(),
            d.wf(),
    {
        MeshDispatcher { in_flight: Vec::new() }
    }

    /// Whether a build for `id` is outstanding.
    pub fn in_flight(&self, id: ChunkID) -> (r: bool)
        ensures
            r == flight_has(self@, id.id),
    {
        let mut i: usize = 0;
        while i < self.in_flight.len()
            invariant
                i <= self@.len(),
                forall|j: int| 0 <= j < i ==> self@[j] != id.id,
            decreases self@.len() - i,
        {
            if self.in_flight[i] == id.id {
                assert(self@[i as int] == id.id);
                return true;
            }
            i += 1;
        }
        false
    }

    /// Requests a build for one chunk snapshot. A job is handed out exactly
    /// when the chunk awaits geometry in the cache and no build for it is
    /// already outstanding; a request for a chunk in flight is coalesced
    /// (superseded), and a chunk with current geometry is left alone.
    pub fn submit(&mut self, cache: &ChunkMeshCache, snapshot: ChunkSnapshot) -> (r: Option<
        BuildJob,
    >)
        requires
            old(self).wf(),
            cache.wf(),
        ensures
            final(self).wf(),
            match r {
                Some(job) => {
                    &&& has_pending(cache@.entries, snapshot.chunk.id.id)
                    &&& !flight_has(old(self)@, snapshot.chunk.id.id)
                    &&& final(self)@ == old(self)@.push(snapshot.chunk.id.id)
                    &&& job.id == snapshot.chunk.id
                    &&& job.chunk == snapshot.chunk
                    &&& job.neighbors == snapshot.neighbors
                },
                None => {
                    &&& final(self)@ == old(self)@
                    &&& (flight_has(old(self)@, snapshot.chunk.id.id) || !has_pending(
                        cache@.entries,
                        snapshot.chunk.id.id,
                    ))
                },
            },
    {
        let id = snapshot.chunk.id;
        if self.in_flight(id) {
            return None;
        }
        if !cache.pending(id) {
            return None;
        }
        self.in_flight.push(id.id);
        proof {
            assert forall|i: int, j: int| 0 <= i < j < self@.len() implies self@[i] != self@[j] by {
                if j == self@.len() - 1 {
                    assert(old(self)@[i] != id.id);
                }
            }
        }
        Some(BuildJob { id, chunk: snapshot.chunk, neighbors: snapshot.neighbors })
    }

    /// Records that the outstanding build for `id` ended (its result
    /// arrived, or it failed): `id` leaves the in-flight set and every other
    /// outstanding build stays.
    pub fn complete(&mut self, id: ChunkID)
        requires
            old(self).wf(),
        ensures
            final(self).wf(),
            !flight_has(final(self)@, id.id),
            forall|x: u64| x != id.id ==> flight_has(final(self)@, x) == flight_has(old(self)@, x),
    {
        let ghost s = self@;
        let mut i: usize = 0;
        while i < self.in_flight.len() && self.in_flight[i] != id.id
            invariant
                s == self@,
                old(self).wf(),
                i <= s.len(),
                forall|j: int| 0 <= j < i ==> s[j] != id.id,
            decreases s.len() - i,
        {
            i += 1;
        }
        if i < self.in_flight.len() {
            assert(s[i as int] == id.id);
            self.in_flight.remove(i);
            proof {
                let t = self@;
                assert(t =~= s.remove(i as int));
                assert forall|a: int, b: int| 0 <= a < b < t.len() implies t[a] != t[b] by {
                    if a < i {
                        assert(t[a] == s[a]);
                    } else {
                        assert(t[a] == s[a + 1]);
                    }
                    if b < i {
                        assert(t[b] == s[b]);
                    } else {
                        assert(t[b] == s[b + 1]);
                    }
                }
                assert(!flight_has(t, id.id)) by {
                    if flight_has(t, id.id) {
                        let w = choose|w: int| 0 <= w < t.len() && #[trigger] t[w] == id.id;
                        if w < i {
                            assert(s[w] == id.id);
                        } else {
                            assert(s[w + 1] == id.id);
                            assert(s[i as int] == id.id);
                        }
                    }
                }
                assert forall|x: u64| x != id.id implies flight_has(t, x) == flight_has(s, x) by {
                    if flight_has(s, x) {
                        let w = choose|w: int| 0 <= w < s.len() && #[trigger] s[w] == x;
                        if w < i {
                            assert(t[w] == x);
                        } else {
                            assert(w != i);
                            assert(t[w - 1] == x);
                        }
                    }
                    if flight_has(t, x) {
                        let w = choose|w: int| 0 <= w < t.len() && #[trigger] t[w] == x;
                        if w < i {
                            assert(s[w] == x);
                        } else {
                            assert(s[w + 1] == x);
                        }
                    }
                }
            }
            return ;
        }
        assert(!flight_has(s, id.id));
    }

    /// Records that the build for `id` failed: the chunk leaves the
    /// in-flight set, and since the cache entry still awaits geometry it is
    /// eligible for resubmission on the next pass.
    pub fn build_failed(&mut self, id: ChunkID)
        requires
            old(self).wf(),
        ensures
            final(self).wf(),
            !flight_has(final(self)@, id.id),
            forall|x: u64| x != id.id ==> flight_has(final(self)@, x) == flight_has(old(self)@, x),
    {
        self.complete(id);
    }
}

/// Coalescing gives at most one submission per chunk: once a job for `id`
/// went out, the identifier is in flight, so by `submit`'s contract a
/// repeated request for `id` hands out no second job.
pub proof fn lemma_duplicate_request_coalesced(s: Seq<u64>, id: u64)
    ensures
        flight_has(s.push(id), id),
{
    assert(s.push(id)[s.len() as int] == id);
}

} // verus!
