//! Chunk mesh cache: per-chunk storage of generated geometry and lifecycle
//! state, keyed by chunk identifier and kept in ascending identifier order.
//!
//! Lifecycle per chunk: `Requested` (added, not yet meshed) becomes `Loaded`
//! when a build result is ingested; an edit moves `Loaded` to `Dirty`; a
//! remesh moves `Dirty` back to `Loaded`; removal purges the entry outright,
//! so a stale build result arriving afterwards finds nothing to update.

use vstd::prelude::*;
use vstd::pervasive::VecAdditionalExecFns;
use crate::world::ChunkID;
use crate::shader::CubeVert;

verus! {

/// Lifecycle state of a cached chunk mesh.
#[derive(Clone, Copy, Debug, PartialEq, Eq, Structural)]
pub enum ChunkState {
    /// Added, no geometry built yet.
    Requested,
    /// Geometry present and current.
    Loaded,
    /// Geometry present but stale; excluded from aggregation until remeshed.
    Dirty,
}

/// Cached state of one chunk: identity, lifecycle state, and the geometry
/// generated by the last ingested build.
#[derive(Debug)]
pub struct ChunkMeshEntry {
    pub id: ChunkID,
    pub state: ChunkState,
    pub vertices: Vec<CubeVert>,
    pub indices: Vec<u32>,
}

/// Mathematical model of one cache entry.
pub ghost struct EntryView {
    pub id: u64,
    pub state: ChunkState,
    pub vertices: Seq<CubeVert>,
    pub indices: Seq<u32>,
}

impl View for ChunkMeshEntry {
    type V = EntryView;

    open spec fn view(&self) -> EntryView {
        EntryView {
            id: self.id.id,
            state: self.state,
            vertices: self.vertices@,
            indices: self.indices@,
        }
    }
}

impl ChunkMeshEntry {
    /// A structural copy of the entry (geometry vectors copied element by
    /// element, so the copy's model equals the original's).
    pub fn duplicate(&self) -> (r: ChunkMeshEntry)
        ensures
            r@ == self@,
    {
        let mut vertices: Vec<CubeVert> = Vec::new();
        let mut k: usize = 0;
        while k < self.vertices.len()
            invariant
                k <= self.vertices@.len(),
                vertices@ == self.vertices@.take(k as int),
            decreases self.vertices@.len() - k,
        {
            vertices.push(self.vertices[k]);
            proof {
                assert(self.vertices@.take(k as int + 1) =~= self.vertices@.take(k as int).push(
                    self.vertices@[k as int],
                ));
            }
            k += 1;
        }
        let mut indices: Vec<u32> = Vec::new();
        let mut j: usize = 0;
        while j < self.indices.len()
            invariant
                j <= self.indices@.len(),
                indices@ == self.indices@.take(j as int),
            decreases self.indices@.len() - j,
        {
            indices.push(self.indices[j]);
            proof {
                assert(self.indices@.take(j as int + 1) =~= self.indices@.take(j as int).push(
                    self.indices@[j as int],
                ));
            }
            j += 1;
        }
        proof {
            assert(vertices@ =~= self.vertices@);
            assert(indices@ =~= self.indices@);
        }
        ChunkMeshEntry { id: self.id, state: self.state, vertices, indices }
    }
}

/// A fresh `Requested` entry with no geometry.
pub open spec fn requested_entry(id: u64) -> EntryView {
    EntryView { id, state: ChunkState::Requested, vertices: Seq::empty(), indices: Seq::empty() }
}

/// Entries in strictly ascending identifier order (so identifiers are also
/// distinct).
pub open spec fn sorted_entries(s: Seq<EntryView>) -> bool {
    forall|i: int, j: int| 0 <= i < j < s.len() ==> s[i].id < s[j].id
}

/// Whether some entry carries `id`.
pub open spec fn has_id(s: Seq<EntryView>, id: u64) -> bool {
    exists|i: int| 0 <= i < s.len() && (#[trigger] s[i]).id == id
}

/// Whether an entry with `id` awaits geometry (`Requested` or `Dirty`).
pub open spec fn has_pending(s: Seq<EntryView>, id: u64) -> bool {
    exists|i: int| 0 <= i < s.len() && (#[trigger] s[i]).id == id && s[i].state
        != ChunkState::Loaded
}

/// Whether an entry with `id` is `Loaded`.
pub open spec fn has_loaded(s: Seq<EntryView>, id: u64) -> bool {
    exists|i: int| 0 <= i < s.len() && (#[trigger] s[i]).id == id && s[i].state
        == ChunkState::Loaded
}

/// The cache after adding `id`: a fresh `Requested` entry at its sorted
/// position, or the cache unchanged when `id` is already present.
pub open spec fn spec_add(s: Seq<EntryView>, id: u64) -> Seq<EntryView>
    decreases s.len(),
{
    if s.len() == 0 {
        seq![requested_entry(id)]
    } else if s[0].id == id {
        s
    } else if id < s[0].id {
        seq![requested_entry(id)] + s
    } else {
        seq![s[0]] + spec_add(s.drop_first(), id)
    }
}

/// The cache after ingesting a build result for `id`: the pending entry with
/// that identifier becomes `Loaded` with the new geometry; a `Loaded` or
/// absent identifier leaves the cache unchanged (the stale result is
/// discarded).
pub open spec fn spec_ingest(s: Seq<EntryView>, id: u64, v: Seq<CubeVert>, ix: Seq<u32>)
    -> Seq<EntryView> {
    s.map_values(
        |e: EntryView|
            if e.id == id && e.state != ChunkState::Loaded {
                EntryView { id, state: ChunkState::Loaded, vertices: v, indices: ix }
            } else {
                e
            },
    )
}

/// The cache after an edit to `id`: a `Loaded` entry becomes `Dirty`;
/// anything else is left as it is.
pub open spec fn spec_mark(s: Seq<EntryView>, id: u64) -> Seq<EntryView> {
    s.map_values(
        |e: EntryView|
            if e.id == id && e.state == ChunkState::Loaded {
                EntryView { id: e.id, state: ChunkState::Dirty, vertices: e.vertices, indices: e.indices }
            } else {
                e
            },
    )
}

/// The cache after removing `id`, whatever its state.
pub open spec fn spec_remove(s: Seq<EntryView>, id: u64) -> Seq<EntryView>
    decreases s.len(),
{
    if s.len() == 0 {
        s
    } else if s[0].id == id {
        s.drop_first()
    } else {
        seq![s[0]] + spec_remove(s.drop_first(), id)
    }
}

/// The `Loaded` entries, in cache order: the sequence aggregation
/// concatenates.
pub open spec fn spec_loaded(s: Seq<EntryView>) -> Seq<EntryView>
    decreases s.len(),
{
    if s.len() == 0 {
        Seq::empty()
    } else if s.last().state == ChunkState::Loaded {
        spec_loaded(s.drop_last()).push(s.last())
    } else {
        spec_loaded(s.drop_last())
    }
}

/// Only `Loaded` entries reach the aggregation sequence: `Requested` and
/// `Dirty` entries are excluded until remeshed, so stale geometry never
/// reaches the buffer.
pub proof fn lemma_loaded_only_loaded(s: Seq<EntryView>)
    ensures
        forall|k: int|
            0 <= k < spec_loaded(s).len() ==> (#[trigger] spec_loaded(s)[k]).state
                == ChunkState::Loaded,
    decreases s.len(),
{
    if s.len() > 0 {
        lemma_loaded_only_loaded(s.drop_last());
    }
}

/// Mathematical model of the cache: its entries in order, and whether the
/// set of `Loaded` geometry changed since the aggregator last looked.
pub ghost struct CacheView {
    pub entries: Seq<EntryView>,
    pub changed: bool,
}

/// Per-chunk storage of generated geometry plus lifecycle state, ordered by
/// chunk identifier.
pub struct ChunkMeshCache {
    entries: Vec<ChunkMeshEntry>,
    changed: bool,
}

impl View for ChunkMeshCache {
    type V = CacheView;

    closed spec fn view(&self) -> CacheView {
        CacheView {
            entries: self.entries@.map_values(|e: ChunkMeshEntry| e@),
            changed: self.changed,
        }
    }
}

impl ChunkMeshCache {
    /// Entries stand in strictly ascending identifier order.
    pub open spec fn wf(self) -> bool {
        sorted_entries(self@.entries)
    }

    /// An empty cache, with nothing for the aggregator to pick up.
    pub fn new() -> (c: ChunkMeshCache)
        ensures
            c@.entries == Seq::<EntryView>::empty(),
            c@.changed == false,
            c.wf(),
    {
        let c = ChunkMeshCache { entries: Vec::new(), changed: false };
        proof {
            assert(c@.entries =~= Seq::<EntryView>::empty());
        }
        c
    }

    /// Number of entries, in any state.
    pub fn len(&self) -> (n: usize)
        ensures
            n == self@.entries.len(),
    {
        self.entries.len()
    }

    /// The entry at position `i` in identifier order.
    pub fn entry_at(&self, i: usize) -> (e: &ChunkMeshEntry)
        requires
            i < self@.entries.len(),
        ensures
            e@ == self@.entries[i as int],
    {
        &self.entries[i]
    }

    /// Whether the `Loaded` geometry changed since `ack_changed` last ran.
    pub fn is_changed(&self) -> (r: bool)
        ensures
            r == self@.changed,
    {
        self.changed
    }

    /// Acknowledges the current state: the aggregator has rebuilt from it.
    pub fn ack_changed(&mut self)
        ensures
            final(self)@.entries == old(self)@.entries,
            final(self)@.changed == false,
            final(self).wf() == old(self).wf(),
    {
        self.changed = false;
    }

    /// Whether `id` awaits geometry (`Requested` or `Dirty`).
    pub fn pending(&self, id: ChunkID) -> (r: bool)
        requires
            self.wf(),
        ensures
            r == has_pending(self@.entries, id.id),
    {
        let ghost s = self@.entries;
        let mut i: usize = 0;
        while i < self.entries.len() && self.entries[i].id.id != id.id
            invariant
                s == self@.entries,
                self.wf(),
                i <= s.len(),
                forall|j: int| 0 <= j < i ==> s[j].id != id.id,
            decreases s.len() - i,
        {
            i += 1;
        }
        proof {
            lemma_distinct_ids(s, i as int);
        }
        if i < self.entries.len() {
            assert(s[i as int].id == id.id);
            let pending = match self.entries[i].state {
                ChunkState::Loaded => false,
                _ => true,
            };
            proof {
                if pending {
                    assert(has_pending(s, id.id));
                } else {
                    assert(!has_pending(s, id.id)) by {
                        assert(forall|j: int| 0 <= j < s.len() && j != i ==> s[j].id != id.id);
                    }
                }
            }
            return pending;
        }
        assert(!has_pending(s, id.id));
        false
    }

    /// Inserts a `Requested` entry for `id`; idempotent when the chunk is
    /// already present in any state. A genuine insertion is a membership
    /// change, so it raises the aggregation flag; the idempotent no-op does
    /// not.
    pub fn add_chunk(&mut self, id: ChunkID)
        requires
            old(self).wf(),
        ensures
            final(self)@.entries == spec_add(old(self)@.entries, id.id),
            final(self)@.changed == (old(self)@.changed || !has_id(old(self)@.entries, id.id)),
            final(self).wf(),
    {
        let ghost s = self@.entries;
        let mut i: usize = 0;
        while i < self.entries.len() && self.entries[i].id.id < id.id
            invariant
                s == self@.entries,
                self.wf(),
                i <= s.len(),
                forall|j: int| 0 <= j < i ==> s[j].id < id.id,
                self@.changed == old(self)@.changed,
            decreases s.len() - i,
        {
            i += 1;
        }
        if i < self.entries.len() && self.entries[i].id.id == id.id {
            proof {
                lemma_add_present_at(s, id.id, i as int);
                assert(has_id(s, id.id));
            }
            return ;
        }
        let entry = ChunkMeshEntry {
            id,
            state: ChunkState::Requested,
            vertices: Vec::new(),
            indices: Vec::new(),
        };
        proof {
            lemma_add_inserts_at(s, id.id, i as int);
            lemma_sorted_insert(s, id.id, i as int);
            lemma_distinct_ids(s, i as int);
            assert(!has_id(s, id.id)) by {
                if has_id(s, id.id) {
                    let w = choose|w: int| 0 <= w < s.len() && (#[trigger] s[w]).id == id.id;
                    if w >= i {
                        assert(i < s.len());
                        if w > i {
                            assert(s[i as int].id < s[w].id);
                        }
                    }
                }
            }
        }
        self.entries.insert(i, entry);
        self.changed = true;
        proof {
            assert(self@.entries =~= s.take(i as int) + seq![requested_entry(id.id)] + s.skip(
                i as int,
            ));
        }
    }

    /// Ingests a completed build for `id`: a `Requested` or `Dirty` entry
    /// becomes `Loaded` with the delivered geometry, and the change is
    /// flagged for the aggregator. A result for a removed or already
    /// `Loaded` chunk is discarded. Returns whether the result was applied.
    pub fn ingest_result(&mut self, id: ChunkID, vertices: Vec<CubeVert>, indices: Vec<u32>) -> (applied: bool)
        requires
            old(self).wf(),
        ensures
            final(self)@.entries == spec_ingest(
                old(self)@.entries,
                id.id,
                vertices@,
                indices@,
            ),
            applied == has_pending(old(self)@.entries, id.id),
            final(self)@.changed == (old(self)@.changed || applied),
            final(self).wf(),
    {
        let ghost s = self@.entries;
        let ghost v = vertices@;
        let ghost ixs = indices@;
        let ghost t = spec_ingest(s, id.id, v, ixs);
        let mut i: usize = 0;
        while i < self.entries.len() && self.entries[i].id.id != id.id
            invariant
                s == self@.entries,
                self.wf(),
                i <= s.len(),
                forall|j: int| 0 <= j < i ==> s[j].id != id.id,
                self@.changed == old(self)@.changed,
            decreases s.len() - i,
        {
            i += 1;
        }
        proof {
            lemma_distinct_ids(s, i as int);
        }
        if i < self.entries.len() {
            assert(s[i as int].id == id.id);
            let pending = match self.entries[i].state {
                ChunkState::Loaded => false,
                _ => true,
            };
            if pending {
                assert(s[i as int].state != ChunkState::Loaded);
                assert(has_pending(s, id.id));
                let entry = ChunkMeshEntry { id, state: ChunkState::Loaded, vertices, indices };
                proof {
                    lemma_ingest_sorted(s, id.id, v, ixs);
                }
                self.entries.set(i, entry);
                self.changed = true;
                proof {
                    assert(self@.entries =~= t) by {
                        assert forall|j: int| 0 <= j < s.len() implies self@.entries[j] == t[j] by {
                            if j != i {
                                assert(s[j].id != id.id);
                            }
                        }
                    }
                }
                return true;
            }
            assert(!has_pending(s, id.id)) by {
                assert(forall|j: int| 0 <= j < s.len() && j != i ==> s[j].id != id.id);
            }
            proof {
                assert(self@.entries =~= t);
            }
            return false;
        }
        assert(!has_pending(s, id.id));
        proof {
            assert(self@.entries =~= t);
        }
        false
    }

    /// Marks the chunk's geometry stale: `Loaded` becomes `Dirty` (and the
    /// aggregation flag is raised, since the entry leaves the loaded set);
    /// chunks not present, or not `Loaded`, are left alone.
    pub fn mark_dirty(&mut self, id: ChunkID)
        requires
            old(self).wf(),
        ensures
            final(self)@.entries == spec_mark(old(self)@.entries, id.id),
            final(self)@.changed == (old(self)@.changed || has_loaded(old(self)@.entries, id.id)),
            final(self).wf(),
    {
        let ghost s = self@.entries;
        let ghost t = spec_mark(s, id.id);
        let mut i: usize = 0;
        while i < self.entries.len() && self.entries[i].id.id != id.id
            invariant
                s == self@.entries,
                self.wf(),
                i <= s.len(),
                forall|j: int| 0 <= j < i ==> s[j].id != id.id,
                self@.changed == old(self)@.changed,
            decreases s.len() - i,
        {
            i += 1;
        }
        proof {
            lemma_distinct_ids(s, i as int);
        }
        if i < self.entries.len() {
            assert(s[i as int].id == id.id);
            let loaded = match self.entries[i].state {
                ChunkState::Loaded => true,
                _ => false,
            };
            if loaded {
                assert(has_loaded(s, id.id));
                let mut e = self.entries.remove(i);
                e.state = ChunkState::Dirty;
                proof {
                    lemma_mark_sorted(s, id.id);
                    assert(e@ == t[i as int]);
                }
                self.entries.insert(i, e);
                self.changed = true;
                proof {
                    assert(self@.entries =~= t) by {
                        assert forall|j: int| 0 <= j < s.len() implies self@.entries[j] == t[j] by {
                            if j != i {
                                assert(s[j].id != id.id);
                            }
                        }
                    }
                }
                return ;
            }
            assert(!has_loaded(s, id.id)) by {
                assert(forall|j: int| 0 <= j < s.len() && j != i ==> s[j].id != id.id);
            }
            proof {
                assert(self@.entries =~= t);
            }
            return ;
        }
        assert(!has_loaded(s, id.id));
        proof {
            assert(self@.entries =~= t);
        }
    }

    /// Removes the chunk outright, whatever its state; any in-flight build
    /// result for it will find no entry and be discarded on arrival.
    /// Removing a present entry is a membership change, so it raises the
    /// aggregation flag; removing an absent identifier changes nothing.
    pub fn remv_chunk(&mut self, id: ChunkID)
        requires
            old(self).wf(),
        ensures
            final(self)@.entries == spec_remove(old(self)@.entries, id.id),
            final(self)@.changed == (old(self)@.changed || has_id(old(self)@.entries, id.id)),
            final(self).wf(),
    {
        let ghost s = self@.entries;
        let mut i: usize = 0;
        while i < self.entries.len() && self.entries[i].id.id != id.id
            invariant
                s == self@.entries,
                self.wf(),
                i <= s.len(),
                forall|j: int| 0 <= j < i ==> s[j].id != id.id,
                self@.changed == old(self)@.changed,
            decreases s.len() - i,
        {
            i += 1;
        }
        proof {
            lemma_distinct_ids(s, i as int);
        }
        if i < self.entries.len() {
            assert(s[i as int].id == id.id);
            assert(has_id(s, id.id));
            proof {
                lemma_remove_at(s, id.id, i as int);
                lemma_sorted_remove(s, i as int);
            }
            self.entries.remove(i);
            self.changed = true;
            proof {
                assert(self@.entries =~= s.remove(i as int));
            }
            return ;
        }
        assert(!has_id(s, id.id));
        proof {
            lemma_remove_absent_id(s, id.id);
        }
    }

    /// The `Loaded` entries in ascending identifier order: the stable
    /// sequence the aggregator concatenates, with `Dirty` and `Requested`
    /// entries excluded so stale geometry never reaches the buffer.
    pub fn loaded_entries(&self) -> (r: Vec<ChunkMeshEntry>)
        ensures
            r@.map_values(|e: ChunkMeshEntry| e@) == spec_loaded(self@.entries),
    {
        let ghost s = self@.entries;
        let mut r: Vec<ChunkMeshEntry> = Vec::new();
        let mut i: usize = 0;
        while i < self.entries.len()
            invariant
                s == self@.entries,
                i <= s.len(),
                r@.map_values(|e: ChunkMeshEntry| e@) == spec_loaded(s.take(i as int)),
            decreases s.len() - i,
        {
            proof {
                assert(s.take(i as int + 1).drop_last() =~= s.take(i as int));
                assert(s.take(i as int + 1).last() == s[i as int]);
            }
            let loaded = match self.entries[i].state {
                ChunkState::Loaded => true,
                _ => false,
            };
            if loaded {
                let e = self.entries[i].duplicate();
                r.push(e);
                proof {
                    assert(r@.map_values(|e: ChunkMeshEntry| e@) =~= spec_loaded(
                        s.take(i as int + 1),
                    ));
                }
            } else {
                proof {
                    assert(r@.map_values(|e: ChunkMeshEntry| e@) == spec_loaded(
                        s.take(i as int + 1),
                    ));
                }
            }
            i += 1;
        }
        proof {
            assert(s.take(s.len() as int) =~= s);
        }
        r
    }
}

/// In a strictly ordered cache no two entries share an identifier.
pub proof fn lemma_distinct_ids(s: Seq<EntryView>, i: int)
    requires
        sorted_entries(s),
    ensures
        0 <= i < s.len() ==> forall|j: int|
            0 <= j < s.len() && j != i ==> (#[trigger] s[j]).id != s[i].id,
{
    if 0 <= i < s.len() {
        assert forall|j: int| 0 <= j < s.len() && j != i implies (#[trigger] s[j]).id != s[i].id by {
            if j < i {
                assert(s[j].id < s[i].id);
            } else {
                assert(s[i].id < s[j].id);
            }
        }
    }
}

/// Ingesting keeps every identifier in place, so the strict order stands.
pub proof fn lemma_ingest_sorted(s: Seq<EntryView>, id: u64, v: Seq<CubeVert>, ix: Seq<u32>)
    requires
        sorted_entries(s),
    ensures
        sorted_entries(spec_ingest(s, id, v, ix)),
{
    let t = spec_ingest(s, id, v, ix);
    assert forall|a: int, b: int| 0 <= a < b < t.len() implies t[a].id < t[b].id by {
        assert(t[a].id == s[a].id);
        assert(t[b].id == s[b].id);
    }
}

/// Marking keeps every identifier in place, so the strict order stands.
pub proof fn lemma_mark_sorted(s: Seq<EntryView>, id: u64)
    requires
        sorted_entries(s),
    ensures
        sorted_entries(spec_mark(s, id)),
{
    let t = spec_mark(s, id);
    assert forall|a: int, b: int| 0 <= a < b < t.len() implies t[a].id < t[b].id by {
        assert(t[a].id == s[a].id);
        assert(t[b].id == s[b].id);
    }
}

/// Adding an identifier that is already present leaves the cache exactly as
/// it was.
pub proof fn lemma_add_present_at(s: Seq<EntryView>, id: u64, i: int)
    requires
        sorted_entries(s),
        0 <= i < s.len(),
        s[i].id == id,
        forall|j: int| 0 <= j < i ==> s[j].id < id,
    ensures
        spec_add(s, id) == s,
    decreases s.len(),
{
    if i == 0 {
        assert(s[0].id == id);
    } else {
        assert(s[0].id < id);
        lemma_add_present_at(s.drop_first(), id, i - 1);
        assert(seq![s[0]] + s.drop_first() =~= s);
    }
}

/// Adding an absent identifier inserts a fresh `Requested` entry exactly at
/// its sorted position `i`.
pub proof fn lemma_add_inserts_at(s: Seq<EntryView>, id: u64, i: int)
    requires
        sorted_entries(s),
        0 <= i <= s.len(),
        forall|j: int| 0 <= j < i ==> s[j].id < id,
        i < s.len() ==> s[i].id > id,
    ensures
        spec_add(s, id) == s.take(i) + seq![requested_entry(id)] + s.skip(i),
    decreases s.len(),
{
    if s.len() == 0 {
        assert(spec_add(s, id) =~= s.take(0) + seq![requested_entry(id)] + s.skip(0));
    } else if i == 0 {
        assert(s[0].id > id);
        assert(spec_add(s, id) =~= s.take(0) + seq![requested_entry(id)] + s.skip(0));
    } else {
        assert(s[0].id < id);
        lemma_add_inserts_at(s.drop_first(), id, i - 1);
        assert(s.drop_first().take(i - 1) =~= s.take(i).drop_first());
        assert(s.drop_first().skip(i - 1) =~= s.skip(i));
        assert(seq![s[0]] + (s.drop_first().take(i - 1) + seq![requested_entry(id)]
            + s.drop_first().skip(i - 1)) =~= s.take(i) + seq![requested_entry(id)] + s.skip(i));
    }
}

/// Inserting a fresh entry at its sorted position keeps the order strict.
pub proof fn lemma_sorted_insert(s: Seq<EntryView>, id: u64, i: int)
    requires
        sorted_entries(s),
        0 <= i <= s.len(),
        forall|j: int| 0 <= j < i ==> s[j].id < id,
        i < s.len() ==> s[i].id > id,
    ensures
        sorted_entries(s.take(i) + seq![requested_entry(id)] + s.skip(i)),
{
    let t = s.take(i) + seq![requested_entry(id)] + s.skip(i);
    assert forall|a: int, b: int| 0 <= a < b < t.len() implies t[a].id < t[b].id by {
        if a < i {
            assert(t[a] == s[a]);
        } else if a > i {
            assert(t[a] == s[a - 1]);
        }
        if b < i {
            assert(t[b] == s[b]);
        } else if b > i {
            assert(t[b] == s[b - 1]);
        }
    }
}

/// Removing position `i`, the entry holding `id`, is exactly `spec_remove`.
pub proof fn lemma_remove_at(s: Seq<EntryView>, id: u64, i: int)
    requires
        sorted_entries(s),
        0 <= i < s.len(),
        s[i].id == id,
        forall|j: int| 0 <= j < i ==> s[j].id != id,
    ensures
        spec_remove(s, id) == s.remove(i),
    decreases s.len(),
{
    if i == 0 {
        assert(spec_remove(s, id) == s.drop_first());
        assert(s.drop_first() =~= s.remove(0));
    } else {
        lemma_remove_at(s.drop_first(), id, i - 1);
        assert(seq![s[0]] + s.drop_first().remove(i - 1) =~= s.remove(i));
    }
}

/// Removing an identifier no entry holds leaves the cache exactly as it was.
pub proof fn lemma_remove_absent_id(s: Seq<EntryView>, id: u64)
    requires
        forall|j: int| 0 <= j < s.len() ==> s[j].id != id,
    ensures
        spec_remove(s, id) == s,
    decreases s.len(),
{
    if s.len() > 0 {
        lemma_remove_absent_id(s.drop_first(), id);
        assert(seq![s[0]] + s.drop_first() =~= s);
    }
}

/// Removing one position keeps the strict order.
pub proof fn lemma_sorted_remove(s: Seq<EntryView>, i: int)
    requires
        sorted_entries(s),
        0 <= i < s.len(),
    ensures
        sorted_entries(s.remove(i)),
{
    let t = s.remove(i);
    assert forall|a: int, b: int| 0 <= a < b < t.len() implies t[a].id < t[b].id by {
        if a < i {
            assert(t[a] == s[a]);
        } else {
            assert(t[a] == s[a + 1]);
        }
        if b < i {
            assert(t[b] == s[b]);
        } else {
            assert(t[b] == s[b + 1]);
        }
    }
}

/// Idempotence of adding: a chunk added twice before anything else happens
/// yields exactly the cache of adding it once.
pub proof fn lemma_add_idempotent(s: Seq<EntryView>, id: u64)
    requires
        sorted_entries(s),
    ensures
        spec_add(spec_add(s, id), id) == spec_add(s, id),
{
    lemma_add_sorted_and_present(s, id);
    let t = spec_add(s, id);
    let i = choose|i: int| 0 <= i < t.len() && t[i].id == id;
    lemma_first_occurrence(t, id, i);
}

/// After adding, the cache is still sorted and holds the identifier.
pub proof fn lemma_add_sorted_and_present(s: Seq<EntryView>, id: u64)
    requires
        sorted_entries(s),
    ensures
        sorted_entries(spec_add(s, id)),
        has_id(spec_add(s, id), id),
    decreases s.len(),
{
    if s.len() == 0 {
        assert(spec_add(s, id)[0].id == id);
    } else if s[0].id == id {
        assert(spec_add(s, id)[0].id == id);
    } else if id < s[0].id {
        let t = seq![requested_entry(id)] + s;
        assert(t[0].id == id);
        assert forall|a: int, b: int| 0 <= a < b < t.len() implies t[a].id < t[b].id by {
            if a > 0 {
                assert(t[a] == s[a - 1]);
            }
            assert(t[b] == s[b - 1]);
        }
    } else {
        lemma_add_sorted_and_present(s.drop_first(), id);
        let u = spec_add(s.drop_first(), id);
        let t = seq![s[0]] + u;
        let w = choose|w: int| 0 <= w < u.len() && u[w].id == id;
        assert(t[w + 1].id == id);
        assert forall|a: int, b: int| 0 <= a < b < t.len() implies t[a].id < t[b].id by {
            if a == 0 {
                lemma_add_low_ids(s.drop_first(), id, s[0].id);
                assert(t[b] == u[b - 1]);
            } else {
                assert(t[a] == u[a - 1] && t[b] == u[b - 1]);
            }
        }
    }
}

/// Every entry of `spec_add` carries an identifier above `low` when every
/// original entry does and `id` does.
proof fn lemma_add_low_ids(s: Seq<EntryView>, id: u64, low: u64)
    requires
        forall|j: int| 0 <= j < s.len() ==> low < s[j].id,
        low < id,
    ensures
        forall|j: int| 0 <= j < spec_add(s, id).len() ==> low < spec_add(s, id)[j].id,
    decreases s.len(),
{
    if s.len() == 0 {
    } else if s[0].id == id {
    } else if id < s[0].id {
    } else {
        assert(forall|j: int| 0 <= j < s.drop_first().len() ==> low < s.drop_first()[j].id);
        lemma_add_low_ids(s.drop_first(), id, low);
    }
}

/// In a sorted cache that already holds `id`, adding `id` changes nothing.
pub proof fn lemma_add_of_present(s: Seq<EntryView>, id: u64)
    requires
        sorted_entries(s),
        has_id(s, id),
    ensures
        spec_add(s, id) == s,
{
    let i = choose|i: int| 0 <= i < s.len() && (#[trigger] s[i]).id == id;
    lemma_first_occurrence(s, id, i);
}

/// In a sorted cache that holds `id`, adding `id` changes nothing.
proof fn lemma_first_occurrence(s: Seq<EntryView>, id: u64, i: int)
    requires
        sorted_entries(s),
        0 <= i < s.len(),
        s[i].id == id,
    ensures
        spec_add(s, id) == s,
{
    assert(forall|j: int| 0 <= j < i ==> s[j].id < id);
    lemma_add_present_at(s, id, i);
}

/// A removed chunk is gone: no entry carries its identifier afterwards, so
/// aggregation can never pick its geometry up again.
pub proof fn lemma_remove_absent_after(s: Seq<EntryView>, id: u64)
    requires
        sorted_entries(s),
    ensures
        !has_id(spec_remove(s, id), id),
        sorted_entries(spec_remove(s, id)),
    decreases s.len(),
{
    if s.len() == 0 {
    } else if s[0].id == id {
        assert(spec_remove(s, id) == s.drop_first());
        assert forall|j: int| 0 <= j < s.drop_first().len() implies s.drop_first()[j].id != id by {
            assert(s.drop_first()[j] == s[j + 1]);
        }
    } else {
        lemma_remove_absent_after(s.drop_first(), id);
        let u = spec_remove(s.drop_first(), id);
        let t = seq![s[0]] + u;
        lemma_remove_keeps_ids(s.drop_first(), id);
        assert forall|a: int, b: int| 0 <= a < b < t.len() implies t[a].id < t[b].id by {
            if a == 0 {
                assert(t[b] == u[b - 1]);
                let j = choose|j: int|
                    0 <= j < s.drop_first().len() && s.drop_first()[j] == u[b - 1];
                assert(s.drop_first()[j] == s[j + 1]);
            } else {
                assert(t[a] == u[a - 1] && t[b] == u[b - 1]);
                let ja = choose|j: int|
                    0 <= j < s.drop_first().len() && s.drop_first()[j] == u[a - 1];
                let jb = choose|j: int|
                    0 <= j < s.drop_first().len() && s.drop_first()[j] == u[b - 1];
                if ja >= jb {
                    lemma_remove_order(s.drop_first(), id, a - 1, b - 1);
                }
            }
        }
    }
}

/// Every entry surviving a removal appears in the original cache.
proof fn lemma_remove_keeps_ids(s: Seq<EntryView>, id: u64)
    ensures
        forall|j: int|
            #![trigger spec_remove(s, id)[j]]
            0 <= j < spec_remove(s, id).len() ==> exists|k: int|
                #![trigger s[k]]
                0 <= k < s.len() && s[k] == spec_remove(s, id)[j],
    decreases s.len(),
{
    if s.len() == 0 {
    } else if s[0].id == id {
        assert forall|j: int|
            #![trigger spec_remove(s, id)[j]]
            0 <= j < spec_remove(s, id).len() implies exists|k: int|
            #![trigger s[k]]
            0 <= k < s.len() && s[k] == spec_remove(s, id)[j] by {
            assert(s[j + 1] == spec_remove(s, id)[j]);
        }
    } else {
        lemma_remove_keeps_ids(s.drop_first(), id);
        let u = spec_remove(s.drop_first(), id);
        assert forall|j: int|
            #![trigger spec_remove(s, id)[j]]
            0 <= j < spec_remove(s, id).len() implies exists|k: int|
            #![trigger s[k]]
            0 <= k < s.len() && s[k] == spec_remove(s, id)[j] by {
            if j == 0 {
                assert(s[0] == spec_remove(s, id)[0]);
            } else {
                assert(spec_remove(s, id)[j] == u[j - 1]);
                let k = choose|k: int|
                    #![trigger s.drop_first()[k]]
                    0 <= k < s.drop_first().len() && s.drop_first()[k] == u[j - 1];
                assert(s[k + 1] == u[j - 1]);
            }
        }
    }
}

/// Removal keeps the order of the surviving entries.
proof fn lemma_remove_order(s: Seq<EntryView>, id: u64, a: int, b: int)
    requires
        sorted_entries(s),
        0 <= a < b < spec_remove(s, id).len(),
    ensures
        spec_remove(s, id)[a].id < spec_remove(s, id)[b].id,
    decreases s.len(),
{
    if s.len() == 0 {
    } else if s[0].id == id {
        assert(spec_remove(s, id) == s.drop_first());
        assert(s.drop_first()[a] == s[a + 1] && s.drop_first()[b] == s[b + 1]);
    } else {
        let u = spec_remove(s.drop_first(), id);
        if a == 0 {
            lemma_remove_keeps_ids(s.drop_first(), id);
            assert(spec_remove(s, id)[b] == u[b - 1]);
            let k = choose|k: int| 0 <= k < s.drop_first().len() && s.drop_first()[k] == u[b - 1];
            assert(s.drop_first()[k] == s[k + 1]);
        } else {
            lemma_remove_order(s.drop_first(), id, a - 1, b - 1);
        }
    }
}

/// Ingesting a result for an identifier with no pending entry changes
/// nothing: the stale or unknown result is discarded.
pub proof fn lemma_ingest_of_absent(s: Seq<EntryView>, id: u64, v: Seq<CubeVert>, ix: Seq<u32>)
    requires
        !has_pending(s, id),
    ensures
        spec_ingest(s, id, v, ix) == s,
{
    assert(spec_ingest(s, id, v, ix) =~= s) by {
        assert forall|j: int| 0 <= j < s.len() implies spec_ingest(s, id, v, ix)[j] == s[j] by {
            assert(!(s[j].id == id && s[j].state != ChunkState::Loaded));
        }
    }
}

/// Marking an identifier with no `Loaded` entry changes nothing.
pub proof fn lemma_mark_of_not_loaded(s: Seq<EntryView>, id: u64)
    requires
        !has_loaded(s, id),
    ensures
        spec_mark(s, id) == s,
{
    assert(spec_mark(s, id) =~= s) by {
        assert forall|j: int| 0 <= j < s.len() implies spec_mark(s, id)[j] == s[j] by {
            assert(!(s[j].id == id && s[j].state == ChunkState::Loaded));
        }
    }
}

/// A build result arriving after its chunk was removed is discarded whole:
/// ingesting into a cache that no longer holds the identifier returns the
/// cache unchanged, so removal followed by a stale result never reintroduces
/// geometry.
pub proof fn lemma_stale_result_discarded(
    s: Seq<EntryView>,
    id: u64,
    v: Seq<CubeVert>,
    ix: Seq<u32>,
)
    requires
        sorted_entries(s),
    ensures
        spec_ingest(spec_remove(s, id), id, v, ix) == spec_remove(s, id),
{
    lemma_remove_absent_after(s, id);
    let t = spec_remove(s, id);
    assert(spec_ingest(t, id, v, ix) =~= t) by {
        assert forall|j: int| 0 <= j < t.len() implies spec_ingest(t, id, v, ix)[j] == t[j] by {
            assert(t[j].id != id);
        }
    }
}

} // verus!
