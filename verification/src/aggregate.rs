//! Mesh aggregator: merges every `Loaded` chunk's geometry, in ascending
//! chunk identifier order, into one vertex/index buffer pair with a span
//! table locating each chunk inside it. The buffer is rebuilt only when the
//! cache's loaded geometry changed since the last rebuild; otherwise the
//! previous buffer is handed back verbatim.

use vstd::prelude::*;
use crate::world::ChunkID;
use crate::shader::CubeVert;
use crate::cache::{
    ChunkMeshCache, ChunkMeshEntry, CacheView, EntryView, spec_loaded, sorted_entries, has_loaded,
};

verus! {

/// Where one chunk's geometry sits inside the aggregated buffer.
#[derive(Clone, Copy, Debug, PartialEq, Eq, Structural)]
pub struct ChunkSpan {
    pub id: ChunkID,
    pub vertex_offset: usize,
    pub vertex_len: usize,
    pub index_offset: usize,
    pub index_len: usize,
}

/// Mathematical model of a span.
pub ghost struct SpanView {
    pub id: u64,
    pub vertex_offset: int,
    pub vertex_len: int,
    pub index_offset: int,
    pub index_len: int,
}

impl View for ChunkSpan {
    type V = SpanView;

    open spec fn view(&self) -> SpanView {
        SpanView {
            id: self.id.id,
            vertex_offset: self.vertex_offset as int,
            vertex_len: self.vertex_len as int,
            index_offset: self.index_offset as int,
            index_len: self.index_len as int,
        }
    }
}

/// The concatenated vertices of the given entries, in order.
pub open spec fn agg_verts(s: Seq<EntryView>) -> Seq<CubeVert>
    decreases s.len(),
{
    if s.len() == 0 {
        Seq::empty()
    } else {
        agg_verts(s.drop_last()) + s.last().vertices
    }
}

/// The concatenated indices of the given entries, in order.
pub open spec fn agg_inds(s: Seq<EntryView>) -> Seq<u32>
    decreases s.len(),
{
    if s.len() == 0 {
        Seq::empty()
    } else {
        agg_inds(s.drop_last()) + s.last().indices
    }
}

/// One span per entry, in order, with cumulative vertex/index offsets.
pub open spec fn agg_spans(s: Seq<EntryView>) -> Seq<SpanView>
    decreases s.len(),
{
    if s.len() == 0 {
        Seq::empty()
    } else {
        agg_spans(s.drop_last()).push(
            SpanView {
                id: s.last().id,
                vertex_offset: agg_verts(s.drop_last()).len() as int,
                vertex_len: s.last().vertices.len() as int,
                index_offset: agg_inds(s.drop_last()).len() as int,
                index_len: s.last().indices.len() as int,
            },
        )
    }
}

/// The single vertex/index buffer pair uploaded per draw, with the span
/// table locating each chunk, and a generation stamp identifying the
/// concrete buffer instance.
#[derive(Debug)]
pub struct AggregatedBuffer {
    pub generation: u64,
    pub vertices: Vec<CubeVert>,
    pub indices: Vec<u32>,
    pub spans: Vec<ChunkSpan>,
}

/// Mathematical model of the aggregated buffer.
pub ghost struct AggBufferView {
    pub generation: u64,
    pub vertices: Seq<CubeVert>,
    pub indices: Seq<u32>,
    pub spans: Seq<SpanView>,
}

impl View for AggregatedBuffer {
    type V = AggBufferView;

    open spec fn view(&self) -> AggBufferView {
        AggBufferView {
            generation: self.generation,
            vertices: self.vertices@,
            indices: self.indices@,
            spans: self.spans@.map_values(|sp: ChunkSpan| sp@),
        }
    }
}

impl AggregatedBuffer {
    /// A structural copy whose model equals the original's, generation
    /// stamp included.
    pub fn duplicate(&self) -> (r: AggregatedBuffer)
        ensures
            r@ == self@,
    {
        let mut vertices: Vec<CubeVert> = Vec::new();
        push_all(&mut vertices, &self.vertices);
        let mut indices: Vec<u32> = Vec::new();
        push_all(&mut indices, &self.indices);
        let mut spans: Vec<ChunkSpan> = Vec::new();
        push_all(&mut spans, &self.spans);
        proof {
            assert(Seq::<CubeVert>::empty() + self.vertices@ =~= self.vertices@);
            assert(Seq::<u32>::empty() + self.indices@ =~= self.indices@);
            assert(Seq::<ChunkSpan>::empty() + self.spans@ =~= self.spans@);
        }
        AggregatedBuffer { generation: self.generation, vertices, indices, spans }
    }
}

/// Whether a buffer holds exactly the aggregation of the given cache
/// entries' `Loaded` geometry.
pub open spec fn buffer_matches(b: AggBufferView, entries: Seq<EntryView>) -> bool {
    &&& b.vertices == agg_verts(spec_loaded(entries))
    &&& b.indices == agg_inds(spec_loaded(entries))
    &&& b.spans == agg_spans(spec_loaded(entries))
}

/// Appends every element of `src` to `dst`.
fn push_all<T: Copy>(dst: &mut Vec<T>, src: &Vec<T>)
    ensures
        final(dst)@ == old(dst)@ + src@,
{
    proof {
        assert(dst@ =~= old(dst)@ + src@.take(0));
    }
    let mut k: usize = 0;
    while k < src.len()
        invariant
            k <= src@.len(),
            dst@ == old(dst)@ + src@.take(k as int),
        decreases src@.len() - k,
    {
        dst.push(src[k]);
        proof {
            assert(src@.take(k as int + 1) =~= src@.take(k as int).push(src@[k as int]));
            assert(old(dst)@ + src@.take(k as int + 1) =~= (old(dst)@ + src@.take(k as int)).push(
                src@[k as int],
            ));
        }
        k += 1;
    }
    proof {
        assert(src@.take(src@.len() as int) =~= src@);
    }
}

/// Owner of the aggregated buffer, rebuilding it only when the cache
/// changed.
pub struct MeshAggregator {
    buffer: AggregatedBuffer,
}

impl View for MeshAggregator {
    type V = AggBufferView;

    closed spec fn view(&self) -> AggBufferView {
        self.buffer@
    }
}

impl MeshAggregator {
    /// The aggregator's buffer agrees with the cache whenever the cache
    /// reports no pending change.
    pub open spec fn synced(self, c: CacheView) -> bool {
        !c.changed ==> buffer_matches(self@, c.entries)
    }

    /// A fresh aggregator holding the empty buffer at generation zero.
    pub fn new() -> (a: MeshAggregator)
        ensures
            a@.generation == 0,
            a@.vertices == Seq::<CubeVert>::empty(),
            a@.indices == Seq::<u32>::empty(),
            a@.spans == Seq::<SpanView>::empty(),
    {
        let a = MeshAggregator {
            buffer: AggregatedBuffer {
                generation: 0,
                vertices: Vec::new(),
                indices: Vec::new(),
                spans: Vec::new(),
            },
        };
        proof {
            assert(a@.spans =~= Seq::<SpanView>::empty());
        }
        a
    }

    /// Read-only access to the current buffer.
    pub fn buffer(&self) -> (b: &AggregatedBuffer)
        ensures
            b@ == self@,
    {
        &self.buffer
    }

    /// Re-derives the aggregated buffer only when the cache's loaded
    /// geometry changed since the last call; otherwise the previous buffer
    /// is kept untouched, generation stamp and all. Afterwards the buffer
    /// always equals the aggregation of the cache's current `Loaded`
    /// entries, and a rebuilt buffer carries a fresh generation stamp.
    pub fn rebuild_if_dirty(&mut self, cache: &mut ChunkMeshCache)
        requires
            old(self).synced(old(cache)@),
            old(cache).wf(),
        ensures
            final(cache)@.entries == old(cache)@.entries,
            final(cache)@.changed == false,
            final(cache).wf(),
            buffer_matches(final(self)@, final(cache)@.entries),
            final(self).synced(final(cache)@),
            !old(cache)@.changed ==> final(self)@ == old(self)@,
            old(cache)@.changed ==> final(self)@.generation != old(self)@.generation,
    {
        if !cache.is_changed() {
            return ;
        }
        let loaded = cache.loaded_entries();
        let ghost l = spec_loaded(cache@.entries);
        let mut vertices: Vec<CubeVert> = Vec::new();
        let mut indices: Vec<u32> = Vec::new();
        let mut spans: Vec<ChunkSpan> = Vec::new();
        proof {
            assert(l.take(0) =~= Seq::<EntryView>::empty());
            assert(spans@.map_values(|sp: ChunkSpan| sp@) =~= agg_spans(l.take(0)));
        }
        let mut i: usize = 0;
        while i < loaded.len()
            invariant
                loaded@.map_values(|e: ChunkMeshEntry| e@) == l,
                i <= l.len(),
                vertices@ == agg_verts(l.take(i as int)),
                indices@ == agg_inds(l.take(i as int)),
                spans@.map_values(|sp: ChunkSpan| sp@) == agg_spans(l.take(i as int)),
            decreases l.len() - i,
        {
            let e = &loaded[i];
            let span = ChunkSpan {
                id: e.id,
                vertex_offset: vertices.len(),
                vertex_len: e.vertices.len(),
                index_offset: indices.len(),
                index_len: e.indices.len(),
            };
            push_all(&mut vertices, &e.vertices);
            push_all(&mut indices, &e.indices);
            spans.push(span);
            proof {
                assert(l.take(i as int + 1).drop_last() =~= l.take(i as int));
                assert(l.take(i as int + 1).last() == l[i as int]);
                assert(l[i as int] == e@);
                assert(spans@.map_values(|sp: ChunkSpan| sp@) =~= agg_spans(l.take(i as int + 1)));
            }
            i += 1;
        }
        proof {
            assert(l.take(l.len() as int) =~= l);
        }
        let generation = if self.buffer.generation == u64::MAX {
            0
        } else {
            self.buffer.generation + 1
        };
        self.buffer = AggregatedBuffer { generation, vertices, indices, spans };
        cache.ack_changed();
    }
}

/// Every entry of the loaded sequence comes from the cache, position for
/// position in order.
pub proof fn lemma_loaded_members(s: Seq<EntryView>)
    ensures
        forall|j: int|
            #![trigger spec_loaded(s)[j]]
            0 <= j < spec_loaded(s).len() ==> exists|k: int|
                #![trigger s[k]]
                0 <= k < s.len() && s[k] == spec_loaded(s)[j],
    decreases s.len(),
{
    if s.len() > 0 {
        lemma_loaded_members(s.drop_last());
        let u = spec_loaded(s.drop_last());
        assert forall|j: int|
            #![trigger spec_loaded(s)[j]]
            0 <= j < spec_loaded(s).len() implies exists|k: int|
            #![trigger s[k]]
            0 <= k < s.len() && s[k] == spec_loaded(s)[j] by {
            if j < u.len() {
                assert(spec_loaded(s)[j] == u[j]);
                let k = choose|k: int|
                    #![trigger s.drop_last()[k]]
                    0 <= k < s.drop_last().len() && s.drop_last()[k] == u[j];
                assert(s[k] == u[j]);
            } else {
                assert(s[s.len() - 1] == spec_loaded(s)[j]);
            }
        }
    }
}

/// The loaded sequence of a sorted cache is itself strictly ordered by
/// identifier.
pub proof fn lemma_loaded_sorted(s: Seq<EntryView>)
    requires
        sorted_entries(s),
    ensures
        sorted_entries(spec_loaded(s)),
    decreases s.len(),
{
    if s.len() > 0 {
        assert(forall|i: int, j: int|
            0 <= i < j < s.drop_last().len() ==> s.drop_last()[i].id < s.drop_last()[j].id);
        lemma_loaded_sorted(s.drop_last());
        lemma_loaded_members(s.drop_last());
        let u = spec_loaded(s.drop_last());
        let t = spec_loaded(s);
        assert forall|a: int, b: int| 0 <= a < b < t.len() implies t[a].id < t[b].id by {
            if b < u.len() {
                assert(t[a] == u[a] && t[b] == u[b]);
            } else {
                assert(t[a] == u[a]);
                let k = choose|k: int|
                    #![trigger s.drop_last()[k]]
                    0 <= k < s.drop_last().len() && s.drop_last()[k] == u[a];
                assert(s[k] == u[a]);
                assert(s[k].id < s[s.len() - 1].id);
            }
        }
    }
}

/// A `Loaded` chunk appears in the loaded sequence.
pub proof fn lemma_loaded_has(s: Seq<EntryView>, id: u64)
    requires
        has_loaded(s, id),
    ensures
        exists|k: int|
            0 <= k < spec_loaded(s).len() && (#[trigger] spec_loaded(s)[k]).id == id,
    decreases s.len(),
{
    let i = choose|i: int|
        0 <= i < s.len() && (#[trigger] s[i]).id == id && s[i].state
            == crate::cache::ChunkState::Loaded;
    let u = spec_loaded(s.drop_last());
    if i == s.len() - 1 {
        assert(spec_loaded(s)[u.len() as int].id == id);
    } else {
        assert(s.drop_last()[i] == s[i]);
        assert(has_loaded(s.drop_last(), id));
        lemma_loaded_has(s.drop_last(), id);
        let k = choose|k: int|
            0 <= k < u.len() && (#[trigger] u[k]).id == id;
        assert(spec_loaded(s)[k].id == id);
    }
}

/// Shape of the span table: one span per aggregated entry, in order, with
/// the entry's identifier and geometry lengths, and offsets equal to the
/// total geometry of all earlier entries.
pub proof fn lemma_agg_spans_shape(s: Seq<EntryView>)
    ensures
        agg_spans(s).len() == s.len(),
        forall|k: int|
            #![trigger agg_spans(s)[k]]
            0 <= k < s.len() ==> {
                &&& agg_spans(s)[k].id == s[k].id
                &&& agg_spans(s)[k].vertex_len == s[k].vertices.len()
                &&& agg_spans(s)[k].index_len == s[k].indices.len()
                &&& agg_spans(s)[k].vertex_offset == agg_verts(s.take(k)).len()
                &&& agg_spans(s)[k].index_offset == agg_inds(s.take(k)).len()
            },
    decreases s.len(),
{
    if s.len() > 0 {
        lemma_agg_spans_shape(s.drop_last());
        assert forall|k: int|
            #![trigger agg_spans(s)[k]]
            0 <= k < s.len() implies {
            &&& agg_spans(s)[k].id == s[k].id
            &&& agg_spans(s)[k].vertex_len == s[k].vertices.len()
            &&& agg_spans(s)[k].index_len == s[k].indices.len()
            &&& agg_spans(s)[k].vertex_offset == agg_verts(s.take(k)).len()
            &&& agg_spans(s)[k].index_offset == agg_inds(s.take(k)).len()
        } by {
            if k < s.len() - 1 {
                assert(agg_spans(s)[k] == agg_spans(s.drop_last())[k]);
                assert(s.drop_last()[k] == s[k]);
                assert(s.drop_last().take(k) =~= s.take(k));
            } else {
                assert(s.take(k) =~= s.drop_last());
            }
        }
    }
}

/// The span table of a sorted, aggregated cache names each `Loaded` chunk
/// exactly once, in ascending identifier order, its span starting exactly
/// where the geometry of all lower-identified chunks ends.
pub proof fn lemma_span_exactly_once(s: Seq<EntryView>, id: u64)
    requires
        sorted_entries(s),
        has_loaded(s, id),
    ensures
        exists|k: int|
            0 <= k < agg_spans(spec_loaded(s)).len() && (#[trigger] agg_spans(spec_loaded(s))[
                k
            ]).id == id,
        forall|k1: int, k2: int|
            (0 <= k1 < agg_spans(spec_loaded(s)).len() && 0 <= k2 < agg_spans(spec_loaded(s)).len()
                && (#[trigger] agg_spans(spec_loaded(s))[k1]).id == id && (#[trigger] agg_spans(
                spec_loaded(s),
            )[k2]).id == id) ==> k1 == k2,
        forall|k1: int, k2: int|
            0 <= k1 < k2 < agg_spans(spec_loaded(s)).len() ==> (#[trigger] agg_spans(
                spec_loaded(s),
            )[k1]).id < (#[trigger] agg_spans(spec_loaded(s))[k2]).id,
        forall|k: int|
            #![trigger agg_spans(spec_loaded(s))[k]]
            0 <= k < agg_spans(spec_loaded(s)).len() ==> agg_spans(spec_loaded(s))[k].vertex_offset
                == agg_verts(spec_loaded(s).take(k)).len(),
{
    let t = spec_loaded(s);
    lemma_loaded_sorted(s);
    lemma_loaded_has(s, id);
    lemma_agg_spans_shape(t);
    let k0 = choose|k: int| 0 <= k < t.len() && (#[trigger] t[k]).id == id;
    assert(agg_spans(t)[k0].id == id);
    assert forall|k1: int, k2: int|
        0 <= k1 < k2 < agg_spans(t).len() implies (#[trigger] agg_spans(t)[k1]).id < (
    #[trigger] agg_spans(t)[k2]).id by {
        assert(agg_spans(t)[k1].id == t[k1].id);
        assert(agg_spans(t)[k2].id == t[k2].id);
    }
}

} // verus!
