use crate::chunk_laws::{chunk_fits, lemma_split};
use crate::error::MeshError;
use crate::seqs::{distinct, lemma_distinct, lemma_distinct_push, lemma_index_of_unique};
use std::collections::HashMap;
use vstd::arithmetic::div_mod::{
    lemma_fundamental_div_mod, lemma_fundamental_div_mod_converse, lemma_multiply_divide_lt,
};
use vstd::prelude::*;
use vstd::slice::slice_to_vec;

verus! {

broadcast use vstd::std_specs::hash::group_hash_axioms;

/// How many vertices one buffer may hold: as many as sixteen-bit indices can tell apart.
pub const CHUNK_VERTEX_LIMIT: usize = 65536;

/// A part of a mesh that can be drawn at once: the values of its vertices, and indices
/// that name vertices of this chunk alone.
#[derive(Clone, Debug, PartialEq)]
pub struct GeometryChunk<T> {
    pub vertices: Vec<T>,
    pub indices: Vec<u16>,
}

/// The mathematical content of a [`GeometryChunk`].
pub struct ChunkModel<T> {
    pub vertices: Seq<T>,
    pub indices: Seq<u16>,
}

impl<T> View for GeometryChunk<T> {
    type V = ChunkModel<T>;

    open spec fn view(&self) -> ChunkModel<T> {
        ChunkModel { vertices: self.vertices@, indices: self.indices@ }
    }
}

/// The contents of chunks, in their order.
pub open spec fn chunk_models<T>(chunks: Seq<GeometryChunk<T>>) -> Seq<ChunkModel<T>> {
    Seq::new(chunks.len(), |i: int| chunks[i]@)
}

/// How many whole vertices `values` holds, at `stride` values for each.
pub open spec fn vertex_count<T>(values: Seq<T>, stride: int) -> int {
    values.len() as int / stride
}

/// Whether every index names one of `count` vertices.
pub open spec fn indices_below(indices: Seq<usize>, count: int) -> bool {
    forall|i: int| 0 <= i < indices.len() ==> (#[trigger] indices[i]) < count
}

/// The indices, each cut down to sixteen bits.
pub open spec fn narrowed(indices: Seq<usize>) -> Seq<u16> {
    Seq::new(indices.len(), |i: int| indices[i] as u16)
}

/// The values of the vertices that `ids` names, `stride` for each, in the order of `ids`.
pub open spec fn gathered<T>(values: Seq<T>, ids: Seq<usize>, stride: int) -> Seq<T> {
    Seq::new((ids.len() * stride) as nat, |j: int| values[ids[j / stride] * stride + j % stride])
}

/// For each of `indices`, the place of the vertex that it names among `local`.
pub open spec fn localized(indices: Seq<usize>, local: Seq<usize>) -> Seq<u16> {
    Seq::new(indices.len(), |i: int| local.index_of(indices[i]) as u16)
}

/// The chunk that the primitives with the given indices make: the vertices that they
/// name, each once, in the order in which they are first named, and the indices counted
/// anew among these.
pub open spec fn chunk_of<T>(values: Seq<T>, indices: Seq<usize>, stride: int) -> ChunkModel<T> {
    ChunkModel {
        vertices: gathered(values, distinct(indices), stride),
        indices: localized(indices, distinct(indices)),
    }
}

/// Where the chunk that begins at index `start` ends, `next` being the end of a primitive
/// up to which it is known to reach.
///
/// A chunk ends after the first primitive with which it holds so many vertices that one
/// more primitive might not fit, and with the last primitive at the latest.
pub open spec fn chunk_end(indices: Seq<usize>, size: int, start: int, next: int) -> int
    decreases indices.len() - next,
{
    if size <= 0 || next < 0 || next + size > indices.len() {
        indices.len() as int
    } else if distinct(indices.subrange(start, next)).len() + size > CHUNK_VERTEX_LIMIT {
        next
    } else {
        chunk_end(indices, size, start, next + size)
    }
}

/// A chunk reaches to the end of its first primitive at least, and not past the indices.
pub proof fn lemma_chunk_end_bounds(indices: Seq<usize>, size: int, start: int, next: int)
    requires
        next <= indices.len(),
    ensures
        next <= chunk_end(indices, size, start, next) <= indices.len(),
    decreases indices.len() - next,
{
    if size <= 0 || next < 0 || next + size > indices.len() {
    } else if distinct(indices.subrange(start, next)).len() + size > CHUNK_VERTEX_LIMIT {
    } else {
        lemma_chunk_end_bounds(indices, size, start, next + size);
    }
}

/// The chunks that the primitives from index `start` on make.
pub open spec fn chunks_from<T>(
    values: Seq<T>,
    indices: Seq<usize>,
    stride: int,
    size: int,
    start: int,
) -> Seq<ChunkModel<T>>
    decreases indices.len() - start,
    via chunks_from_terminates::<T>
{
    if size <= 0 || start < 0 || start + size > indices.len() {
        Seq::empty()
    } else {
        let end = chunk_end(indices, size, start, start + size);
        seq![chunk_of(values, indices.subrange(start, end), stride)] + chunks_from(
            values,
            indices,
            stride,
            size,
            end,
        )
    }
}

#[via_fn]
proof fn chunks_from_terminates<T>(
    values: Seq<T>,
    indices: Seq<usize>,
    stride: int,
    size: int,
    start: int,
) {
    if !(size <= 0 || start < 0 || start + size > indices.len()) {
        lemma_chunk_end_bounds(indices, size, start, start + size);
    }
}

/// The chunks into which vertices and the primitives over them are split.
///
/// Where sixteen-bit indices can tell all vertices apart, there is one chunk: what was
/// given, unchanged. Otherwise the primitives are dealt out in their order to chunks that
/// each hold the vertices that their own primitives name.
pub open spec fn split<T>(values: Seq<T>, indices: Seq<usize>, stride: int, size: int) -> Seq<
    ChunkModel<T>,
> {
    if vertex_count(values, stride) <= CHUNK_VERTEX_LIMIT {
        seq![ChunkModel { vertices: values, indices: narrowed(indices) }]
    } else {
        chunks_from(values, indices, stride, size, 0)
    }
}

/// Whether every index names one of the whole vertices that `vertices` holds.
pub fn check_indices<T>(vertices: &[T], indices: &[usize], values_per_vertex: usize) -> (r: bool)
    requires
        values_per_vertex >= 1,
    ensures
        r == indices_below(indices@, vertex_count(vertices@, values_per_vertex as int)),
{
    let count = vertices.len() / values_per_vertex;
    let mut i: usize = 0;
    while i < indices.len()
        invariant
            i <= indices.len(),
            count == vertex_count(vertices@, values_per_vertex as int),
            forall|j: int| 0 <= j < i ==> (#[trigger] indices@[j]) < count,
        decreases indices.len() - i,
    {
        if indices[i] >= count {
            return false;
        }
        i += 1;
    }
    true
}

/// Makes one chunk of vertices and indices where sixteen-bit indices can tell all the
/// vertices apart.
pub fn single_chunk<T: Copy>(vertices: &[T], indices: &[usize], values_per_vertex: usize) -> (r:
    Result<GeometryChunk<T>, MeshError>)
    requires
        values_per_vertex >= 1,
    ensures
        match r {
            Ok(chunk) => {
                &&& vertex_count(vertices@, values_per_vertex as int) <= CHUNK_VERTEX_LIMIT
                &&& indices_below(indices@, vertex_count(vertices@, values_per_vertex as int))
                &&& chunk@.vertices == vertices@
                &&& chunk@.indices == narrowed(indices@)
                &&& forall|i: int|
                    0 <= i < indices@.len() ==> (#[trigger] chunk@.indices[i]) == indices@[i]
            },
            Err(MeshError::IndexSpaceExceeded) => vertex_count(vertices@, values_per_vertex as int)
                > CHUNK_VERTEX_LIMIT,
            Err(MeshError::MalformedIndex) => {
                &&& vertex_count(vertices@, values_per_vertex as int) <= CHUNK_VERTEX_LIMIT
                &&& !indices_below(indices@, vertex_count(vertices@, values_per_vertex as int))
            },
            Err(_) => false,
        },
{
    if vertices.len() / values_per_vertex > CHUNK_VERTEX_LIMIT {
        return Err(MeshError::IndexSpaceExceeded);
    }
    if !check_indices(vertices, indices, values_per_vertex) {
        return Err(MeshError::MalformedIndex);
    }
    let mut narrow: Vec<u16> = Vec::new();
    let mut i: usize = 0;
    while i < indices.len()
        invariant
            i <= indices.len(),
            indices_below(indices@, CHUNK_VERTEX_LIMIT as int),
            narrow@.len() == i,
            forall|j: int| 0 <= j < i ==> narrow@[j] == indices@[j] as u16,
        decreases indices.len() - i,
    {
        narrow.push(indices[i] as u16);
        i += 1;
    }
    assert(narrow@ == narrowed(indices@));
    Ok(GeometryChunk { vertices: slice_to_vec(vertices), indices: narrow })
}

/// The value at place `c` of vertex `k` stands at offset `k * d + c`, where each vertex
/// has `d` values.
pub proof fn lemma_block_index(k: int, c: int, d: int)
    requires
        d > 0,
        0 <= c < d,
    ensures
        (k * d + c) / d == k,
        (k * d + c) % d == c,
{
    lemma_fundamental_div_mod_converse(k * d + c, d, k, c);
}

/// A vertex that is among the whole vertices of `len` values has all its values there.
pub proof fn lemma_vertex_in_bounds(id: int, len: int, d: int)
    requires
        d > 0,
        0 <= id < len / d,
    ensures
        0 <= id * d,
        id * d + d <= len,
{
    lemma_fundamental_div_mod(len, d);
    assert(0 <= id * d) by (nonlinear_arith)
        requires
            0 <= id,
            d > 0,
    ;
    assert(id * d + d <= d * (len / d)) by (nonlinear_arith)
        requires
            id + 1 <= len / d,
            d > 0,
    ;
}

/// One more vertex adds its values at the end of what was gathered.
pub proof fn lemma_gathered_push<T>(values: Seq<T>, ids: Seq<usize>, id: usize, stride: int)
    requires
        stride > 0,
        id * stride + stride <= values.len(),
    ensures
        gathered(values, ids.push(id), stride) == gathered(values, ids, stride) + values.subrange(
            id * stride,
            id * stride + stride,
        ),
{
    let n = ids.len() as int;
    let a = gathered(values, ids.push(id), stride);
    let b = gathered(values, ids, stride) + values.subrange(id * stride, id * stride + stride);
    assert((n + 1) * stride == n * stride + stride) by (nonlinear_arith);
    assert(0 <= n * stride) by (nonlinear_arith)
        requires
            0 <= n,
            stride > 0,
    ;
    assert(a.len() == b.len());
    assert forall|j: int| 0 <= j < a.len() implies a[j] == b[j] by {
        if j < n * stride {
            assert(stride * n == n * stride) by (nonlinear_arith);
            lemma_multiply_divide_lt(j, stride, n);
            assert(0 <= j / stride) by (nonlinear_arith)
                requires
                    0 <= j,
                    stride > 0,
            ;
            assert(ids.push(id)[j / stride] == ids[j / stride]);
        } else {
            let c = j - n * stride;
            lemma_block_index(n, c, stride);
            assert(ids.push(id)[n] == id);
        }
    }
    assert(a == b);
}

/// A chunk under construction.
struct ChunkBuilder<T> {
    vertices: Vec<T>,
    indices: Vec<u16>,
    remap: HashMap<usize, u16>,
    count: usize,
    named: Ghost<Seq<usize>>,
}

impl<T: Copy> ChunkBuilder<T> {
    /// The vertices that the chunk holds, as the places that they had before.
    spec fn local(&self) -> Seq<usize> {
        distinct(self.named@)
    }

    /// What holds of a chunk while primitives over `values` are added to it.
    spec fn inv(&self, values: Seq<T>, stride: int) -> bool {
        &&& self.count == self.local().len()
        &&& self.count <= CHUNK_VERTEX_LIMIT
        &&& self.vertices@ == gathered(values, self.local(), stride)
        &&& self.indices@.len() == self.named@.len()
        &&& forall|j: int|
            0 <= j < self.named@.len() ==> (#[trigger] self.indices@[j]) < self.local().len()
                && self.local()[self.indices@[j] as int] == self.named@[j]
        &&& forall|j: int|
            0 <= j < self.local().len() ==> self.remap@.contains_key(#[trigger] self.local()[j])
                && self.remap@[self.local()[j]] == j
        &&& forall|id: usize| #[trigger]
            self.remap@.contains_key(id) ==> self.remap@[id] < self.local().len()
                && self.local()[self.remap@[id] as int] == id
    }

    fn new(Ghost(values): Ghost<Seq<T>>, Ghost(stride): Ghost<int>) -> (r: Self)
        requires
            stride > 0,
        ensures
            r.inv(values, stride),
            r.named@ == Seq::<usize>::empty(),
            r.count == 0,
    {
        let r = ChunkBuilder {
            vertices: Vec::new(),
            indices: Vec::new(),
            remap: HashMap::new(),
            count: 0,
            named: Ghost(Seq::empty()),
        };
        assert(r.local() == Seq::<usize>::empty());
        assert(0 * stride == 0) by (nonlinear_arith);
        assert(r.vertices@ == gathered(values, r.local(), stride));
        r
    }

    /// Adds one corner of a primitive, which names vertex `id` of `values`.
    fn add(&mut self, values: &[T], stride: usize, id: usize)
        requires
            stride >= 1,
            old(self).inv(values@, stride as int),
            old(self).count < CHUNK_VERTEX_LIMIT,
            id < vertex_count(values@, stride as int),
        ensures
            final(self).inv(values@, stride as int),
            final(self).named@ == old(self).named@.push(id),
            old(self).count <= final(self).count <= old(self).count + 1,
    {
        let ghost before = self.local();
        let ghost named = self.named@;
        proof {
            lemma_distinct_push(named, id);
            lemma_distinct(named);
            lemma_vertex_in_bounds(id as int, values@.len() as int, stride as int);
        }
        match self.remap.get(&id) {
            Some(found) => {
                let place = *found;
                self.indices.push(place);
                proof {
                    self.named = Ghost(named.push(id));
                    assert(before.contains(id));
                    assert(self.local() == before);
                }
            },
            None => {
                let place = self.count as u16;
                assert(id * stride + stride <= values.len());
                let base = id * stride;
                let mut c: usize = 0;
                let ghost gathered_before = self.vertices@;
                assert(gathered_before + values@.subrange(base as int, base as int)
                    == gathered_before);
                while c < stride
                    invariant
                        c <= stride,
                        base == id * stride,
                        base + stride <= values@.len() <= usize::MAX,
                        self.vertices@ == gathered_before + values@.subrange(
                            base as int,
                            base + c,
                        ),
                        self.indices == old(self).indices,
                        self.remap == old(self).remap,
                        self.count == old(self).count,
                        self.named == old(self).named,
                    decreases stride - c,
                {
                    self.vertices.push(values[base + c]);
                    assert(values@.subrange(base as int, base + c).push(values@[base + c])
                        == values@.subrange(base as int, base + c + 1));
                    c += 1;
                }
                self.remap.insert(id, place);
                self.indices.push(place);
                self.count = self.count + 1;
                proof {
                    self.named = Ghost(named.push(id));
                    if before.contains(id) {
                        let j = choose|j: int| 0 <= j < before.len() && before[j] == id;
                        assert(old(self).remap@.contains_key(before[j]));
                    }
                    assert(self.local() == before.push(id));
                    lemma_gathered_push(values@, before, id, stride as int);
                    assert forall|j: int| 0 <= j < self.named@.len() implies (
                    #[trigger] self.indices@[j]) < self.local().len()
                        && self.local()[self.indices@[j] as int] == self.named@[j] by {
                        if j < named.len() {
                            assert(self.indices@[j] == old(self).indices@[j]);
                            assert(self.named@[j] == named[j]);
                        }
                    }
                    assert forall|j: int|
                        0 <= j < self.local().len() implies self.remap@.contains_key(
                        #[trigger] self.local()[j],
                    ) && self.remap@[self.local()[j]] == j by {
                        if j < before.len() {
                            assert(self.local()[j] == before[j]);
                            assert(old(self).remap@.contains_key(before[j]));
                        }
                    }
                    assert forall|other: usize| #[trigger]
                        self.remap@.contains_key(other) implies self.remap@[other]
                        < self.local().len() && self.local()[self.remap@[other] as int]
                        == other by {
                        if other != id {
                            assert(old(self).remap@.contains_key(other));
                            assert(self.local()[old(self).remap@[other] as int] == before[old(
                                self,
                            ).remap@[other] as int]);
                        }
                    }
                }
            },
        }
    }

    /// The chunk that was built.
    fn finish(self, Ghost(values): Ghost<Seq<T>>, Ghost(stride): Ghost<int>) -> (r: GeometryChunk<
        T,
    >)
        requires
            self.inv(values, stride),
        ensures
            r@ == chunk_of(values, self.named@, stride),
    {
        proof {
            lemma_distinct(self.named@);
            assert forall|j: int| 0 <= j < self.named@.len() implies self.indices@[j]
                == localized(self.named@, self.local())[j] by {
                lemma_index_of_unique(self.local(), self.indices@[j] as int);
            }
            assert(self.indices@ == localized(self.named@, self.local()));
        }
        GeometryChunk { vertices: self.vertices, indices: self.indices }
    }
}

/// Deals the primitives out to chunks, in their order.
pub fn deal_out<T: Copy>(
    vertices: &[T],
    indices: &[usize],
    values_per_vertex: usize,
    primitive_size: usize,
) -> (chunks: Vec<GeometryChunk<T>>)
    requires
        values_per_vertex >= 1,
        1 <= primitive_size <= CHUNK_VERTEX_LIMIT,
        indices@.len() as int % primitive_size as int == 0,
        indices_below(indices@, vertex_count(vertices@, values_per_vertex as int)),
    ensures
        chunk_models(chunks@) == chunks_from(
            vertices@,
            indices@,
            values_per_vertex as int,
            primitive_size as int,
            0,
        ),
{
    let n = indices.len();
    let ghost values = vertices@;
    let ghost idx = indices@;
    let ghost stride = values_per_vertex as int;
    let ghost size = primitive_size as int;
    let ghost total = n as int / size;
    proof {
        lemma_fundamental_div_mod(n as int, size);
        assert(size * total == total * size) by (nonlinear_arith);
    }
    let mut chunks: Vec<GeometryChunk<T>> = Vec::new();
    let mut builder: ChunkBuilder<T> = ChunkBuilder::new(Ghost(values), Ghost(stride));
    let mut i: usize = 0;
    let ghost mut start: int = 0;
    let ghost mut p: int = 0;
    assert(idx.subrange(0, 0) == Seq::<usize>::empty());
    assert(chunk_models(chunks@) + chunks_from(values, idx, stride, size, 0) == chunks_from(
        values,
        idx,
        stride,
        size,
        0,
    ));
    while i < n
        invariant
            n == indices@.len(),
            values == vertices@,
            idx == indices@,
            stride == values_per_vertex,
            size == primitive_size,
            stride >= 1,
            1 <= size <= CHUNK_VERTEX_LIMIT,
            n == total * size,
            i == p * size,
            0 <= p <= total,
            0 <= start <= i <= n,
            indices_below(idx, vertex_count(values, stride)),
            chunk_models(chunks@) + chunks_from(values, idx, stride, size, start) == chunks_from(
                values,
                idx,
                stride,
                size,
                0,
            ),
            builder.inv(values, stride),
            builder.named@ == idx.subrange(start, i as int),
            start < i ==> start + size <= n && builder.count + size <= CHUNK_VERTEX_LIMIT
                && chunk_end(idx, size, start, start + size) == chunk_end(
                idx,
                size,
                start,
                i as int,
            ),
        decreases n - i,
    {
        proof {
            assert((p + 1) * size <= total * size) by (nonlinear_arith)
                requires
                    p + 1 <= total,
                    size >= 1,
            ;
            assert((p + 1) * size == p * size + size) by (nonlinear_arith);
            if start == i {
                assert(builder.named@ =~= Seq::<usize>::empty());
                assert(builder.count == 0);
            }
        }
        let ghost count_before = builder.count as int;
        let mut k: usize = 0;
        while k < primitive_size
            invariant
                k <= primitive_size,
                size == primitive_size,
                stride == values_per_vertex,
                stride >= 1,
                values == vertices@,
                idx == indices@,
                n == indices@.len(),
                i + size <= n,
                0 <= start <= i,
                indices_below(idx, vertex_count(values, stride)),
                builder.inv(values, stride),
                builder.named@ == idx.subrange(start, i + k),
                builder.count <= count_before + k,
                count_before + size <= CHUNK_VERTEX_LIMIT,
            decreases primitive_size - k,
        {
            let id = indices[i + k];
            builder.add(vertices, values_per_vertex, id);
            proof {
                assert(idx.subrange(start, i + k).push(id) == idx.subrange(start, i + k + 1));
            }
            k += 1;
        }
        let ghost reached = i as int;
        i += primitive_size;
        proof {
            p = p + 1;
            if start < reached {
                assert(chunk_end(idx, size, start, reached) == chunk_end(
                    idx,
                    size,
                    start,
                    i as int,
                ));
            }
            assert(chunk_end(idx, size, start, start + size) == chunk_end(
                idx,
                size,
                start,
                i as int,
            ));
        }
        if builder.count + primitive_size > CHUNK_VERTEX_LIMIT {
            proof {
                assert(i < n ==> (p + 1) * size <= total * size) by (nonlinear_arith)
                    requires
                        i == p * size,
                        n == total * size,
                        size >= 1,
                ;
                assert((p + 1) * size == p * size + size) by (nonlinear_arith);
                assert(chunk_end(idx, size, start, i as int) == i);
                assert(chunks_from(values, idx, stride, size, start) == seq![
                    chunk_of(values, idx.subrange(start, i as int), stride),
                ] + chunks_from(values, idx, stride, size, i as int));
            }
            let ghost done = chunk_models(chunks@);
            let chunk = builder.finish(Ghost(values), Ghost(stride));
            chunks.push(chunk);
            builder = ChunkBuilder::new(Ghost(values), Ghost(stride));
            proof {
                assert(chunk_models(chunks@) == done + seq![chunk@]);
                let rest = chunks_from(values, idx, stride, size, i as int);
                assert((done + seq![chunk@]) + rest == done + (seq![chunk@] + rest));
                start = i as int;
                assert(idx.subrange(start, i as int) == Seq::<usize>::empty());
            }
        }
    }
    if builder.indices.len() > 0 {
        proof {
            assert(start < n);
            assert(chunk_end(idx, size, start, n as int) == n);
            assert(chunks_from(values, idx, stride, size, n as int) == Seq::<
                ChunkModel<T>,
            >::empty());
            assert(chunks_from(values, idx, stride, size, start) == seq![
                chunk_of(values, idx.subrange(start, n as int), stride),
            ] + chunks_from(values, idx, stride, size, n as int));
        }
        let ghost done = chunk_models(chunks@);
        let chunk = builder.finish(Ghost(values), Ghost(stride));
        chunks.push(chunk);
        proof {
            assert(chunk_models(chunks@) == done + seq![chunk@]);
            assert(seq![chunk@] + Seq::<ChunkModel<T>>::empty() == seq![chunk@]);
        }
    } else {
        proof {
            assert(start == n);
            assert(chunks_from(values, idx, stride, size, n as int) == Seq::<
                ChunkModel<T>,
            >::empty());
            assert(chunk_models(chunks@) + Seq::<ChunkModel<T>>::empty() == chunk_models(chunks@));
        }
    }
    chunks
}

/// Splits vertices and the primitives over them into chunks that sixteen-bit indices can
/// address.
///
/// `vertices` holds `values_per_vertex` values for each vertex, `indices` holds
/// `primitive_size` indices for each primitive. An index that names no vertex is refused.
pub fn split_into_chunks<T: Copy>(
    vertices: &[T],
    indices: &[usize],
    values_per_vertex: usize,
    primitive_size: usize,
) -> (r: Result<Vec<GeometryChunk<T>>, MeshError>)
    requires
        values_per_vertex >= 1,
        1 <= primitive_size <= CHUNK_VERTEX_LIMIT,
        indices@.len() as int % primitive_size as int == 0,
    ensures
        match r {
            Ok(chunks) => {
                &&& indices_below(indices@, vertex_count(vertices@, values_per_vertex as int))
                &&& chunk_models(chunks@) == split(
                    vertices@,
                    indices@,
                    values_per_vertex as int,
                    primitive_size as int,
                )
                &&& forall|i: int|
                    0 <= i < chunks@.len() ==> chunk_fits(
                        (#[trigger] chunks@[i])@,
                        values_per_vertex as int,
                    )
            },
            Err(e) => {
                &&& e == MeshError::MalformedIndex
                &&& !indices_below(indices@, vertex_count(vertices@, values_per_vertex as int))
            },
        },
{
    proof {
        if indices_below(indices@, vertex_count(vertices@, values_per_vertex as int)) {
            lemma_split(vertices@, indices@, values_per_vertex as int, primitive_size as int);
        }
    }
    let chunks = if vertices.len() / values_per_vertex <= CHUNK_VERTEX_LIMIT {
        match single_chunk(vertices, indices, values_per_vertex) {
            Ok(chunk) => {
                let mut chunks: Vec<GeometryChunk<T>> = Vec::new();
                chunks.push(chunk);
                assert(chunk_models(chunks@) == seq![chunk@]);
                chunks
            },
            Err(e) => {
                return Err(e);
            },
        }
    } else if !check_indices(vertices, indices, values_per_vertex) {
        return Err(MeshError::MalformedIndex);
    } else {
        deal_out(vertices, indices, values_per_vertex, primitive_size)
    };
    proof {
        assert forall|i: int| 0 <= i < chunks@.len() implies chunk_fits(
            (#[trigger] chunks@[i])@,
            values_per_vertex as int,
        ) by {
            assert(chunks@[i]@ == chunk_models(chunks@)[i]);
        }
    }
    Ok(chunks)
}

} // verus!
