use crate::chunks::{
    chunk_end, chunk_of, chunks_from, gathered, indices_below, lemma_block_index, narrowed, split,
    vertex_count, ChunkModel, CHUNK_VERTEX_LIMIT,
};
use crate::seqs::{distinct, lemma_distinct, lemma_distinct_len};
use vstd::arithmetic::div_mod::{
    lemma_fundamental_div_mod, lemma_fundamental_div_mod_converse, lemma_mod_pos_bound,
    lemma_mod_sub_multiples_vanish, lemma_multiply_divide_lt, lemma_small_mod,
};
use vstd::seq_lib::seq_to_set_distributes_over_add;
use vstd::set_lib::lemma_len_union;
use vstd::prelude::*;

verus! {

/// Sixteen-bit indices as indices of full width.
pub open spec fn widened(indices: Seq<u16>) -> Seq<usize> {
    Seq::new(indices.len(), |i: int| indices[i] as usize)
}

/// The values that the primitives of a chunk name: for each index of the chunk, the values
/// of its vertex.
pub open spec fn chunk_expanded<T>(chunk: ChunkModel<T>, stride: int) -> Seq<T> {
    gathered(chunk.vertices, widened(chunk.indices), stride)
}

/// The values that the primitives of chunks name, chunk after chunk.
pub open spec fn all_expanded<T>(chunks: Seq<ChunkModel<T>>, stride: int) -> Seq<T>
    decreases chunks.len(),
{
    if chunks.len() == 0 {
        Seq::empty()
    } else {
        chunk_expanded(chunks.first(), stride) + all_expanded(chunks.drop_first(), stride)
    }
}

/// How many vertices chunks hold, all together.
pub open spec fn total_vertices<T>(chunks: Seq<ChunkModel<T>>, stride: int) -> int
    decreases chunks.len(),
{
    if chunks.len() == 0 {
        0
    } else {
        vertex_count(chunks.first().vertices, stride) + total_vertices(chunks.drop_first(), stride)
    }
}

/// Whether a chunk can be drawn with sixteen-bit indices: it holds no more vertices than
/// they can tell apart, and each of its indices names one of its own vertices.
pub open spec fn chunk_fits<T>(chunk: ChunkModel<T>, stride: int) -> bool {
    &&& vertex_count(chunk.vertices, stride) <= CHUNK_VERTEX_LIMIT
    &&& forall|i: int|
        0 <= i < chunk.indices.len() ==> (#[trigger] chunk.indices[i]) < vertex_count(
            chunk.vertices,
            stride,
        )
}

/// An offset into values of `d` for each vertex names a vertex and a place in it.
pub proof fn lemma_offset_parts(j: int, d: int)
    requires
        d > 0,
        0 <= j,
    ensures
        0 <= j / d,
        0 <= j % d < d,
        j == (j / d) * d + j % d,
{
    lemma_fundamental_div_mod(j, d);
    lemma_mod_pos_bound(j, d);
    assert(d * (j / d) == (j / d) * d) by (nonlinear_arith);
    assert(0 <= j / d) by (nonlinear_arith)
        requires
            d > 0,
            0 <= j,
            j == d * (j / d) + j % d,
            j % d < d,
    ;
}

/// As many values are gathered as there are vertices named, times the values of each.
pub proof fn lemma_gathered_len<T>(values: Seq<T>, ids: Seq<usize>, stride: int)
    requires
        stride > 0,
    ensures
        gathered(values, ids, stride).len() == ids.len() * stride,
        vertex_count(gathered(values, ids, stride), stride) == ids.len(),
{
    let n = ids.len() as int;
    assert(0 <= n * stride) by (nonlinear_arith)
        requires
            0 <= n,
            stride > 0,
    ;
    lemma_block_index(n, 0, stride);
}

/// Gathering for one list of vertices after another is gathering for each, one after the
/// other.
pub proof fn lemma_gathered_concat<T>(values: Seq<T>, a: Seq<usize>, b: Seq<usize>, stride: int)
    requires
        stride > 0,
    ensures
        gathered(values, a + b, stride) == gathered(values, a, stride) + gathered(
            values,
            b,
            stride,
        ),
{
    let la = a.len() as int;
    let lb = b.len() as int;
    let l = gathered(values, a + b, stride);
    let r = gathered(values, a, stride) + gathered(values, b, stride);
    lemma_gathered_len(values, a, stride);
    lemma_gathered_len(values, b, stride);
    lemma_gathered_len(values, a + b, stride);
    assert((la + lb) * stride == la * stride + lb * stride) by (nonlinear_arith);
    assert(l.len() == r.len());
    assert forall|j: int| 0 <= j < l.len() implies l[j] == r[j] by {
        lemma_offset_parts(j, stride);
        if j < la * stride {
            assert(stride * la == la * stride) by (nonlinear_arith);
            lemma_multiply_divide_lt(j, stride, la);
            assert((a + b)[j / stride] == a[j / stride]);
        } else {
            let k = j - la * stride;
            lemma_offset_parts(k, stride);
            assert(stride * lb == lb * stride) by (nonlinear_arith);
            lemma_multiply_divide_lt(k, stride, lb);
            let q = k / stride;
            let c = k % stride;
            assert(j == (la + q) * stride + c) by (nonlinear_arith)
                requires
                    j == la * stride + k,
                    k == q * stride + c,
            ;
            lemma_fundamental_div_mod_converse(j, stride, la + q, c);
            assert((a + b)[la + q] == b[q]);
        }
    }
    assert(l == r);
}

/// The primitives of a chunk name the values that they named before the chunk was made.
pub proof fn lemma_chunk_reproduces<T>(values: Seq<T>, indices: Seq<usize>, stride: int)
    requires
        stride > 0,
        distinct(indices).len() <= CHUNK_VERTEX_LIMIT,
    ensures
        chunk_expanded(chunk_of(values, indices, stride), stride) == gathered(
            values,
            indices,
            stride,
        ),
        chunk_fits(chunk_of(values, indices, stride), stride),
        vertex_count(chunk_of(values, indices, stride).vertices, stride) == distinct(indices).len(),
{
    let local = distinct(indices);
    let chunk = chunk_of(values, indices, stride);
    let l = chunk_expanded(chunk, stride);
    let r = gathered(values, indices, stride);
    let n = indices.len() as int;
    lemma_distinct(indices);
    lemma_gathered_len(values, local, stride);
    lemma_gathered_len(values, indices, stride);
    lemma_gathered_len(chunk.vertices, widened(chunk.indices), stride);
    assert forall|i: int| 0 <= i < n implies 0 <= local.index_of(indices[i]) < local.len()
        && local[local.index_of(indices[i])] == indices[i] by {
        assert(indices.contains(indices[i]));
        assert(local.contains(indices[i]));
    }
    assert forall|i: int| 0 <= i < chunk.indices.len() implies (#[trigger] chunk.indices[i])
        < vertex_count(chunk.vertices, stride) by {
        assert(0 <= local.index_of(indices[i]) < local.len());
    }
    assert forall|j: int| 0 <= j < l.len() implies l[j] == r[j] by {
        lemma_offset_parts(j, stride);
        assert(stride * n == n * stride) by (nonlinear_arith);
        lemma_multiply_divide_lt(j, stride, n);
        let i = j / stride;
        let c = j % stride;
        let k = local.index_of(indices[i]);
        assert(0 <= k < local.len() && local[k] == indices[i]);
        assert(widened(chunk.indices)[i] == k);
        assert(k * stride + c < local.len() * stride) by (nonlinear_arith)
            requires
                0 <= k < local.len(),
                0 <= c < stride,
        ;
        assert(0 <= k * stride + c) by (nonlinear_arith)
            requires
                0 <= k,
                0 <= c,
                stride > 0,
        ;
        lemma_block_index(k, c, stride);
    }
    assert(l == r);
}

/// Within a chunk a vertex has one place: two indices of a chunk are the same exactly if
/// they named the same vertex before the chunk was made.
pub proof fn lemma_chunk_shares_vertices<T>(
    values: Seq<T>,
    indices: Seq<usize>,
    stride: int,
    i: int,
    j: int,
)
    requires
        distinct(indices).len() <= CHUNK_VERTEX_LIMIT,
        0 <= i < indices.len(),
        0 <= j < indices.len(),
    ensures
        (chunk_of(values, indices, stride).indices[i] == chunk_of(
            values,
            indices,
            stride,
        ).indices[j]) <==> (indices[i] == indices[j]),
        distinct(indices).no_duplicates(),
{
    let local = distinct(indices);
    lemma_distinct(indices);
    assert(indices.contains(indices[i]));
    assert(indices.contains(indices[j]));
    assert(local.contains(indices[i]));
    assert(local.contains(indices[j]));
    let a = local.index_of(indices[i]);
    let b = local.index_of(indices[j]);
    assert(0 <= a < local.len() && local[a] == indices[i]);
    assert(0 <= b < local.len() && local[b] == indices[j]);
}

/// More members add no more different members than they are.
pub proof fn lemma_distinct_concat_len<A>(s: Seq<A>, t: Seq<A>)
    ensures
        distinct(s + t).len() <= distinct(s).len() + t.len(),
    decreases t.len(),
{
    if t.len() == 0 {
        assert(s + t == s);
    } else {
        lemma_distinct_concat_len(s, t.drop_last());
        assert((s + t).drop_last() == s + t.drop_last());
    }
}

/// A length that is a multiple of `size` and leaves no room for `size` more is used up.
pub proof fn lemma_no_room(left: int, size: int)
    requires
        size >= 1,
        0 <= left < size,
        left % size == 0,
    ensures
        left == 0,
{
    lemma_small_mod(left as nat, size as nat);
}

/// A chunk ends before it holds more vertices than sixteen-bit indices can tell apart,
/// and at the end of a primitive.
pub proof fn lemma_chunk_end_fits(indices: Seq<usize>, size: int, start: int, next: int)
    requires
        1 <= size <= CHUNK_VERTEX_LIMIT,
        0 <= start <= next <= indices.len(),
        (indices.len() - next) % size == 0,
        distinct(indices.subrange(start, next)).len() <= CHUNK_VERTEX_LIMIT,
    ensures
        next <= chunk_end(indices, size, start, next) <= indices.len(),
        (indices.len() - chunk_end(indices, size, start, next)) % size == 0,
        distinct(indices.subrange(start, chunk_end(indices, size, start, next))).len()
            <= CHUNK_VERTEX_LIMIT,
    decreases indices.len() - next,
{
    if next + size > indices.len() {
        lemma_no_room(indices.len() - next, size);
    } else if distinct(indices.subrange(start, next)).len() + size > CHUNK_VERTEX_LIMIT {
    } else {
        let more = indices.subrange(next, next + size);
        assert(indices.subrange(start, next) + more == indices.subrange(start, next + size));
        lemma_distinct_concat_len(indices.subrange(start, next), more);
        lemma_mod_sub_multiples_vanish(indices.len() - next, size);
        lemma_chunk_end_fits(indices, size, start, next + size);
    }
}

/// What holds of the chunks that the primitives from index `start` on make: their
/// primitives name the values that they named before; each chunk can be drawn with
/// sixteen-bit indices; and together they hold every vertex that a primitive names.
pub proof fn lemma_chunks_from<T>(
    values: Seq<T>,
    indices: Seq<usize>,
    stride: int,
    size: int,
    start: int,
)
    requires
        stride > 0,
        1 <= size <= CHUNK_VERTEX_LIMIT,
        0 <= start <= indices.len(),
        (indices.len() - start) % size == 0,
    ensures
        all_expanded(chunks_from(values, indices, stride, size, start), stride) == gathered(
            values,
            indices.subrange(start, indices.len() as int),
            stride,
        ),
        forall|i: int|
            0 <= i < chunks_from(values, indices, stride, size, start).len() ==> chunk_fits(
                #[trigger] chunks_from(values, indices, stride, size, start)[i],
                stride,
            ),
        total_vertices(chunks_from(values, indices, stride, size, start), stride)
            >= indices.subrange(start, indices.len() as int).to_set().len(),
    decreases indices.len() - start,
{
    let len = indices.len() as int;
    let chunks = chunks_from(values, indices, stride, size, start);
    let tail = indices.subrange(start, len);
    if start + size > len {
        lemma_no_room(len - start, size);
        assert(tail =~= Seq::<usize>::empty());
        lemma_gathered_len(values, tail, stride);
        assert(gathered(values, tail, stride) =~= Seq::<T>::empty());
        assert(tail.to_set() =~= Set::<usize>::empty());
    } else {
        let first = indices.subrange(start, start + size);
        lemma_distinct(first);
        lemma_mod_sub_multiples_vanish(len - start, size);
        lemma_chunk_end_fits(indices, size, start, start + size);
        let end = chunk_end(indices, size, start, start + size);
        let mine = indices.subrange(start, end);
        let rest = indices.subrange(end, len);
        let chunk = chunk_of(values, mine, stride);
        let others = chunks_from(values, indices, stride, size, end);
        lemma_chunk_reproduces(values, mine, stride);
        lemma_chunks_from(values, indices, stride, size, end);
        assert(chunks == seq![chunk] + others);
        assert(chunks.first() == chunk);
        assert(chunks.drop_first() == others);
        assert(mine + rest == tail);
        lemma_gathered_concat(values, mine, rest, stride);
        assert forall|i: int| 0 <= i < chunks.len() implies chunk_fits(
            #[trigger] chunks[i],
            stride,
        ) by {
            if i > 0 {
                assert(chunks[i] == others[i - 1]);
            }
        }
        lemma_distinct_len(mine);
        seq_to_set_distributes_over_add(mine, rest);
        mine.lemma_cardinality_of_set();
        rest.lemma_cardinality_of_set();
        lemma_len_union(mine.to_set(), rest.to_set());
    }
}

/// A set of numbers below `bound` has `bound` members at most.
pub proof fn lemma_bounded_set_len(s: Set<usize>, bound: nat)
    requires
        s.finite(),
        forall|x: usize| s.contains(x) ==> x < bound,
    ensures
        s.len() <= bound,
    decreases bound,
{
    if bound == 0 {
        assert(s =~= Set::<usize>::empty());
    } else {
        let top = (bound - 1) as usize;
        if bound - 1 <= usize::MAX {
            lemma_bounded_set_len(s.remove(top), (bound - 1) as nat);
        } else {
            assert forall|x: usize| s.contains(x) implies x < bound - 1 by {}
            lemma_bounded_set_len(s, (bound - 1) as nat);
        }
    }
}

/// What splitting keeps: the primitives of the chunks, taken chunk after chunk, name the
/// values that the primitives named before; each chunk can be drawn with sixteen-bit
/// indices; and the chunks together hold as many vertices as the primitives name
/// different ones, or more.
pub proof fn lemma_split<T>(values: Seq<T>, indices: Seq<usize>, stride: int, size: int)
    requires
        stride > 0,
        1 <= size <= CHUNK_VERTEX_LIMIT,
        indices.len() as int % size == 0,
        indices_below(indices, vertex_count(values, stride)),
    ensures
        all_expanded(split(values, indices, stride, size), stride) == gathered(
            values,
            indices,
            stride,
        ),
        forall|i: int|
            0 <= i < split(values, indices, stride, size).len() ==> chunk_fits(
                #[trigger] split(values, indices, stride, size)[i],
                stride,
            ),
        total_vertices(split(values, indices, stride, size), stride) >= indices.to_set().len(),
{
    let chunks = split(values, indices, stride, size);
    if vertex_count(values, stride) <= CHUNK_VERTEX_LIMIT {
        let chunk = ChunkModel { vertices: values, indices: narrowed(indices) };
        assert(chunks.first() == chunk);
        assert(chunks.drop_first() =~= Seq::<ChunkModel<T>>::empty());
        assert(widened(narrowed(indices)) =~= indices);
        assert(all_expanded(chunks.drop_first(), stride) =~= Seq::<T>::empty());
        assert(chunk_expanded(chunk, stride) + Seq::<T>::empty() == chunk_expanded(chunk, stride));
        assert(total_vertices(chunks.drop_first(), stride) == 0);
        indices.lemma_cardinality_of_set();
        lemma_offset_parts(values.len() as int, stride);
        lemma_bounded_set_len(indices.to_set(), vertex_count(values, stride) as nat);
    } else {
        lemma_chunks_from(values, indices, stride, size, 0);
        assert(indices.subrange(0, indices.len() as int) == indices);
    }
}

} // verus!
