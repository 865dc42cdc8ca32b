use objmesh::chunks::{
    check_indices, deal_out, single_chunk, split_into_chunks, GeometryChunk, CHUNK_VERTEX_LIMIT,
};
use objmesh::error::MeshError;

fn expand<T: Copy>(chunk: &GeometryChunk<T>, stride: usize) -> Vec<T> {
    let mut out = vec![];
    for &i in &chunk.indices {
        let at = i as usize * stride;
        out.extend_from_slice(&chunk.vertices[at..at + stride]);
    }
    out
}

fn strip(vertices: usize) -> Vec<usize> {
    let mut indices = vec![];
    for i in 0..vertices - 2 {
        indices.push(i);
        indices.push(i + 1);
        indices.push(i + 2);
    }
    indices
}

#[test]
fn small_input_is_one_chunk_unchanged() {
    let vertices: Vec<f32> = vec![0.0, 1.0, 2.0, 3.0, 4.0, 5.0, 6.0, 7.0, 8.0];
    let indices = vec![2, 1, 0, 0, 0, 2];
    let chunks = split_into_chunks(&vertices, &indices, 3, 3).unwrap();
    assert_eq!(
        chunks,
        vec![GeometryChunk { vertices: vertices.clone(), indices: vec![2, 1, 0, 0, 0, 2] }]
    );
}

#[test]
fn vertices_that_no_primitive_names_stay_in_a_single_chunk() {
    let vertices: Vec<f32> = vec![0.0, 1.0, 2.0, 3.0];
    let chunks = split_into_chunks(&vertices, &[3, 3], 1, 2).unwrap();
    assert_eq!(chunks.len(), 1);
    assert_eq!(chunks[0].vertices, vertices);
    assert_eq!(chunks[0].indices, vec![3, 3]);
}

#[test]
fn nothing_in_is_one_empty_chunk_out() {
    let chunks = split_into_chunks::<f32>(&[], &[], 6, 3).unwrap();
    assert_eq!(chunks, vec![GeometryChunk { vertices: vec![], indices: vec![] }]);
}

#[test]
fn limit_is_what_sixteen_bits_address() {
    assert_eq!(CHUNK_VERTEX_LIMIT, 65536);
    assert_eq!(CHUNK_VERTEX_LIMIT - 1, u16::MAX as usize);
}

#[test]
fn exactly_the_limit_is_still_one_chunk() {
    let vertices: Vec<u32> = (0..65536).collect();
    let indices = vec![65535, 0, 65535];
    let chunks = split_into_chunks(&vertices, &indices, 1, 3).unwrap();
    assert_eq!(chunks.len(), 1);
    assert_eq!(chunks[0].vertices.len(), 65536);
    assert_eq!(chunks[0].indices, vec![65535, 0, 65535]);
}

#[test]
fn one_vertex_more_than_the_limit_is_dealt_out() {
    let vertices: Vec<u32> = (0..65537).collect();
    let indices = vec![65536, 0, 65536];
    let chunks = split_into_chunks(&vertices, &indices, 1, 3).unwrap();
    assert_eq!(chunks, vec![GeometryChunk { vertices: vec![65536, 0], indices: vec![0, 1, 0] }]);
}

#[test]
fn large_strip_is_split_where_the_next_triangle_might_not_fit() {
    let count = 70000;
    let vertices: Vec<u32> = (0..2 * count as u32).collect();
    let indices = strip(count);
    let chunks = split_into_chunks(&vertices, &indices, 2, 3).unwrap();
    assert_eq!(chunks.len(), 2);
    assert_eq!(chunks[0].vertices.len(), 2 * 65534);
    assert_eq!(chunks[0].indices.len(), 3 * 65532);
    assert_eq!(chunks[1].vertices.len(), 2 * 4468);
    assert_eq!(chunks[1].indices.len(), 3 * 4466);
    assert_eq!(&chunks[0].indices[0..6], &[0, 1, 2, 1, 2, 3]);
    assert_eq!(&chunks[0].indices[3 * 65531..], &[65531, 65532, 65533]);
    assert_eq!(&chunks[1].indices[0..6], &[0, 1, 2, 1, 2, 3]);
    assert_eq!(&chunks[1].vertices[0..4], &[2 * 65532, 2 * 65532 + 1, 2 * 65533, 2 * 65533 + 1]);
    assert_eq!(&chunks[0].vertices[2 * 65532..], &[2 * 65532, 2 * 65532 + 1, 2 * 65533, 2 * 65533 + 1]);
}

#[test]
fn chunks_lose_nothing_and_fit() {
    let count = 140000;
    let stride = 3;
    let vertices: Vec<f32> = (0..stride * count).map(|i| i as f32 * 0.5).collect();
    let mut indices = strip(count);
    indices.extend_from_slice(&[0, 139999, 70000, 5, 5, 5]);
    let chunks = split_into_chunks(&vertices, &indices, stride, 3).unwrap();
    assert_eq!(chunks.len(), 3);
    let mut flat = vec![];
    let mut held = 0;
    for chunk in &chunks {
        assert_eq!(chunk.vertices.len() % stride, 0);
        let n = chunk.vertices.len() / stride;
        assert!(n <= CHUNK_VERTEX_LIMIT);
        assert!(chunk.indices.len() % 3 == 0 && !chunk.indices.is_empty());
        assert!(chunk.indices.iter().all(|&i| (i as usize) < n));
        held += n;
        flat.extend(expand(chunk, stride));
    }
    let mut named = vec![];
    for &i in &indices {
        named.extend_from_slice(&vertices[i * stride..(i + 1) * stride]);
    }
    assert_eq!(flat, named);
    assert!(held >= count);
    assert_eq!(held, 65534 + 65534 + 8936 + 3);
}

#[test]
fn a_vertex_is_held_once_in_each_chunk_that_names_it() {
    let count = 66000;
    let vertices: Vec<u32> = (0..count as u32).collect();
    let mut indices = vec![];
    for i in 0..count / 2 {
        indices.push(7);
        indices.push(2 * i);
        indices.push(7);
        indices.push(2 * i + 1);
    }
    let chunks = split_into_chunks(&vertices, &indices, 1, 2).unwrap();
    assert_eq!(chunks.len(), 2);
    for chunk in &chunks {
        assert_eq!(chunk.vertices.iter().filter(|&&v| v == 7).count(), 1);
        let mut seen = chunk.vertices.clone();
        seen.sort();
        seen.dedup();
        assert_eq!(seen.len(), chunk.vertices.len());
    }
    assert_eq!(chunks[0].vertices.len(), 65535);
    assert_eq!(&chunks[0].indices[0..4], &[0, 1, 0, 2]);
    assert_eq!(chunks[1].vertices[0], 7);
    let total: usize = chunks.iter().map(|c| c.vertices.len()).sum();
    assert_eq!(total, count + 1);
}

#[test]
fn splitting_gives_the_same_chunks_each_time() {
    let vertices: Vec<u32> = (0..70000).collect();
    let indices = strip(70000);
    let a = split_into_chunks(&vertices, &indices, 1, 3).unwrap();
    let b = split_into_chunks(&vertices, &indices, 1, 3).unwrap();
    assert_eq!(a, b);
}

#[test]
fn index_that_names_no_vertex_is_refused() {
    let vertices: Vec<f32> = vec![0.0; 18];
    assert_eq!(split_into_chunks(&vertices, &[0, 1, 3], 6, 3).err(), Some(MeshError::MalformedIndex));
    assert_eq!(split_into_chunks(&vertices, &[0, 1, 2], 6, 3).err(), None);
    assert_eq!(split_into_chunks(&vertices, &[0, 5], 3, 2).err(), None);
    assert_eq!(split_into_chunks(&vertices, &[0, 6], 3, 2).err(), Some(MeshError::MalformedIndex));
    let large: Vec<u32> = (0..70000).collect();
    assert_eq!(split_into_chunks(&large, &[0, 70000], 1, 2).err(), Some(MeshError::MalformedIndex));
    assert!(!check_indices(&large, &[0, 70000], 1));
    assert!(check_indices(&large, &[0, 69999], 1));
    assert!(check_indices(&large, &[0, 34999], 2));
    assert!(!check_indices(&large, &[0, 35000], 2));
}

#[test]
fn too_many_vertices_for_a_single_chunk_are_refused() {
    let vertices: Vec<u32> = (0..65537).collect();
    assert_eq!(single_chunk(&vertices, &[0, 1, 2], 1).err(), Some(MeshError::IndexSpaceExceeded));
    assert_eq!(
        single_chunk(&vertices, &[0, 1, 99999], 1).err(),
        Some(MeshError::IndexSpaceExceeded)
    );
    let chunk = single_chunk(&vertices, &[0, 1, 32767], 2).unwrap();
    assert_eq!(chunk.indices, vec![0, 1, 32767]);
    assert_eq!(chunk.vertices, vertices);
    assert_eq!(single_chunk(&vertices, &[0, 1, 32768], 2).err(), Some(MeshError::MalformedIndex));
}

#[test]
fn primitives_are_dealt_out_in_their_order() {
    let vertices: Vec<u32> = vec![10, 11, 20, 21, 30, 31, 40, 41];
    let chunks = deal_out(&vertices, &[3, 1, 3, 0], 2, 2);
    assert_eq!(
        chunks,
        vec![GeometryChunk { vertices: vec![40, 41, 20, 21, 10, 11], indices: vec![0, 1, 0, 2] }]
    );
    assert_eq!(deal_out(&vertices, &[], 2, 2), vec![]);
}

#[test]
fn a_primitive_as_large_as_the_limit_fills_a_chunk() {
    let vertices: Vec<u32> = (0..65536).collect();
    let mut indices: Vec<usize> = (0..65536).collect();
    indices.extend(0..65536);
    let chunks = deal_out(&vertices, &indices, 1, 65536);
    assert_eq!(chunks.len(), 2);
    assert_eq!(chunks[0].vertices.len(), 65536);
    assert_eq!(chunks[0].indices[65535], 65535);
    assert_eq!(chunks[0], chunks[1]);
}
