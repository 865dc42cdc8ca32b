use objmesh::chunks::GeometryChunk;
use objmesh::error::MeshError;
use objmesh::mesh::{Mesh, Vec3};
use objmesh::parser::ObjCorner;
use objmesh::shading::ShadingType;

fn v(x: f32, y: f32, z: f32) -> Vec3<f32> {
    Vec3 { x, y, z }
}

fn face(corners: &[i64]) -> Vec<ObjCorner> {
    corners.iter().map(|&position| ObjCorner { position, normal: None }).collect()
}

fn square() -> Mesh<f32> {
    let positions = vec![v(0.0, 0.0, 0.0), v(1.0, 0.0, 0.0), v(1.0, 1.0, 0.0), v(0.0, 1.0, 0.0)];
    Mesh::assemble(&positions, &vec![], &vec![face(&[0, 1, 2]), face(&[0, 2, 3])], 0.0).unwrap()
}

#[test]
fn shadings_are_known_by_name() {
    assert_eq!(ShadingType::from_name("smooth"), Some(ShadingType::Smooth));
    assert_eq!(ShadingType::from_name("flat"), Some(ShadingType::Flat));
    assert_eq!(ShadingType::from_name("wireframe"), Some(ShadingType::Wireframe));
    assert_eq!(ShadingType::from_name("Smooth"), None);
    assert_eq!(ShadingType::from_name("flat "), None);
    assert_eq!(ShadingType::from_name("wire"), None);
    assert_eq!(ShadingType::from_name("smoothh"), None);
    assert_eq!(ShadingType::from_name(""), None);
}

#[test]
fn layout_follows_the_shading() {
    assert_eq!(ShadingType::Smooth.values_per_vertex(), 6);
    assert_eq!(ShadingType::Flat.values_per_vertex(), 6);
    assert_eq!(ShadingType::Wireframe.values_per_vertex(), 3);
    assert_eq!(ShadingType::Smooth.primitive_size(), 3);
    assert_eq!(ShadingType::Flat.primitive_size(), 3);
    assert_eq!(ShadingType::Wireframe.primitive_size(), 2);
}

#[test]
fn shaded_buffers_are_those_of_the_shading() {
    let mesh = square();
    let normals = vec![v(0.0, 0.0, 1.0), v(0.0, 0.0, 2.0)];
    assert_eq!(
        mesh.create_shaded_buffers(ShadingType::Smooth, &normals, 0.0),
        mesh.create_primitive_buffers()
    );
    assert_eq!(
        mesh.create_shaded_buffers(ShadingType::Flat, &normals, 0.0),
        mesh.create_primitive_buffers_flatshaded(&normals, 0.0)
    );
    assert_eq!(
        mesh.create_shaded_buffers(ShadingType::Wireframe, &normals, 0.0),
        mesh.create_primitive_buffers_wireframe()
    );
    assert_eq!(
        mesh.create_shaded_buffers(ShadingType::Flat, &normals, 0.0).unwrap().1,
        vec![0, 1, 2, 0, 2, 3]
    );
}

#[test]
fn chunks_of_a_small_mesh_are_its_buffers() {
    let mesh = square();
    let normals = vec![v(0.0, 0.0, 1.0), v(0.0, 0.0, 2.0)];
    let chunks = mesh.create_chunks(ShadingType::Wireframe, &normals, 0.0).unwrap();
    assert_eq!(
        chunks,
        vec![GeometryChunk {
            vertices: vec![0.0, 0.0, 0.0, 1.0, 0.0, 0.0, 1.0, 1.0, 0.0, 0.0, 1.0, 0.0],
            indices: vec![0, 1, 1, 2, 2, 0, 2, 3, 3, 0],
        }]
    );
    let chunks = mesh.create_chunks(ShadingType::Flat, &normals, 0.0).unwrap();
    assert_eq!(chunks.len(), 1);
    assert_eq!(chunks[0].indices, vec![0, 1, 2, 0, 2, 3]);
    assert_eq!(&chunks[0].vertices[12..18], &[1.0, 1.0, 0.0, 0.0, 0.0, 1.0]);
    assert_eq!(&chunks[0].vertices[18..24], &[0.0, 1.0, 0.0, 0.0, 0.0, 2.0]);
}

#[test]
fn chunks_are_refused_before_triangulation() {
    let positions = vec![v(0.0, 0.0, 0.0); 4];
    let mesh = Mesh::assemble(&positions, &vec![], &vec![face(&[0, 1, 2, 3])], 0.0).unwrap();
    for shading in [ShadingType::Smooth, ShadingType::Flat, ShadingType::Wireframe] {
        assert_eq!(
            mesh.create_chunks(shading, &vec![v(0.0, 0.0, 1.0)], 0.0).err(),
            Some(MeshError::NotTriangulated)
        );
    }
}

#[test]
fn large_mesh_is_drawn_in_several_chunks() {
    let count = 70000;
    let positions: Vec<Vec3<f32>> = (0..count).map(|i| v(i as f32, 0.0, 1.0)).collect();
    let faces: Vec<Vec<ObjCorner>> =
        (0..count as i64 - 2).map(|i| face(&[i, i + 1, i + 2])).collect();
    let mesh = Mesh::assemble(&positions, &vec![], &faces, 0.0).unwrap();
    let chunks = mesh.create_chunks(ShadingType::Smooth, &vec![], 0.0).unwrap();
    assert_eq!(chunks.len(), 2);
    assert_eq!(chunks[0].vertices.len(), 6 * 65534);
    assert_eq!(chunks[1].vertices.len(), 6 * 4468);
    assert_eq!(&chunks[1].vertices[0..6], &[65532.0, 0.0, 1.0, 0.0, 0.0, 0.0]);
    let lines = mesh.create_chunks(ShadingType::Wireframe, &vec![], 0.0).unwrap();
    assert_eq!(lines.len(), 2);
    assert_eq!(&lines[0].indices[0..10], &[0, 1, 1, 2, 2, 0, 2, 3, 3, 1]);
    let edges: usize = lines.iter().map(|c| c.indices.len() / 2).sum();
    assert_eq!(edges, 2 * count - 3);
}

#[test]
fn errors_have_messages() {
    assert_eq!(MeshError::NotTriangulated.message(), "Mesh is not triangulated");
    let all = [
        MeshError::UnrecognizedRecord,
        MeshError::MixedFaceSyntax,
        MeshError::MalformedNumber,
        MeshError::MalformedIndex,
        MeshError::DegenerateFace,
        MeshError::NotTriangulated,
        MeshError::IndexSpaceExceeded,
    ];
    for (i, a) in all.iter().enumerate() {
        assert!(!a.message().is_empty());
        for b in &all[i + 1..] {
            assert_ne!(a.message(), b.message());
        }
    }
}
