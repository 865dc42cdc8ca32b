use objmesh::error::MeshError;
use objmesh::mesh::{Face, Mesh, Vec3, Vertex};
use objmesh::parser::{parse_obj, ObjCorner, ObjData};
use objmesh::text::Span;

fn number(text: &str, span: Span) -> f32 {
    text[span.start..span.end].parse::<f32>().unwrap()
}

fn triples(text: &str, spans: &Vec<Vec3<Span>>) -> Vec<Vec3<f32>> {
    spans
        .iter()
        .map(|t| Vec3 { x: number(text, t.x), y: number(text, t.y), z: number(text, t.z) })
        .collect()
}

fn load(text: &str) -> Result<Mesh<f32>, MeshError> {
    let data: ObjData = parse_obj(text)?;
    Mesh::assemble(&triples(text, &data.positions), &triples(text, &data.normals), &data.faces, 0.0)
}

fn v(x: f32, y: f32, z: f32) -> Vec3<f32> {
    Vec3 { x, y, z }
}

fn simple(position: i64) -> ObjCorner {
    ObjCorner { position, normal: None }
}

fn composite(position: i64, normal: i64) -> ObjCorner {
    ObjCorner { position, normal: Some(normal) }
}

fn corners(mesh: &Mesh<f32>) -> Vec<Vec<usize>> {
    mesh.faces().iter().map(|f| f.verts.clone()).collect()
}

#[test]
fn single_triangle_becomes_a_mesh() {
    let mesh = load("v 0 0 0\nv 1 0 0\nv 0 1 0\nf 1 2 3\n").unwrap();
    assert_eq!(
        mesh.verts(),
        &vec![
            Vertex { pos: v(0.0, 0.0, 0.0), normal: v(0.0, 0.0, 0.0) },
            Vertex { pos: v(1.0, 0.0, 0.0), normal: v(0.0, 0.0, 0.0) },
            Vertex { pos: v(0.0, 1.0, 0.0), normal: v(0.0, 0.0, 0.0) },
        ]
    );
    assert_eq!(mesh.faces(), &vec![Face { verts: vec![0, 1, 2] }]);
    assert!(mesh.is_triangulated());
    assert_eq!(mesh.bb_min(), v(0.0, 0.0, 0.0));
    assert_eq!(mesh.bb_max(), v(0.0, 0.0, 0.0));
    let (vertices, indices) = mesh.create_primitive_buffers().unwrap();
    assert_eq!(vertices.len(), 3 * 6);
    assert_eq!(indices, vec![0, 1, 2]);
}

#[test]
fn quad_is_triangulated_as_a_fan() {
    let mut mesh = load("v 0 0 0\nv 1 0 0\nv 1 1 0\nv 0 1 0\nf 1 2 3 4\n").unwrap();
    assert!(!mesh.is_triangulated());
    assert_eq!(corners(&mesh), vec![vec![0, 1, 2, 3]]);
    assert_eq!(mesh.triangulate_faces(), Ok(()));
    assert!(mesh.is_triangulated());
    assert_eq!(corners(&mesh), vec![vec![0, 1, 2], vec![0, 2, 3]]);
    assert_eq!(mesh.verts().len(), 4);
}

#[test]
fn hexagon_gives_four_triangles() {
    let faces = vec![vec![simple(5), simple(4), simple(3), simple(2), simple(1), simple(0)]];
    let positions = vec![v(0.0, 0.0, 0.0); 6];
    let mut mesh = Mesh::assemble(&positions, &vec![], &faces, 0.0).unwrap();
    mesh.triangulate_faces().unwrap();
    assert_eq!(corners(&mesh), vec![vec![5, 4, 3], vec![5, 3, 2], vec![5, 2, 1], vec![5, 1, 0]]);
}

#[test]
fn triangulation_keeps_triangles_and_their_order() {
    let faces = vec![
        vec![simple(0), simple(1), simple(2)],
        vec![simple(0), simple(1), simple(2), simple(3), simple(4)],
        vec![simple(4), simple(3), simple(2)],
    ];
    let positions = vec![v(0.0, 0.0, 0.0); 5];
    let mut mesh = Mesh::assemble(&positions, &vec![], &faces, 0.0).unwrap();
    mesh.triangulate_faces().unwrap();
    let after = corners(&mesh);
    assert_eq!(
        after,
        vec![vec![0, 1, 2], vec![0, 1, 2], vec![0, 2, 3], vec![0, 3, 4], vec![4, 3, 2]]
    );
    let total: usize = after.iter().map(|f| f.len()).sum();
    assert_eq!(total, 3 * after.len());
    for t in &after {
        assert!(t[0] != t[1] && t[1] != t[2] && t[0] != t[2]);
    }
    mesh.triangulate_faces().unwrap();
    assert_eq!(corners(&mesh), after);
}

#[test]
fn composite_corners_are_unified() {
    let text = "v 0 0 0\nv 1 0 0\nv 0 1 0\nv 1 1 0\nvn 0 0 1\nvn 0 1 0\n\
                f 1//1 2//1 3//1\nf 2//2 4//2 3//1\n";
    let mesh = load(text).unwrap();
    assert_eq!(corners(&mesh), vec![vec![0, 1, 2], vec![3, 4, 2]]);
    assert_eq!(
        mesh.verts(),
        &vec![
            Vertex { pos: v(0.0, 0.0, 0.0), normal: v(0.0, 0.0, 1.0) },
            Vertex { pos: v(1.0, 0.0, 0.0), normal: v(0.0, 0.0, 1.0) },
            Vertex { pos: v(0.0, 1.0, 0.0), normal: v(0.0, 0.0, 1.0) },
            Vertex { pos: v(1.0, 0.0, 0.0), normal: v(0.0, 1.0, 0.0) },
            Vertex { pos: v(1.0, 1.0, 0.0), normal: v(0.0, 1.0, 0.0) },
        ]
    );
    assert!(mesh.is_triangulated());
}

#[test]
fn same_pair_same_vertex_other_normal_other_vertex() {
    let positions = vec![v(1.0, 2.0, 3.0), v(4.0, 5.0, 6.0)];
    let normals = vec![v(0.0, 0.0, 1.0), v(0.0, 1.0, 0.0)];
    let faces = vec![
        vec![composite(0, 0), composite(1, 0), composite(0, 1)],
        vec![composite(0, 1), composite(0, 0), composite(1, 1)],
    ];
    let mesh = Mesh::assemble(&positions, &normals, &faces, 0.0).unwrap();
    let f = corners(&mesh);
    assert_eq!(f, vec![vec![0, 1, 2], vec![2, 0, 3]]);
    assert_eq!(f[0][0], f[1][1]);
    assert_eq!(f[0][2], f[1][0]);
    assert_ne!(f[0][0], f[0][2]);
    assert_eq!(mesh.verts()[0].pos, mesh.verts()[2].pos);
    assert_ne!(mesh.verts()[0].normal, mesh.verts()[2].normal);
    assert_eq!(mesh.verts().len(), 4);
}

#[test]
fn texture_index_does_not_tell_vertices_apart() {
    let text = "v 0 0 0\nv 1 0 0\nv 0 1 0\nvn 0 0 1\nf 1/1/1 2/1/1 3/1/1\nf 1/2/1 2/3/1 3/4/1\n";
    let mesh = load(text).unwrap();
    assert_eq!(corners(&mesh), vec![vec![0, 1, 2], vec![0, 1, 2]]);
    assert_eq!(mesh.verts().len(), 3);
}

#[test]
fn positions_that_no_composite_face_names_are_left_out() {
    let text = "v 9 9 9\nv 0 0 0\nv 1 0 0\nv 0 1 0\nvn 0 0 1\nf 2//1 3//1 4//1\n";
    let mesh = load(text).unwrap();
    assert_eq!(mesh.verts().len(), 3);
    assert_eq!(mesh.verts()[0].pos, v(0.0, 0.0, 0.0));
}

#[test]
fn text_without_faces_gives_an_empty_mesh() {
    let mesh = load("v 0 0 0\nv 1 0 0\n").unwrap();
    assert_eq!(mesh.verts().len(), 0);
    assert_eq!(mesh.faces().len(), 0);
    assert!(mesh.is_triangulated());
}

#[test]
fn simple_faces_keep_every_position() {
    let mesh = load("v 9 9 9\nv 0 0 0\nv 1 0 0\nv 0 1 0\nf 2 3 4\n").unwrap();
    assert_eq!(mesh.verts().len(), 4);
    assert_eq!(corners(&mesh), vec![vec![1, 2, 3]]);
}

#[test]
fn index_out_of_range_is_refused() {
    assert_eq!(load("v 0 0 0\nv 1 0 0\nv 0 1 0\nf 1 2 4\n").err(), Some(MeshError::MalformedIndex));
    assert_eq!(load("v 0 0 0\nv 1 0 0\nv 0 1 0\nf 0 1 2\n").err(), Some(MeshError::MalformedIndex));
    assert_eq!(load("v 0 0 0\nv 1 0 0\nv 0 1 0\nf 1 2 -1\n").err(), Some(MeshError::MalformedIndex));
    assert_eq!(
        load("v 0 0 0\nv 1 0 0\nv 0 1 0\nvn 0 0 1\nf 1//1 2//1 3//2\n").err(),
        Some(MeshError::MalformedIndex)
    );
    assert_eq!(
        load("v 0 0 0\nv 1 0 0\nv 0 1 0\nvn 0 0 1\nf 1//1 2//1 3//0\n").err(),
        Some(MeshError::MalformedIndex)
    );
}

#[test]
fn faces_given_by_hand_are_checked() {
    let positions = vec![v(0.0, 0.0, 0.0); 3];
    let normals = vec![v(0.0, 0.0, 1.0)];
    let mixed = vec![vec![simple(0), simple(1), composite(2, 0)]];
    assert_eq!(
        Mesh::assemble(&positions, &normals, &mixed, 0.0).err(),
        Some(MeshError::MixedFaceSyntax)
    );
    let mixed_and_short = vec![vec![simple(0), composite(2, 0)]];
    assert_eq!(
        Mesh::assemble(&positions, &normals, &mixed_and_short, 0.0).err(),
        Some(MeshError::MixedFaceSyntax)
    );
    let short = vec![vec![simple(0), simple(1), simple(2)], vec![simple(0), simple(7)]];
    assert_eq!(
        Mesh::assemble(&positions, &normals, &short, 0.0).err(),
        Some(MeshError::DegenerateFace)
    );
    let far = vec![vec![simple(0), simple(1), simple(3)]];
    assert_eq!(
        Mesh::assemble(&positions, &normals, &far, 0.0).err(),
        Some(MeshError::MalformedIndex)
    );
}

#[test]
fn vertices_and_box_can_be_set() {
    let mut mesh = load("v 0 0 0\nv 1 0 0\nv 0 1 0\nf 1 2 3\n").unwrap();
    mesh.set_position(1, v(5.0, 6.0, 7.0));
    mesh.set_normal(2, v(0.0, 0.0, 1.0));
    mesh.set_bounds(v(-1.0, -2.0, -3.0), v(1.0, 2.0, 3.0));
    assert_eq!(mesh.verts()[1], Vertex { pos: v(5.0, 6.0, 7.0), normal: v(0.0, 0.0, 0.0) });
    assert_eq!(mesh.verts()[2], Vertex { pos: v(0.0, 1.0, 0.0), normal: v(0.0, 0.0, 1.0) });
    assert_eq!(mesh.verts()[0], Vertex { pos: v(0.0, 0.0, 0.0), normal: v(0.0, 0.0, 0.0) });
    assert_eq!(mesh.bb_min(), v(-1.0, -2.0, -3.0));
    assert_eq!(mesh.bb_max(), v(1.0, 2.0, 3.0));
    assert_eq!(corners(&mesh), vec![vec![0, 1, 2]]);
}

#[test]
fn splat_repeats_one_value() {
    assert_eq!(Vec3::splat(2.5f32), v(2.5, 2.5, 2.5));
}
