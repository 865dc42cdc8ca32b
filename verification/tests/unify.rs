use objmesh::error::MeshError;
use objmesh::mesh::{Face, Vec3, Vertex};
use objmesh::parser::{
    contains_slash, read_composite_corner, read_corner, read_face, read_line, read_simple_corner,
    read_triple, FaceSyntax, ObjCorner, ObjData,
};
use objmesh::text::Span;
use objmesh::unify::{check_face, check_faces, plain, unify};

fn v(x: i32, y: i32, z: i32) -> Vec3<i32> {
    Vec3 { x, y, z }
}

fn simple(position: i64) -> ObjCorner {
    ObjCorner { position, normal: None }
}

fn composite(position: i64, normal: i64) -> ObjCorner {
    ObjCorner { position, normal: Some(normal) }
}

fn nothing() -> ObjData {
    ObjData { positions: vec![], normals: vec![], faces: vec![], syntax: None }
}

#[test]
fn corners_of_a_face_are_looked_at() {
    assert_eq!(check_face(&vec![simple(0), simple(1)], 2, 0), (false, true, true));
    assert_eq!(check_face(&vec![simple(0), simple(2)], 2, 0), (false, true, false));
    assert_eq!(check_face(&vec![simple(-1), simple(1)], 2, 0), (false, true, false));
    assert_eq!(check_face(&vec![composite(0, 0), composite(1, 1)], 2, 2), (true, false, true));
    assert_eq!(check_face(&vec![composite(0, 0), composite(1, 2)], 2, 2), (true, false, false));
    assert_eq!(check_face(&vec![composite(0, -1)], 2, 2), (true, false, false));
    assert_eq!(check_face(&vec![composite(0, 0), simple(1)], 2, 2), (false, false, true));
    assert_eq!(check_face(&vec![], 0, 0), (true, true, true));
}

#[test]
fn faces_are_checked_in_a_fixed_order() {
    let good = vec![vec![simple(0), simple(1), simple(2)]];
    assert_eq!(check_faces(&good, 3, 0), Ok(false));
    let with = vec![vec![composite(0, 0), composite(1, 0), composite(2, 0)]];
    assert_eq!(check_faces(&with, 3, 1), Ok(true));
    assert_eq!(check_faces(&vec![], 0, 0), Ok(true));
    assert_eq!(check_faces(&with, 3, 0), Err(MeshError::MalformedIndex));
    let short_and_far = vec![vec![simple(0), simple(9)]];
    assert_eq!(check_faces(&short_and_far, 3, 0), Err(MeshError::DegenerateFace));
    let all_wrong = vec![vec![simple(9)], vec![composite(0, 0)]];
    assert_eq!(check_faces(&all_wrong, 3, 0), Err(MeshError::MixedFaceSyntax));
    let mixed_across_faces = vec![good[0].clone(), with[0].clone()];
    assert_eq!(check_faces(&mixed_across_faces, 3, 1), Err(MeshError::MixedFaceSyntax));
}

#[test]
fn plain_faces_keep_their_indices() {
    let positions = vec![v(1, 2, 3), v(4, 5, 6), v(7, 8, 9)];
    let faces = vec![vec![simple(2), simple(0), simple(1), simple(2)], vec![]];
    let (verts, out) = plain(&positions, &faces, -1);
    assert_eq!(
        verts,
        vec![
            Vertex { pos: v(1, 2, 3), normal: v(-1, -1, -1) },
            Vertex { pos: v(4, 5, 6), normal: v(-1, -1, -1) },
            Vertex { pos: v(7, 8, 9), normal: v(-1, -1, -1) },
        ]
    );
    assert_eq!(out, vec![Face { verts: vec![2, 0, 1, 2] }, Face { verts: vec![] }]);
}

#[test]
fn unified_vertices_come_in_the_order_of_their_first_use() {
    let positions = vec![v(1, 2, 3), v(4, 5, 6), v(7, 8, 9)];
    let normals = vec![v(0, 0, 1), v(0, 1, 0)];
    let faces = vec![
        vec![composite(2, 1), composite(0, 0), composite(2, 0)],
        vec![composite(2, 0), composite(2, 1), composite(1, 1), composite(0, 0)],
    ];
    let (verts, out) = unify(&positions, &normals, &faces);
    assert_eq!(
        verts,
        vec![
            Vertex { pos: v(7, 8, 9), normal: v(0, 1, 0) },
            Vertex { pos: v(1, 2, 3), normal: v(0, 0, 1) },
            Vertex { pos: v(7, 8, 9), normal: v(0, 0, 1) },
            Vertex { pos: v(4, 5, 6), normal: v(0, 1, 0) },
        ]
    );
    assert_eq!(out, vec![Face { verts: vec![0, 1, 2] }, Face { verts: vec![2, 0, 3, 1] }]);
}

#[test]
fn keys_of_corners_do_not_collide() {
    let positions = vec![v(0, 0, 0); 3];
    let normals = vec![v(0, 0, 1); 3];
    let faces = vec![vec![
        composite(0, 1),
        composite(1, 0),
        composite(0, 2),
        composite(2, 0),
        composite(1, 1),
        composite(0, 1),
    ]];
    let (verts, out) = unify(&positions, &normals, &faces);
    assert_eq!(verts.len(), 5);
    assert_eq!(out, vec![Face { verts: vec![0, 1, 2, 3, 4, 0] }]);
}

#[test]
fn corners_are_read_in_both_syntaxes() {
    assert_eq!(read_simple_corner(b"7"), Some(simple(6)));
    assert_eq!(read_simple_corner(b"7/7/7"), None);
    assert_eq!(read_composite_corner(b"7/8/9"), Some(composite(6, 8)));
    assert_eq!(read_composite_corner(b"7//9"), Some(composite(6, 8)));
    assert_eq!(read_composite_corner(b"-7//+9"), Some(composite(-8, 8)));
    assert_eq!(read_composite_corner(b"7"), None);
    assert_eq!(read_composite_corner(b"7/9"), None);
    assert_eq!(read_composite_corner(b"7/8/9/"), None);
    assert_eq!(read_composite_corner(b"//"), None);
    assert_eq!(read_corner(b"3", FaceSyntax::Simple), Some(simple(2)));
    assert_eq!(read_corner(b"3", FaceSyntax::Composite), None);
    assert_eq!(read_corner(b"3/2/1", FaceSyntax::Composite), Some(composite(2, 0)));
    assert_eq!(read_corner(b"3/2/1", FaceSyntax::Simple), None);
}

#[test]
fn slashes_are_found_within_a_line_only() {
    let text = b"f 1 2 3\nf 1/1/1";
    assert!(!contains_slash(text, 0, 7));
    assert!(contains_slash(text, 8, text.len()));
    assert!(contains_slash(text, 0, text.len()));
    assert!(!contains_slash(text, 11, 11));
}

#[test]
fn numbers_and_corners_are_read_from_words() {
    let text = b"v 1.5 -2 3e1 x";
    let words = vec![
        Span { start: 0, end: 1 },
        Span { start: 2, end: 5 },
        Span { start: 6, end: 8 },
        Span { start: 9, end: 12 },
        Span { start: 13, end: 14 },
    ];
    assert_eq!(read_triple(text, &words), Some(Vec3 { x: words[1], y: words[2], z: words[3] }));
    assert_eq!(read_triple(text, &words[1..].to_vec()), None);
    assert_eq!(read_triple(text, &words[..3].to_vec()), None);
    let face = b"f 3 2 1";
    let words = vec![
        Span { start: 0, end: 1 },
        Span { start: 2, end: 3 },
        Span { start: 4, end: 5 },
        Span { start: 6, end: 7 },
    ];
    assert_eq!(read_face(face, &words, FaceSyntax::Simple), Some(vec![simple(2), simple(1), simple(0)]));
    assert_eq!(read_face(face, &words, FaceSyntax::Composite), None);
    assert_eq!(read_face(face, &words[..1].to_vec(), FaceSyntax::Simple), Some(vec![]));
}

#[test]
fn lines_are_read_one_by_one() {
    let text = b"vn 0 0 1\nf 1//1 1//1 1//1\nf 1 1 1";
    let mut words = vec![];
    let data = read_line(text, 0, 8, &mut words, nothing()).unwrap();
    assert_eq!(data.normals, vec![Vec3 {
        x: Span { start: 3, end: 4 },
        y: Span { start: 5, end: 6 },
        z: Span { start: 7, end: 8 },
    }]);
    assert_eq!(data.syntax, None);
    let data = read_line(text, 9, 25, &mut words, data).unwrap();
    assert_eq!(data.syntax, Some(FaceSyntax::Composite));
    assert_eq!(data.faces, vec![vec![composite(0, 0); 3]]);
    assert_eq!(data.normals.len(), 1);
    assert_eq!(read_line(text, 26, 33, &mut words, data).err(), Some(MeshError::MixedFaceSyntax));
    let data = read_line(text, 26, 33, &mut words, nothing()).unwrap();
    assert_eq!(data.faces, vec![vec![simple(0); 3]]);
    let data = read_line(text, 8, 9, &mut words, data).unwrap();
    assert_eq!(data.faces.len(), 1);
}
