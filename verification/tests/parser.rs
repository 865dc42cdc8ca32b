use objmesh::error::MeshError;
use objmesh::parser::{parse_bytes, parse_obj, FaceSyntax, ObjCorner};
use objmesh::text::Span;

fn word(text: &str, span: Span) -> &str {
    &text[span.start..span.end]
}

fn simple(position: i64) -> ObjCorner {
    ObjCorner { position, normal: None }
}

fn composite(position: i64, normal: i64) -> ObjCorner {
    ObjCorner { position, normal: Some(normal) }
}

#[test]
fn single_triangle_is_read() {
    let text = "v 0 0 0\nv 1 0 0\nv 0 1 0\nf 1 2 3\n";
    let data = parse_obj(text).unwrap();
    assert_eq!(data.positions.len(), 3);
    assert_eq!(data.normals.len(), 0);
    assert_eq!(word(text, data.positions[0].x), "0");
    assert_eq!(word(text, data.positions[1].x), "1");
    assert_eq!(word(text, data.positions[1].y), "0");
    assert_eq!(word(text, data.positions[2].y), "1");
    assert_eq!(data.positions[1].x, Span { start: 10, end: 11 });
    assert_eq!(data.syntax, Some(FaceSyntax::Simple));
    assert_eq!(data.faces, vec![vec![simple(0), simple(1), simple(2)]]);
}

#[test]
fn quad_face_is_read_as_one_face() {
    let text = "v 0 0 0\nv 1 0 0\nv 1 1 0\nv 0 1 0\nf 1 2 3 4\n";
    let data = parse_obj(text).unwrap();
    assert_eq!(data.positions.len(), 4);
    assert_eq!(data.faces, vec![vec![simple(0), simple(1), simple(2), simple(3)]]);
}

#[test]
fn composite_faces_are_read() {
    let text = "v 0 0 0\nv 1 0 0\nv 0 1 0\nvn 0 0 1\nvn 0 1 0\nf 1/7/1 2//1 3/x/2\n";
    let data = parse_obj(text).unwrap();
    assert_eq!(data.normals.len(), 2);
    assert_eq!(word(text, data.normals[1].y), "1");
    assert_eq!(data.syntax, Some(FaceSyntax::Composite));
    assert_eq!(data.faces, vec![vec![composite(0, 0), composite(1, 0), composite(2, 1)]]);
}

#[test]
fn mixed_syntax_is_refused() {
    let text = "v 0 0 0\nv 1 0 0\nv 0 1 0\nvn 0 0 1\nf 1 2 3\nf 1/1/1 2/2/2 3/3/3\n";
    assert_eq!(parse_obj(text).err(), Some(MeshError::MixedFaceSyntax));
}

#[test]
fn mixed_syntax_is_refused_in_the_other_order() {
    let text = "f 1/1/1 2/2/2 3/3/3\nf 1 2 3\n";
    assert_eq!(parse_obj(text).err(), Some(MeshError::MixedFaceSyntax));
}

#[test]
fn mixed_syntax_comes_before_a_bad_index() {
    let text = "f 1 2 3\nf 1/1/1 x 3/3/3\n";
    assert_eq!(parse_obj(text).err(), Some(MeshError::MixedFaceSyntax));
}

#[test]
fn blank_lines_and_comments_are_skipped() {
    let text = "\n# a comment\n   \n  # v 1 2 x\nv 1 2 3\r\n\n#f 1 2 3\n";
    let data = parse_obj(text).unwrap();
    assert_eq!(data.positions.len(), 1);
    assert_eq!(word(text, data.positions[0].z), "3");
    assert_eq!(data.faces.len(), 0);
    assert_eq!(data.syntax, None);
}

#[test]
fn empty_text_declares_nothing() {
    let data = parse_obj("").unwrap();
    assert_eq!(data.positions.len(), 0);
    assert_eq!(data.normals.len(), 0);
    assert_eq!(data.faces.len(), 0);
    assert_eq!(data.syntax, None);
}

#[test]
fn last_line_needs_no_line_feed() {
    let text = "v 1 2 3\nv 4 5 6";
    let data = parse_obj(text).unwrap();
    assert_eq!(data.positions.len(), 2);
    assert_eq!(word(text, data.positions[1].z), "6");
}

#[test]
fn words_may_be_parted_by_tabs_and_runs_of_spaces() {
    let text = "  v\t1.5   -2e3 \t .25  \nf  1   1  1\n";
    let data = parse_obj(text).unwrap();
    assert_eq!(word(text, data.positions[0].x), "1.5");
    assert_eq!(word(text, data.positions[0].y), "-2e3");
    assert_eq!(word(text, data.positions[0].z), ".25");
    assert_eq!(data.faces, vec![vec![simple(0), simple(0), simple(0)]]);
}

#[test]
fn what_follows_the_third_number_is_not_read() {
    let text = "v 1 2 3 junk\n";
    let data = parse_obj(text).unwrap();
    assert_eq!(data.positions.len(), 1);
}

#[test]
fn unknown_record_is_refused() {
    assert_eq!(parse_obj("v 0 0 0\ng group\n").err(), Some(MeshError::UnrecognizedRecord));
    assert_eq!(parse_obj("vt 0 0\n").err(), Some(MeshError::UnrecognizedRecord));
    assert_eq!(parse_obj("vv 0 0 0\n").err(), Some(MeshError::UnrecognizedRecord));
    assert_eq!(parse_obj("usemtl m\n").err(), Some(MeshError::UnrecognizedRecord));
}

#[test]
fn missing_number_is_refused() {
    assert_eq!(parse_obj("v 1 2\n").err(), Some(MeshError::MalformedNumber));
    assert_eq!(parse_obj("v\n").err(), Some(MeshError::MalformedNumber));
    assert_eq!(parse_obj("vn 1 2\n").err(), Some(MeshError::MalformedNumber));
}

#[test]
fn bad_number_is_refused() {
    assert_eq!(parse_obj("v 1 2 x\n").err(), Some(MeshError::MalformedNumber));
    assert_eq!(parse_obj("v 1 . 3\n").err(), Some(MeshError::MalformedNumber));
    assert_eq!(parse_obj("v 1e 2 3\n").err(), Some(MeshError::MalformedNumber));
    assert_eq!(parse_obj("vn 0 0 1f\n").err(), Some(MeshError::MalformedNumber));
    assert_eq!(parse_obj("v 1,5 2 3\n").err(), Some(MeshError::MalformedNumber));
}

#[test]
fn bad_index_is_refused() {
    assert_eq!(parse_obj("f 1 2 x\n").err(), Some(MeshError::MalformedIndex));
    assert_eq!(parse_obj("f 1 2 3.0\n").err(), Some(MeshError::MalformedIndex));
    assert_eq!(parse_obj("f 1 2 99999999999\n").err(), Some(MeshError::MalformedIndex));
    assert_eq!(parse_obj("f 1/1 2/2 3/3\n").err(), Some(MeshError::MalformedIndex));
    assert_eq!(parse_obj("f 1/1/1/1 2/2/2 3/3/3\n").err(), Some(MeshError::MalformedIndex));
    assert_eq!(parse_obj("f 1/1/1 2 3/3/3\n").err(), Some(MeshError::MalformedIndex));
    assert_eq!(parse_obj("f 1// 2//2 3//3\n").err(), Some(MeshError::MalformedIndex));
    assert_eq!(parse_obj("f /1/1 2/2/2 3/3/3\n").err(), Some(MeshError::MalformedIndex));
}

#[test]
fn bad_index_comes_before_too_few_corners() {
    assert_eq!(parse_obj("f 1 x\n").err(), Some(MeshError::MalformedIndex));
}

#[test]
fn face_with_two_corners_is_refused() {
    assert_eq!(parse_obj("f 1 2\n").err(), Some(MeshError::DegenerateFace));
    assert_eq!(parse_obj("f\n").err(), Some(MeshError::DegenerateFace));
    assert_eq!(parse_obj("f 1/1/1 2/2/2\n").err(), Some(MeshError::DegenerateFace));
}

#[test]
fn indices_are_counted_from_zero() {
    let data = parse_obj("f 1 0 -1 +7\n").unwrap();
    assert_eq!(data.faces, vec![vec![simple(0), simple(-1), simple(-2), simple(6)]]);
}

#[test]
fn extreme_indices_are_kept_exactly() {
    let data = parse_obj("f 2147483647 -2147483648 1\n").unwrap();
    assert_eq!(data.faces, vec![vec![simple(2147483646), simple(-2147483649), simple(0)]]);
    assert_eq!(parse_obj("f 2147483648 1 1\n").err(), Some(MeshError::MalformedIndex));
    assert_eq!(parse_obj("f -2147483649 1 1\n").err(), Some(MeshError::MalformedIndex));
}

#[test]
fn nothing_is_kept_of_a_refused_text() {
    let text = "v 0 0 0\nv 1 0 0\nv 0 1 0\nf 1 2 3\nbogus\nv 1 1 1\n";
    assert_eq!(parse_obj(text).err(), Some(MeshError::UnrecognizedRecord));
}

#[test]
fn bytes_and_text_are_read_alike() {
    let text = "v 0 0 0\nv 1 0 0\nv 0 1 0\nf 3 2 1\n";
    let a = parse_obj(text).unwrap();
    let b = parse_bytes(text.as_bytes()).unwrap();
    assert_eq!(a.positions, b.positions);
    assert_eq!(a.faces, b.faces);
    assert_eq!(a.faces, vec![vec![simple(2), simple(1), simple(0)]]);
}
