use crate::mesh::Vec3;
use crate::parser::{
    after_line, after_lines, corner, empty_model, face_corners, number_triple, parse_spec,
    word_at, FaceSyntax, ObjCorner, ObjModel,
};
use crate::text::{is_number, lemma_until_bound, line_len, words, Span};
use crate::text_laws::{is_word, lemma_words};
use crate::unify::{face_with_normals, face_without_normals, mixed_corners};
use vstd::prelude::*;

verus! {

/// Whether a span marks a number in the text `s`.
pub open spec fn marks_number(s: Seq<u8>, t: Span) -> bool {
    t.start <= t.end <= s.len() && is_number(s.subrange(t.start as int, t.end as int))
}

/// Whether the three spans mark numbers in the text `s`.
pub open spec fn marks_numbers(s: Seq<u8>, v: Vec3<Span>) -> bool {
    marks_number(s, v.x) && marks_number(s, v.y) && marks_number(s, v.z)
}

/// Whether the corners of a face are written in the given syntax: with a normal each in
/// composite syntax, without one in simple syntax.
pub open spec fn face_written_in(face: Seq<ObjCorner>, syntax: FaceSyntax) -> bool {
    match syntax {
        FaceSyntax::Simple => face_without_normals(face),
        FaceSyntax::Composite => face_with_normals(face),
    }
}

/// What holds of everything that is read from the text `s`: coordinates are numbers of
/// the text, faces have three corners or more, and all faces are written in one syntax.
pub open spec fn well_read(data: ObjModel, s: Seq<u8>) -> bool {
    &&& forall|i: int|
        0 <= i < data.positions.len() ==> marks_numbers(s, #[trigger] data.positions[i])
    &&& forall|i: int| 0 <= i < data.normals.len() ==> marks_numbers(s, #[trigger] data.normals[i])
    &&& forall|f: int| 0 <= f < data.faces.len() ==> (#[trigger] data.faces[f]).len() >= 3
    &&& match data.syntax {
        None => data.faces.len() == 0,
        Some(syntax) => forall|f: int|
            0 <= f < data.faces.len() ==> face_written_in(#[trigger] data.faces[f], syntax),
    }
}

/// A line keeps what was read well read.
pub proof fn lemma_after_line_well_read(data: ObjModel, s: Seq<u8>, lo: int, hi: int)
    requires
        well_read(data, s),
        0 <= lo <= hi <= s.len(),
        s.len() <= usize::MAX,
    ensures
        after_line(data, s, lo, hi).is_ok() ==> well_read(after_line(data, s, lo, hi).unwrap(), s),
{
    let w = words(s, lo, hi);
    lemma_words(s, lo, hi);
    let r = after_line(data, s, lo, hi);
    if r.is_ok() {
        let next = r.unwrap();
        if w.len() == 0 || s[w[0].0] == 35 {
        } else if word_at(s, w[0]) == seq![118u8] {
            let p = number_triple(s, w).unwrap();
            assert(is_word(s, lo, hi, w[1].0, w[1].1));
            assert(is_word(s, lo, hi, w[2].0, w[2].1));
            assert(is_word(s, lo, hi, w[3].0, w[3].1));
            assert(marks_numbers(s, p));
            assert forall|i: int| 0 <= i < next.positions.len() implies marks_numbers(
                s,
                #[trigger] next.positions[i],
            ) by {
                if i < data.positions.len() {
                    assert(next.positions[i] == data.positions[i]);
                }
            }
        } else if word_at(s, w[0]) == seq![118u8, 110u8] {
            let p = number_triple(s, w).unwrap();
            assert(is_word(s, lo, hi, w[1].0, w[1].1));
            assert(is_word(s, lo, hi, w[2].0, w[2].1));
            assert(is_word(s, lo, hi, w[3].0, w[3].1));
            assert(marks_numbers(s, p));
            assert forall|i: int| 0 <= i < next.normals.len() implies marks_numbers(
                s,
                #[trigger] next.normals[i],
            ) by {
                if i < data.normals.len() {
                    assert(next.normals[i] == data.normals[i]);
                }
            }
        } else if word_at(s, w[0]) == seq![102u8] {
            let syntax = next.syntax.unwrap();
            let c = face_corners(s, w, syntax).unwrap();
            assert(face_written_in(c, syntax)) by {
                assert forall|k: int| 0 <= k < c.len() implies match syntax {
                    FaceSyntax::Simple => (#[trigger] c[k]).normal.is_none(),
                    FaceSyntax::Composite => c[k].normal.is_some(),
                } by {
                    assert(corner(word_at(s, w[k + 1]), syntax).is_some());
                }
            }
            assert forall|f: int| 0 <= f < next.faces.len() implies (#[trigger] next.faces[f]).len()
                >= 3 && face_written_in(next.faces[f], syntax) by {
                if f < data.faces.len() {
                    assert(next.faces[f] == data.faces[f]);
                }
            }
        }
    }
}

/// Lines keep what was read well read.
pub proof fn lemma_after_lines_well_read(data: ObjModel, s: Seq<u8>, i: int)
    requires
        well_read(data, s),
        s.len() <= usize::MAX,
    ensures
        after_lines(data, s, i).is_ok() ==> well_read(after_lines(data, s, i).unwrap(), s),
    decreases s.len() - i,
{
    if i < 0 || i >= s.len() {
    } else {
        let end = i + line_len(s, i);
        lemma_until_bound(s, 10, i);
        lemma_after_line_well_read(data, s, i, end);
        match after_line(data, s, i, end) {
            Err(e) => {},
            Ok(next) => {
                if end < s.len() {
                    lemma_after_lines_well_read(next, s, end + 1);
                }
            },
        }
    }
}

/// What is read from a text is well read: every coordinate is a number of the text, every
/// face has three corners or more, and no two faces differ in their syntax.
pub proof fn lemma_parse_well_read(s: Seq<u8>)
    requires
        s.len() <= usize::MAX,
    ensures
        parse_spec(s).is_ok() ==> well_read(parse_spec(s).unwrap(), s) && !mixed_corners(
            parse_spec(s).unwrap().faces,
        ),
{
    lemma_after_lines_well_read(empty_model(), s, 0);
    if parse_spec(s).is_ok() {
        let data = parse_spec(s).unwrap();
        match data.syntax {
            None => {},
            Some(FaceSyntax::Simple) => {
                assert forall|f: int| 0 <= f < data.faces.len() implies face_without_normals(
                    #[trigger] data.faces[f],
                ) by {
                    assert(face_written_in(data.faces[f], FaceSyntax::Simple));
                }
            },
            Some(FaceSyntax::Composite) => {
                assert forall|f: int| 0 <= f < data.faces.len() implies face_with_normals(
                    #[trigger] data.faces[f],
                ) by {
                    assert(face_written_in(data.faces[f], FaceSyntax::Composite));
                }
            },
        }
    }
}

} // verus!
