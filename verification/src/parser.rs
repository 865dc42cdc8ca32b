use crate::error::MeshError;
use crate::mesh::Vec3;
use crate::parser_laws::{lemma_parse_well_read, well_read};
use crate::text::{
    find_byte, integer_value, is_number, is_number_word, lemma_until_bound, line_end, line_len,
    parse_integer, span_pairs, split_words, until, words, Span,
};
use vstd::prelude::*;
use vstd::slice::slice_subrange;
use vstd::string::StringSliceAdditionalSpecFns;

verus! {

/// The two ways in which a face line may name its corners.
#[derive(Clone, Copy, Debug, PartialEq, Eq, Structural)]
pub enum FaceSyntax {
    /// Bare position indices: `f 1 2 3`.
    Simple,
    /// Groups of position, texture and normal index: `f 1/1/1 2/2/2 3/3/3`.
    Composite,
}

/// One corner of a face as the text gives it, counted from zero.
///
/// The text counts from one, so the values here are one less than the numbers written, and
/// a value below zero stands for a number below one.
#[derive(Clone, Copy, Debug, PartialEq, Eq)]
pub struct ObjCorner {
    pub position: i64,
    pub normal: Option<i64>,
}

/// What a mesh text declares, in the order of its lines.
///
/// The coordinates of positions and normals are given as the places in the text where the
/// numbers stand, each of them a word for which [`is_number`] holds.
#[derive(Clone, Debug)]
pub struct ObjData {
    pub positions: Vec<Vec3<Span>>,
    pub normals: Vec<Vec3<Span>>,
    pub faces: Vec<Vec<ObjCorner>>,
    pub syntax: Option<FaceSyntax>,
}

/// The mathematical content of an [`ObjData`].
pub struct ObjModel {
    pub positions: Seq<Vec3<Span>>,
    pub normals: Seq<Vec3<Span>>,
    pub faces: Seq<Seq<ObjCorner>>,
    pub syntax: Option<FaceSyntax>,
}

impl View for ObjData {
    type V = ObjModel;

    open spec fn view(&self) -> ObjModel {
        ObjModel {
            positions: self.positions@,
            normals: self.normals@,
            faces: Seq::new(self.faces@.len(), |i: int| self.faces@[i]@),
            syntax: self.syntax,
        }
    }
}

/// What a text without any record declares.
pub open spec fn empty_model() -> ObjModel {
    ObjModel { positions: Seq::empty(), normals: Seq::empty(), faces: Seq::empty(), syntax: None }
}

/// The bytes of the word `w` of `s`.
pub open spec fn word_at(s: Seq<u8>, w: (int, int)) -> Seq<u8> {
    s.subrange(w.0, w.1)
}

/// The span that covers the word `w`.
pub open spec fn span_of(w: (int, int)) -> Span {
    Span { start: w.0 as usize, end: w.1 as usize }
}

/// Whether a slash stands in `s[lo..hi]`.
pub open spec fn has_slash(s: Seq<u8>, lo: int, hi: int) -> bool {
    exists|i: int| lo <= i < hi && 0 <= i < s.len() && s[i] == 47
}

/// The corner that a bare index writes.
pub open spec fn simple_corner(t: Seq<u8>) -> Option<ObjCorner> {
    match integer_value(t) {
        Some(p) => Some(ObjCorner { position: (p - 1) as i64, normal: None }),
        None => None,
    }
}

/// The corner that a group `p/t/n` writes: exactly two slashes, an integer before the first
/// and one after the second. What stands between the slashes is not read.
pub open spec fn composite_corner(t: Seq<u8>) -> Option<ObjCorner> {
    let a = until(t, 47, 0) as int;
    let b = a + 1 + until(t, 47, a + 1);
    let c = b + 1 + until(t, 47, b + 1);
    if a < t.len() && b < t.len() && c >= t.len() {
        match (integer_value(t.subrange(0, a)), integer_value(t.subrange(b + 1, t.len() as int))) {
            (Some(p), Some(n)) => Some(
                ObjCorner { position: (p - 1) as i64, normal: Some((n - 1) as i64) },
            ),
            _ => None,
        }
    } else {
        None
    }
}

/// The corner that the word `t` writes in the given syntax.
pub open spec fn corner(t: Seq<u8>, syntax: FaceSyntax) -> Option<ObjCorner> {
    match syntax {
        FaceSyntax::Simple => simple_corner(t),
        FaceSyntax::Composite => composite_corner(t),
    }
}

/// The corners that the words after the first write, if each of them writes one.
pub open spec fn face_corners(s: Seq<u8>, w: Seq<(int, int)>, syntax: FaceSyntax) -> Option<
    Seq<ObjCorner>,
> {
    if forall|k: int| 1 <= k < w.len() ==> (#[trigger] corner(word_at(s, w[k]), syntax)).is_some() {
        Some(Seq::new((w.len() - 1) as nat, |k: int| corner(word_at(s, w[k + 1]), syntax).unwrap()))
    } else {
        None
    }
}

/// The three numbers that follow the first word, if they are there and are numbers.
pub open spec fn number_triple(s: Seq<u8>, w: Seq<(int, int)>) -> Option<Vec3<Span>> {
    if w.len() >= 4 && is_number(word_at(s, w[1])) && is_number(word_at(s, w[2])) && is_number(
        word_at(s, w[3]),
    ) {
        Some(Vec3 { x: span_of(w[1]), y: span_of(w[2]), z: span_of(w[3]) })
    } else {
        None
    }
}

/// What the line `s[lo..hi]` adds to `data`.
///
/// A line without words, or whose first word begins with `#`, adds nothing. Otherwise the
/// first word decides: `v` declares a position and `vn` a normal, each by three numbers; `f`
/// declares a face, in composite syntax where the line holds a slash and in simple syntax
/// where it holds none, and all face lines of a text agree in that; any other word is refused.
pub open spec fn after_line(data: ObjModel, s: Seq<u8>, lo: int, hi: int) -> Result<
    ObjModel,
    MeshError,
> {
    let w = words(s, lo, hi);
    if w.len() == 0 || s[w[0].0] == 35 {
        Ok(data)
    } else if word_at(s, w[0]) == seq![118u8] {
        match number_triple(s, w) {
            Some(p) => Ok(
                ObjModel {
                    positions: data.positions.push(p),
                    normals: data.normals,
                    faces: data.faces,
                    syntax: data.syntax,
                },
            ),
            None => Err(MeshError::MalformedNumber),
        }
    } else if word_at(s, w[0]) == seq![118u8, 110u8] {
        match number_triple(s, w) {
            Some(n) => Ok(
                ObjModel {
                    positions: data.positions,
                    normals: data.normals.push(n),
                    faces: data.faces,
                    syntax: data.syntax,
                },
            ),
            None => Err(MeshError::MalformedNumber),
        }
    } else if word_at(s, w[0]) == seq![102u8] {
        let syntax = if has_slash(s, lo, hi) {
            FaceSyntax::Composite
        } else {
            FaceSyntax::Simple
        };
        if data.syntax.is_some() && data.syntax != Some(syntax) {
            Err(MeshError::MixedFaceSyntax)
        } else {
            match face_corners(s, w, syntax) {
                None => Err(MeshError::MalformedIndex),
                Some(c) => if c.len() < 3 {
                    Err(MeshError::DegenerateFace)
                } else {
                    Ok(
                        ObjModel {
                            positions: data.positions,
                            normals: data.normals,
                            faces: data.faces.push(c),
                            syntax: Some(syntax),
                        },
                    )
                },
            }
        }
    } else {
        Err(MeshError::UnrecognizedRecord)
    }
}

/// What the lines of `s` from offset `i` on add to `data`, read one after the other until
/// one of them is refused.
pub open spec fn after_lines(data: ObjModel, s: Seq<u8>, i: int) -> Result<ObjModel, MeshError>
    decreases s.len() - i,
    via after_lines_terminates
{
    if i < 0 || i >= s.len() {
        Ok(data)
    } else {
        let end = i + line_len(s, i);
        match after_line(data, s, i, end) {
            Err(e) => Err(e),
            Ok(next) => if end >= s.len() {
                Ok(next)
            } else {
                after_lines(next, s, end + 1)
            },
        }
    }
}

#[via_fn]
proof fn after_lines_terminates(data: ObjModel, s: Seq<u8>, i: int) {
    lemma_until_bound(s, 10, i);
}

/// What the text `s` declares, or why it is refused.
pub open spec fn parse_spec(s: Seq<u8>) -> Result<ObjModel, MeshError> {
    after_lines(empty_model(), s, 0)
}

/// Whether a slash stands in `s[lo..hi]`.
pub fn contains_slash(s: &[u8], lo: usize, hi: usize) -> (r: bool)
    requires
        lo <= hi <= s.len(),
    ensures
        r == has_slash(s@, lo as int, hi as int),
{
    let mut i: usize = lo;
    while i < hi
        invariant
            lo <= i <= hi <= s.len(),
            forall|k: int| lo <= k < i ==> s@[k] != 47,
        decreases hi - i,
    {
        if s[i] == 47 {
            return true;
        }
        i += 1;
    }
    false
}

/// Reads a bare index.
pub fn read_simple_corner(t: &[u8]) -> (r: Option<ObjCorner>)
    ensures
        r == simple_corner(t@),
{
    match parse_integer(t) {
        Some(p) => Some(ObjCorner { position: p as i64 - 1, normal: None }),
        None => None,
    }
}

/// Reads a group of position, texture and normal index.
pub fn read_composite_corner(t: &[u8]) -> (r: Option<ObjCorner>)
    ensures
        r == composite_corner(t@),
{
    let n = t.len();
    let a = find_byte(t, 47, 0);
    if a >= n {
        return None;
    }
    let b = find_byte(t, 47, a + 1);
    if b >= n {
        return None;
    }
    let c = find_byte(t, 47, b + 1);
    if c < n {
        return None;
    }
    match (parse_integer(slice_subrange(t, 0, a)), parse_integer(slice_subrange(t, b + 1, n))) {
        (Some(p), Some(q)) => Some(
            ObjCorner { position: p as i64 - 1, normal: Some(q as i64 - 1) },
        ),
        _ => None,
    }
}

/// Reads one corner of a face in the given syntax.
pub fn read_corner(t: &[u8], syntax: FaceSyntax) -> (r: Option<ObjCorner>)
    ensures
        r == corner(t@, syntax),
{
    match syntax {
        FaceSyntax::Simple => read_simple_corner(t),
        FaceSyntax::Composite => read_composite_corner(t),
    }
}

/// Whether each span of `w` lies within a text of `len` bytes.
pub open spec fn spans_within(w: Seq<Span>, len: int) -> bool {
    forall|k: int| 0 <= k < w.len() ==> (#[trigger] w[k]).start <= w[k].end <= len
}

/// Checks the three numbers of a position or normal line, whose words are `w`.
pub fn read_triple(s: &[u8], w: &Vec<Span>) -> (r: Option<Vec3<Span>>)
    requires
        spans_within(w@, s@.len() as int),
    ensures
        r == number_triple(s@, span_pairs(w@)),
{
    if w.len() < 4 {
        return None;
    }
    let x = w[1];
    let y = w[2];
    let z = w[3];
    if is_number_word(slice_subrange(s, x.start, x.end)) && is_number_word(
        slice_subrange(s, y.start, y.end),
    ) && is_number_word(slice_subrange(s, z.start, z.end)) {
        Some(Vec3 { x, y, z })
    } else {
        None
    }
}

/// Reads the corners of a face line, whose words are `w`.
pub fn read_face(s: &[u8], w: &Vec<Span>, syntax: FaceSyntax) -> (r: Option<Vec<ObjCorner>>)
    requires
        spans_within(w@, s@.len() as int),
        w.len() >= 1,
    ensures
        match r {
            Some(c) => face_corners(s@, span_pairs(w@), syntax) == Some(c@),
            None => face_corners(s@, span_pairs(w@), syntax).is_none(),
        },
{
    let ghost pairs = span_pairs(w@);
    let mut corners: Vec<ObjCorner> = Vec::new();
    let mut k: usize = 1;
    while k < w.len()
        invariant
            1 <= k <= w.len(),
            spans_within(w@, s@.len() as int),
            pairs == span_pairs(w@),
            corners@.len() == k - 1,
            forall|j: int|
                1 <= j < k ==> (#[trigger] corner(word_at(s@, pairs[j]), syntax)).is_some(),
            forall|j: int|
                0 <= j < k - 1 ==> corners@[j] == corner(
                    word_at(s@, pairs[j + 1]),
                    syntax,
                ).unwrap(),
        decreases w.len() - k,
    {
        let span = w[k];
        match read_corner(slice_subrange(s, span.start, span.end), syntax) {
            Some(c) => {
                corners.push(c);
            },
            None => {
                assert(corner(word_at(s@, pairs[k as int]), syntax).is_none());
                return None;
            },
        }
        k += 1;
    }
    proof {
        assert(corners@ == Seq::new(
            (pairs.len() - 1) as nat,
            |j: int| corner(word_at(s@, pairs[j + 1]), syntax).unwrap(),
        ));
    }
    Some(corners)
}

/// Adds to `data` what the line `s[lo..hi]` declares. `w` is working space.
pub fn read_line(s: &[u8], lo: usize, hi: usize, w: &mut Vec<Span>, data: ObjData) -> (r: Result<
    ObjData,
    MeshError,
>)
    requires
        lo <= hi <= s.len(),
    ensures
        match r {
            Ok(d) => after_line(data@, s@, lo as int, hi as int) == Ok::<ObjModel, MeshError>(d@),
            Err(e) => after_line(data@, s@, lo as int, hi as int) == Err::<ObjModel, MeshError>(e),
        },
{
    split_words(s, lo, hi, w);
    let mut data = data;
    if w.len() == 0 {
        return Ok(data);
    }
    let first = w[0];
    if s[first.start] == 35 {
        return Ok(data);
    }
    let kind = slice_subrange(s, first.start, first.end);
    let ghost old_faces = data@.faces;
    if kind.len() == 1 && kind[0] == 118 {
        assert(kind@ == seq![118u8]);
        match read_triple(s, w) {
            Some(p) => {
                data.positions.push(p);
                assert(data@.faces == old_faces);
                Ok(data)
            },
            None => Err(MeshError::MalformedNumber),
        }
    } else if kind.len() == 2 && kind[0] == 118 && kind[1] == 110 {
        assert(kind@ == seq![118u8, 110u8]);
        match read_triple(s, w) {
            Some(n) => {
                data.normals.push(n);
                assert(data@.faces == old_faces);
                Ok(data)
            },
            None => Err(MeshError::MalformedNumber),
        }
    } else if kind.len() == 1 && kind[0] == 102 {
        assert(kind@ == seq![102u8]);
        let syntax = if contains_slash(s, lo, hi) {
            FaceSyntax::Composite
        } else {
            FaceSyntax::Simple
        };
        let mixed = match data.syntax {
            Some(FaceSyntax::Simple) => syntax == FaceSyntax::Composite,
            Some(FaceSyntax::Composite) => syntax == FaceSyntax::Simple,
            None => false,
        };
        if mixed {
            return Err(MeshError::MixedFaceSyntax);
        }
        match read_face(s, w, syntax) {
            None => Err(MeshError::MalformedIndex),
            Some(c) => {
                if c.len() < 3 {
                    Err(MeshError::DegenerateFace)
                } else {
                    let ghost corners = c@;
                    data.faces.push(c);
                    data.syntax = Some(syntax);
                    assert(data@.faces == old_faces.push(corners));
                    Ok(data)
                }
            },
        }
    } else {
        assert(kind@ != seq![118u8]) by {
            if kind@ == seq![118u8] {
                assert(kind@.len() == 1 && kind@[0] == 118);
            }
        }
        assert(kind@ != seq![118u8, 110u8]) by {
            if kind@ == seq![118u8, 110u8] {
                assert(kind@.len() == 2 && kind@[0] == 118 && kind@[1] == 110);
            }
        }
        assert(kind@ != seq![102u8]) by {
            if kind@ == seq![102u8] {
                assert(kind@.len() == 1 && kind@[0] == 102);
            }
        }
        Err(MeshError::UnrecognizedRecord)
    }
}

/// Reads a mesh text given as bytes.
pub fn parse_bytes(s: &[u8]) -> (r: Result<ObjData, MeshError>)
    ensures
        match r {
            Ok(d) => parse_spec(s@) == Ok::<ObjModel, MeshError>(d@) && well_read(d@, s@),
            Err(e) => parse_spec(s@) == Err::<ObjModel, MeshError>(e),
        },
{
    proof {
        assert(s@.len() == s.len());
        lemma_parse_well_read(s@);
    }
    let mut data = ObjData {
        positions: Vec::new(),
        normals: Vec::new(),
        faces: Vec::new(),
        syntax: None,
    };
    assert(data@.faces =~= Seq::empty());
    let mut w: Vec<Span> = Vec::new();
    let mut i: usize = 0;
    while i < s.len()
        invariant
            i <= s.len(),
            after_lines(data@, s@, i as int) == parse_spec(s@),
            parse_spec(s@).is_ok() ==> well_read(parse_spec(s@).unwrap(), s@),
        decreases s.len() - i,
    {
        let end = line_end(s, i);
        match read_line(s, i, end, &mut w, data) {
            Err(e) => {
                return Err(e);
            },
            Ok(next) => {
                data = next;
            },
        }
        if end >= s.len() {
            return Ok(data);
        }
        i = end + 1;
    }
    Ok(data)
}

/// Reads a mesh text: what it declares, or why it is refused.
///
/// Nothing is kept of a text that is refused: the first line that cannot be read ends the
/// reading.
pub fn parse_obj(text: &str) -> (r: Result<ObjData, MeshError>)
    ensures
        match r {
            Ok(d) => parse_spec(text.spec_bytes()) == Ok::<ObjModel, MeshError>(d@) && well_read(
                d@,
                text.spec_bytes(),
            ),
            Err(e) => parse_spec(text.spec_bytes()) == Err::<ObjModel, MeshError>(e),
        },
{
    parse_bytes(text.as_bytes())
}

} // verus!
