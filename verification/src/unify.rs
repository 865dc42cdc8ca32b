use crate::error::MeshError;
use crate::mesh::{face_seqs, Face, Vec3, Vertex};
use crate::parser::ObjCorner;
use crate::seqs::{distinct, lemma_distinct, lemma_distinct_push, lemma_index_of_unique};
use std::collections::HashMap;
use vstd::prelude::*;

verus! {

broadcast use vstd::std_specs::hash::group_hash_axioms;

/// The corners of each face, as sequences.
pub open spec fn corner_seqs(faces: Seq<Vec<ObjCorner>>) -> Seq<Seq<ObjCorner>> {
    Seq::new(faces.len(), |i: int| faces[i]@)
}

/// Whether every corner of a face names a normal.
pub open spec fn face_with_normals(face: Seq<ObjCorner>) -> bool {
    forall|c: int| 0 <= c < face.len() ==> (#[trigger] face[c]).normal.is_some()
}

/// Whether no corner of a face names a normal.
pub open spec fn face_without_normals(face: Seq<ObjCorner>) -> bool {
    forall|c: int| 0 <= c < face.len() ==> (#[trigger] face[c]).normal.is_none()
}

/// Whether a corner names a position among `positions` many and, where it names a normal,
/// one among `normals` many.
pub open spec fn corner_in_range(c: ObjCorner, positions: int, normals: int) -> bool {
    &&& 0 <= c.position < positions
    &&& match c.normal {
        Some(n) => 0 <= n < normals,
        None => true,
    }
}

/// Whether every corner of a face names what was declared.
pub open spec fn face_in_range(face: Seq<ObjCorner>, positions: int, normals: int) -> bool {
    forall|c: int| 0 <= c < face.len() ==> corner_in_range(#[trigger] face[c], positions, normals)
}

/// Whether every corner of every face names a normal.
pub open spec fn all_with_normals(faces: Seq<Seq<ObjCorner>>) -> bool {
    forall|f: int| 0 <= f < faces.len() ==> face_with_normals(#[trigger] faces[f])
}

/// Whether no corner of any face names a normal.
pub open spec fn all_without_normals(faces: Seq<Seq<ObjCorner>>) -> bool {
    forall|f: int| 0 <= f < faces.len() ==> face_without_normals(#[trigger] faces[f])
}

/// Whether some corners name a normal and others do not.
pub open spec fn mixed_corners(faces: Seq<Seq<ObjCorner>>) -> bool {
    !all_with_normals(faces) && !all_without_normals(faces)
}

/// Whether every face has three corners or more.
pub open spec fn all_polygons(faces: Seq<Seq<ObjCorner>>) -> bool {
    forall|f: int| 0 <= f < faces.len() ==> (#[trigger] faces[f]).len() >= 3
}

/// Whether every corner of every face names what was declared.
pub open spec fn all_in_range(faces: Seq<Seq<ObjCorner>>, positions: int, normals: int) -> bool {
    forall|f: int| 0 <= f < faces.len() ==> face_in_range(#[trigger] faces[f], positions, normals)
}

/// Whether every corner of every face names one of `positions` many positions.
pub open spec fn all_name_positions(faces: Seq<Seq<ObjCorner>>, positions: int) -> bool {
    forall|f: int, c: int|
        0 <= f < faces.len() && 0 <= c < faces[f].len() ==> 0 <= (#[trigger] faces[f][c]).position
            < positions
}

/// The different corners of all faces, in the order in which they first occur: one unified
/// vertex for each pair of position and normal.
pub open spec fn unified(faces: Seq<Seq<ObjCorner>>) -> Seq<ObjCorner> {
    distinct(faces.flatten())
}

/// The vertex that a corner with a normal stands for.
pub open spec fn corner_vertex<S>(
    positions: Seq<Vec3<S>>,
    normals: Seq<Vec3<S>>,
    c: ObjCorner,
) -> Vertex<S> {
    Vertex { pos: positions[c.position as int], normal: normals[c.normal.unwrap() as int] }
}

/// The vertices of a mesh whose faces name positions and normals.
pub open spec fn unified_vertices<S>(
    positions: Seq<Vec3<S>>,
    normals: Seq<Vec3<S>>,
    faces: Seq<Seq<ObjCorner>>,
) -> Seq<Vertex<S>> {
    Seq::new(unified(faces).len(), |k: int| corner_vertex(positions, normals, unified(faces)[k]))
}

/// The faces of a mesh whose faces name positions and normals: each corner replaced by the
/// index of its unified vertex.
pub open spec fn unified_faces(faces: Seq<Seq<ObjCorner>>) -> Seq<Seq<usize>> {
    Seq::new(
        faces.len(),
        |f: int| Seq::new(faces[f].len(), |c: int| unified(faces).index_of(faces[f][c]) as usize),
    )
}

/// The vertices of a mesh whose faces name positions alone: the positions, with `zero` for
/// each coordinate of the normal.
pub open spec fn plain_vertices<S>(positions: Seq<Vec3<S>>, zero: S) -> Seq<Vertex<S>> {
    Seq::new(
        positions.len(),
        |k: int| Vertex { pos: positions[k], normal: Vec3 { x: zero, y: zero, z: zero } },
    )
}

/// The faces of a mesh whose faces name positions alone.
pub open spec fn plain_faces(faces: Seq<Seq<ObjCorner>>) -> Seq<Seq<usize>> {
    Seq::new(faces.len(), |f: int| Seq::new(faces[f].len(), |c: int| faces[f][c].position as usize))
}

/// Two corners resolve to one unified vertex exactly if they name the same position and
/// the same normal.
pub proof fn lemma_unified_injective(faces: Seq<Seq<ObjCorner>>, f1: int, c1: int, f2: int, c2: int)
    requires
        0 <= f1 < faces.len(),
        0 <= c1 < faces[f1].len(),
        0 <= f2 < faces.len(),
        0 <= c2 < faces[f2].len(),
        unified(faces).len() <= usize::MAX,
    ensures
        0 <= unified_faces(faces)[f1][c1] < unified(faces).len(),
        unified(faces)[unified_faces(faces)[f1][c1] as int] == faces[f1][c1],
        (unified_faces(faces)[f1][c1] == unified_faces(faces)[f2][c2]) <==> (faces[f1][c1]
            == faces[f2][c2]),
        unified(faces).no_duplicates(),
{
    let flat = faces.flatten();
    let u = unified(faces);
    lemma_distinct(flat);
    lemma_flatten_contains(faces, f1, c1);
    lemma_flatten_contains(faces, f2, c2);
    assert(u.contains(faces[f1][c1]));
    assert(u.contains(faces[f2][c2]));
    lemma_unified_len(faces);
    let i1 = u.index_of(faces[f1][c1]);
    let i2 = u.index_of(faces[f2][c2]);
    assert(0 <= i1 < u.len() && u[i1] == faces[f1][c1]);
    assert(0 <= i2 < u.len() && u[i2] == faces[f2][c2]);
}

/// A member of a member is a member of the whole laid flat.
pub proof fn lemma_flatten_contains<A>(s: Seq<Seq<A>>, i: int, j: int)
    requires
        0 <= i < s.len(),
        0 <= j < s[i].len(),
    ensures
        s.flatten().contains(s[i][j]),
    decreases s.len(),
{
    if i == 0 {
        assert(s.flatten()[j] == s[0][j]);
    } else {
        let rest = s.drop_first();
        lemma_flatten_contains(rest, i - 1, j);
        let k = choose|k: int| 0 <= k < rest.flatten().len() && rest.flatten()[k] == rest[i - 1][j];
        assert(s.flatten()[s[0].len() + k] == s[i][j]);
    }
}

/// There are no more unified vertices than corners, and corners are counted in `usize`.
pub proof fn lemma_unified_len(faces: Seq<Seq<ObjCorner>>)
    ensures
        unified(faces).len() <= faces.flatten().len(),
{
    lemma_distinct(faces.flatten());
}

/// Looks at the corners of one face: whether all name a normal, whether none does, and
/// whether all name what was declared.
pub fn check_face(face: &Vec<ObjCorner>, positions: usize, normals: usize) -> (r: (
    bool,
    bool,
    bool,
))
    ensures
        r.0 == face_with_normals(face@),
        r.1 == face_without_normals(face@),
        r.2 == face_in_range(face@, positions as int, normals as int),
{
    let mut with: bool = true;
    let mut without: bool = true;
    let mut ranged: bool = true;
    let mut c: usize = 0;
    while c < face.len()
        invariant
            c <= face.len(),
            with == (forall|k: int| 0 <= k < c ==> (#[trigger] face@[k]).normal.is_some()),
            without == (forall|k: int| 0 <= k < c ==> (#[trigger] face@[k]).normal.is_none()),
            ranged == (forall|k: int|
                0 <= k < c ==> corner_in_range(
                    #[trigger] face@[k],
                    positions as int,
                    normals as int,
                )),
        decreases face.len() - c,
    {
        let corner = face[c];
        let position_ok = corner.position >= 0 && (corner.position as u64) < positions as u64;
        let normal_ok = match corner.normal {
            Some(n) => n >= 0 && (n as u64) < normals as u64,
            None => true,
        };
        with = with && corner.normal.is_some();
        without = without && corner.normal.is_none();
        ranged = ranged && position_ok && normal_ok;
        c += 1;
    }
    (with, without, ranged)
}

/// Decides whether faces can be made into a mesh over `positions` many positions and
/// `normals` many normals, and whether their corners name normals.
pub fn check_faces(faces: &Vec<Vec<ObjCorner>>, positions: usize, normals: usize) -> (r: Result<
    bool,
    MeshError,
>)
    ensures
        match r {
            Ok(with) => {
                &&& !mixed_corners(corner_seqs(faces@))
                &&& all_polygons(corner_seqs(faces@))
                &&& all_in_range(corner_seqs(faces@), positions as int, normals as int)
                &&& with == all_with_normals(corner_seqs(faces@))
            },
            Err(MeshError::MixedFaceSyntax) => mixed_corners(corner_seqs(faces@)),
            Err(MeshError::DegenerateFace) => !mixed_corners(corner_seqs(faces@)) && !all_polygons(
                corner_seqs(faces@),
            ),
            Err(MeshError::MalformedIndex) => {
                &&& !mixed_corners(corner_seqs(faces@))
                &&& all_polygons(corner_seqs(faces@))
                &&& !all_in_range(corner_seqs(faces@), positions as int, normals as int)
            },
            Err(_) => false,
        },
{
    let ghost all = corner_seqs(faces@);
    let mut with: bool = true;
    let mut without: bool = true;
    let mut long: bool = true;
    let mut ranged: bool = true;
    let mut f: usize = 0;
    while f < faces.len()
        invariant
            f <= faces.len(),
            all == corner_seqs(faces@),
            with == (forall|k: int| 0 <= k < f ==> face_with_normals(#[trigger] all[k])),
            without == (forall|k: int| 0 <= k < f ==> face_without_normals(#[trigger] all[k])),
            long == (forall|k: int| 0 <= k < f ==> (#[trigger] all[k]).len() >= 3),
            ranged == (forall|k: int|
                0 <= k < f ==> face_in_range(#[trigger] all[k], positions as int, normals as int)),
        decreases faces.len() - f,
    {
        let flags = check_face(&faces[f], positions, normals);
        assert(all[f as int] == faces@[f as int]@);
        with = with && flags.0;
        without = without && flags.1;
        long = long && faces[f].len() >= 3;
        ranged = ranged && flags.2;
        f += 1;
    }
    if !with && !without {
        Err(MeshError::MixedFaceSyntax)
    } else if !long {
        Err(MeshError::DegenerateFace)
    } else if !ranged {
        Err(MeshError::MalformedIndex)
    } else {
        Ok(with)
    }
}

/// Makes the vertices and faces of a mesh whose faces name positions alone.
pub fn plain<S: Copy>(positions: &Vec<Vec3<S>>, faces: &Vec<Vec<ObjCorner>>, zero: S) -> (r: (
    Vec<Vertex<S>>,
    Vec<Face>,
))
    requires
        all_name_positions(corner_seqs(faces@), positions@.len() as int),
    ensures
        r.0@ == plain_vertices(positions@, zero),
        face_seqs(r.1@) == plain_faces(corner_seqs(faces@)),
{
    let ghost all = corner_seqs(faces@);
    let mut verts: Vec<Vertex<S>> = Vec::new();
    let mut k: usize = 0;
    while k < positions.len()
        invariant
            k <= positions.len(),
            verts@.len() == k,
            forall|j: int| 0 <= j < k ==> verts@[j] == plain_vertices(positions@, zero)[j],
        decreases positions.len() - k,
    {
        verts.push(Vertex { pos: positions[k], normal: Vec3 { x: zero, y: zero, z: zero } });
        k += 1;
    }
    assert(verts@ == plain_vertices(positions@, zero));
    let mut out: Vec<Face> = Vec::new();
    let mut f: usize = 0;
    while f < faces.len()
        invariant
            f <= faces.len(),
            all == corner_seqs(faces@),
            all_name_positions(all, positions@.len() as int),
            out@.len() == f,
            forall|j: int| 0 <= j < f ==> (#[trigger] out@[j]).verts@ == plain_faces(all)[j],
        decreases faces.len() - f,
    {
        let face = &faces[f];
        let mut ids: Vec<usize> = Vec::new();
        let mut c: usize = 0;
        while c < face.len()
            invariant
                c <= face.len(),
                face@ == all[f as int],
                0 <= f < all.len(),
                all_name_positions(all, positions@.len() as int),
                ids@.len() == c,
                forall|j: int| 0 <= j < c ==> ids@[j] == plain_faces(all)[f as int][j],
            decreases face.len() - c,
        {
            assert(0 <= all[f as int][c as int].position < positions@.len());
            ids.push(face[c].position as usize);
            c += 1;
        }
        assert(ids@ == plain_faces(all)[f as int]);
        out.push(Face { verts: ids });
        f += 1;
    }
    assert(face_seqs(out@) == plain_faces(all));
    (verts, out)
}

/// The number under which a corner with a normal is kept while vertices are unified.
pub open spec fn corner_key(c: ObjCorner) -> u128 {
    (c.position as int * 0x1_0000_0000_0000_0000 + c.normal.unwrap() as int) as u128
}

/// What the table of corners seen so far holds while vertices are unified: each of `u`
/// under its key, with the place where it stands in `u`.
pub open spec fn table_of(m: Map<u128, usize>, u: Seq<ObjCorner>) -> bool {
    &&& forall|k: int|
        0 <= k < u.len() ==> m.contains_key(#[trigger] corner_key(u[k])) && m[corner_key(u[k])]
            == k
    &&& forall|key: u128| #[trigger]
        m.contains_key(key) ==> 0 <= m[key] < u.len() && corner_key(u[m[key] as int]) == key
}

/// Whether `verts` holds the vertex of each corner of `u`, all of which name a position
/// and a normal that were declared.
pub open spec fn vertices_of<S>(
    verts: Seq<Vertex<S>>,
    u: Seq<ObjCorner>,
    positions: Seq<Vec3<S>>,
    normals: Seq<Vec3<S>>,
) -> bool {
    &&& verts.len() == u.len()
    &&& forall|k: int|
        0 <= k < u.len() ==> (#[trigger] u[k]).normal.is_some() && corner_in_range(
            u[k],
            positions.len() as int,
            normals.len() as int,
        ) && verts[k] == corner_vertex(positions, normals, u[k])
}

/// Whether each of `ids` is the place in `u` of the corner that it stands for.
pub open spec fn places_in(ids: Seq<usize>, corners: Seq<ObjCorner>, u: Seq<ObjCorner>) -> bool {
    &&& ids.len() <= corners.len()
    &&& forall|c: int|
        0 <= c < ids.len() ==> 0 <= (#[trigger] ids[c]) < u.len() && u[ids[c] as int] == corners[c]
}

/// Whether each face of `out` names the places in `u` of the corners of the face that it
/// stands for.
pub open spec fn faces_placed(out: Seq<Face>, all: Seq<Seq<ObjCorner>>, u: Seq<ObjCorner>) -> bool {
    &&& out.len() <= all.len()
    &&& forall|j: int|
        0 <= j < out.len() ==> (#[trigger] out[j]).verts@.len() == all[j].len() && places_in(
            out[j].verts@,
            all[j],
            u,
        )
}

/// Corners that name a non-negative position and normal differ in their keys where they
/// differ.
pub proof fn lemma_corner_key_injective(a: ObjCorner, b: ObjCorner)
    requires
        a.normal.is_some(),
        b.normal.is_some(),
        a.position >= 0,
        b.position >= 0,
        a.normal.unwrap() >= 0,
        b.normal.unwrap() >= 0,
        corner_key(a) == corner_key(b),
    ensures
        a == b,
{
}

/// One more unified vertex leaves the places of the others as they are.
pub proof fn lemma_places_kept(
    out: Seq<Face>,
    ids: Seq<usize>,
    all: Seq<Seq<ObjCorner>>,
    corners: Seq<ObjCorner>,
    u: Seq<ObjCorner>,
    c: ObjCorner,
)
    requires
        faces_placed(out, all, u),
        places_in(ids, corners, u),
    ensures
        faces_placed(out, all, u.push(c)),
        places_in(ids, corners, u.push(c)),
{
    let v = u.push(c);
    assert forall|k: int| 0 <= k < ids.len() implies 0 <= (#[trigger] ids[k]) < v.len()
        && v[ids[k] as int] == corners[k] by {
        assert(v[ids[k] as int] == u[ids[k] as int]);
    }
    assert forall|j: int| 0 <= j < out.len() implies (#[trigger] out[j]).verts@.len()
        == all[j].len() && places_in(out[j].verts@, all[j], v) by {
        let face = out[j].verts@;
        assert(places_in(face, all[j], u));
        assert forall|k: int| 0 <= k < face.len() implies 0 <= (#[trigger] face[k]) < v.len()
            && v[face[k] as int] == all[j][k] by {
            assert(v[face[k] as int] == u[face[k] as int]);
        }
    }
}

/// Makes the vertices and faces of a mesh whose faces name positions and normals.
pub fn unify<S: Copy>(
    positions: &Vec<Vec3<S>>,
    normals: &Vec<Vec3<S>>,
    faces: &Vec<Vec<ObjCorner>>,
) -> (r: (Vec<Vertex<S>>, Vec<Face>))
    requires
        all_with_normals(corner_seqs(faces@)),
        all_in_range(corner_seqs(faces@), positions@.len() as int, normals@.len() as int),
    ensures
        r.0@ == unified_vertices(positions@, normals@, corner_seqs(faces@)),
        face_seqs(r.1@) == unified_faces(corner_seqs(faces@)),
{
    let ghost all = corner_seqs(faces@);
    let mut verts: Vec<Vertex<S>> = Vec::new();
    let mut out: Vec<Face> = Vec::new();
    let mut table: HashMap<u128, usize> = HashMap::new();
    let ghost mut u: Seq<ObjCorner> = Seq::empty();
    let mut f: usize = 0;
    assert(all.take(0).flatten() == Seq::<ObjCorner>::empty());
    while f < faces.len()
        invariant
            f <= faces.len(),
            all == corner_seqs(faces@),
            all_with_normals(all),
            all_in_range(all, positions@.len() as int, normals@.len() as int),
            u == distinct(all.take(f as int).flatten()),
            table_of(table@, u),
            vertices_of(verts@, u, positions@, normals@),
            out@.len() == f,
            faces_placed(out@, all, u),
        decreases faces.len() - f,
    {
        let face = &faces[f];
        let ghost done = all.take(f as int).flatten();
        let mut ids: Vec<usize> = Vec::new();
        let mut c: usize = 0;
        assert(face_in_range(all[f as int], positions@.len() as int, normals@.len() as int));
        assert(face_with_normals(all[f as int]));
        assert(done + all[f as int].take(0) == done);
        while c < face.len()
            invariant
                c <= face.len(),
                0 <= f < all.len(),
                face@ == all[f as int],
                face_in_range(all[f as int], positions@.len() as int, normals@.len() as int),
                face_with_normals(all[f as int]),
                u == distinct(done + all[f as int].take(c as int)),
                table_of(table@, u),
                vertices_of(verts@, u, positions@, normals@),
                out@.len() == f,
                faces_placed(out@, all, u),
                ids@.len() == c,
                places_in(ids@, all[f as int], u),
            decreases face.len() - c,
        {
            let corner = face[c];
            let ghost seen = done + all[f as int].take(c as int);
            assert(corner == all[f as int][c as int]);
            assert(corner_in_range(corner, positions@.len() as int, normals@.len() as int));
            assert(corner.normal.is_some());
            let normal = match corner.normal {
                Some(n) => n,
                None => 0,
            };
            let key: u128 = (corner.position as u128) * 0x1_0000_0000_0000_0000u128 + (
            normal as u128);
            assert(key == corner_key(corner));
            proof {
                lemma_distinct_push(seen, corner);
                assert(seen.push(corner) == done + all[f as int].take(c + 1));
            }
            match table.get(&key) {
                Some(id) => {
                    proof {
                        lemma_corner_key_injective(u[*id as int], corner);
                        assert(u.contains(corner));
                    }
                    ids.push(*id);
                },
                None => {
                    proof {
                        if u.contains(corner) {
                            let k = choose|k: int| 0 <= k < u.len() && u[k] == corner;
                            assert(table@.contains_key(corner_key(u[k])));
                        }
                    }
                    let id = verts.len();
                    assert(corner.position < positions.len() && normal < normals.len());
                    let pos = positions[corner.position as usize];
                    let nor = normals[normal as usize];
                    let ghost old_ids = ids@;
                    verts.push(Vertex { pos: pos, normal: nor });
                    table.insert(key, id);
                    ids.push(id);
                    proof {
                        let before = u;
                        lemma_places_kept(out@, old_ids, all, all[f as int], before, corner);
                        u = u.push(corner);
                        assert forall|k: int| 0 <= k < u.len() implies table@.contains_key(
                            #[trigger] corner_key(u[k]),
                        ) && table@[corner_key(u[k])] == k by {
                            if k < before.len() {
                                assert(u[k] == before[k]);
                                assert(corner_key(before[k]) != key);
                            }
                        }
                        assert forall|other: u128| #[trigger]
                            table@.contains_key(other) implies 0 <= table@[other] < u.len()
                            && corner_key(u[table@[other] as int]) == other by {
                            if other != key {
                                assert(u[table@[other] as int] == before[table@[other] as int]);
                            }
                        }
                        assert forall|k: int| 0 <= k < u.len() implies (
                        #[trigger] u[k]).normal.is_some() && corner_in_range(
                            u[k],
                            positions@.len() as int,
                            normals@.len() as int,
                        ) && verts@[k] == corner_vertex(positions@, normals@, u[k]) by {
                            if k < before.len() {
                                assert(u[k] == before[k]);
                            }
                        }
                        assert forall|k: int| 0 <= k < ids@.len() implies 0 <= (#[trigger] ids@[k])
                            < u.len() && u[ids@[k] as int] == all[f as int][k] by {
                            if k < old_ids.len() {
                                assert(ids@[k] == old_ids[k]);
                            }
                        }
                    }
                },
            }
            c += 1;
        }
        proof {
            assert(all[f as int].take(c as int) == all[f as int]);
            assert(all.take(f + 1) == all.take(f as int).push(all[f as int]));
            all.take(f as int).lemma_flatten_push(all[f as int]);
        }
        let ghost old_out = out@;
        out.push(Face { verts: ids });
        proof {
            assert forall|j: int| 0 <= j < out@.len() implies (#[trigger] out@[j]).verts@.len()
                == all[j].len() && places_in(out@[j].verts@, all[j], u) by {
                if j < old_out.len() {
                    assert(out@[j] == old_out[j]);
                }
            }
        }
        f += 1;
    }
    proof {
        assert(all.take(f as int) == all);
        lemma_distinct(all.flatten());
        assert(verts@ == unified_vertices(positions@, normals@, all));
        assert forall|j: int| 0 <= j < all.len() implies (#[trigger] face_seqs(out@)[j])
            == unified_faces(all)[j] by {
            assert(places_in(out@[j].verts@, all[j], u));
            assert forall|c: int| 0 <= c < all[j].len() implies face_seqs(out@)[j][c]
                == unified_faces(all)[j][c] by {
                lemma_index_of_unique(u, out@[j].verts@[c] as int);
            }
        }
        assert(face_seqs(out@) == unified_faces(all));
    }
    (verts, out)
}

} // verus!
