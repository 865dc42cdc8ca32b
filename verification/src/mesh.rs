use crate::error::MeshError;
use crate::parser::ObjCorner;
use crate::triangulate::{fan, lemma_triangulated_triangles, triangulated};
use crate::unify::{
    all_in_range, all_polygons, all_with_normals, check_faces, corner_seqs, face_in_range,
    lemma_unified_injective, mixed_corners, plain, plain_faces, plain_vertices, unified,
    unified_faces, unified_vertices, unify,
};
use vstd::prelude::*;

verus! {

/// Three coordinates of type `S`: a point or a direction in space.
#[derive(Clone, Copy, Debug, PartialEq)]
pub struct Vec3<S> {
    pub x: S,
    pub y: S,
    pub z: S,
}

impl<S: Copy> Vec3<S> {
    /// The value with all three coordinates equal to `s`.
    pub open spec fn spec_splat(s: S) -> Vec3<S> {
        Vec3 { x: s, y: s, z: s }
    }

    /// The value with all three coordinates equal to `s`.
    pub fn splat(s: S) -> (r: Vec3<S>)
        ensures
            r == Self::spec_splat(s),
    {
        Vec3 { x: s, y: s, z: s }
    }
}

/// A vertex of a mesh: where it lies and which way its surface faces.
#[derive(Clone, Copy, Debug, PartialEq)]
pub struct Vertex<S> {
    pub pos: Vec3<S>,
    pub normal: Vec3<S>,
}

/// A polygon, as the indices of its corners among the vertices of its mesh, in winding order.
#[derive(Clone, Debug, PartialEq, Eq)]
pub struct Face {
    pub verts: Vec<usize>,
}

/// The corners of each face, as sequences.
pub open spec fn face_seqs(faces: Seq<Face>) -> Seq<Seq<usize>> {
    Seq::new(faces.len(), |i: int| faces[i].verts@)
}

/// Whether every face has exactly three corners.
pub open spec fn all_triangles<A>(faces: Seq<Seq<A>>) -> bool {
    forall|f: int| 0 <= f < faces.len() ==> (#[trigger] faces[f]).len() == 3
}

/// A polygon mesh: vertices, faces that name them, and a box around them.
///
/// Every face has three corners or more, and every corner names a vertex of the mesh.
pub struct Mesh<S> {
    verts: Vec<Vertex<S>>,
    faces: Vec<Face>,
    is_triangulated: bool,
    bb_min: Vec3<S>,
    bb_max: Vec3<S>,
}

/// The mathematical content of a [`Mesh`].
pub struct MeshModel<S> {
    pub verts: Seq<Vertex<S>>,
    pub faces: Seq<Seq<usize>>,
    pub is_triangulated: bool,
    pub bb_min: Vec3<S>,
    pub bb_max: Vec3<S>,
}

/// What holds of the vertices and faces of every mesh: faces are polygons over the mesh's
/// own vertices, and a mesh marked as triangulated holds triangles alone.
pub open spec fn well_formed<S>(
    verts: Seq<Vertex<S>>,
    faces: Seq<Seq<usize>>,
    triangulated: bool,
) -> bool {
    &&& forall|f: int| 0 <= f < faces.len() ==> (#[trigger] faces[f]).len() >= 3
    &&& forall|f: int, c: int|
        0 <= f < faces.len() && 0 <= c < faces[f].len() ==> (#[trigger] faces[f][c]) < verts.len()
    &&& triangulated ==> all_triangles(faces)
}

impl<S> MeshModel<S> {
    /// What holds of every mesh.
    pub open spec fn wf(self) -> bool {
        well_formed(self.verts, self.faces, self.is_triangulated)
    }
}

impl<S> View for Mesh<S> {
    type V = MeshModel<S>;

    closed spec fn view(&self) -> MeshModel<S> {
        MeshModel {
            verts: self.verts@,
            faces: face_seqs(self.faces@),
            is_triangulated: self.is_triangulated,
            bb_min: self.bb_min,
            bb_max: self.bb_max,
        }
    }
}

/// The mesh that positions, normals and faces make, with `zero` for what is not yet known.
///
/// Where the corners name normals (or there is no corner at all), there is one vertex for
/// each different pair of position and normal, in the order in which the pairs first occur.
/// Where they name positions alone, there is one vertex for each position, its normal made
/// of `zero`. The box is made of `zero` too.
pub open spec fn assembled<S>(
    positions: Seq<Vec3<S>>,
    normals: Seq<Vec3<S>>,
    faces: Seq<Seq<ObjCorner>>,
    zero: S,
) -> MeshModel<S> {
    MeshModel {
        verts: if all_with_normals(faces) {
            unified_vertices(positions, normals, faces)
        } else {
            plain_vertices(positions, zero)
        },
        faces: if all_with_normals(faces) {
            unified_faces(faces)
        } else {
            plain_faces(faces)
        },
        is_triangulated: all_triangles(faces),
        bb_min: Vec3 { x: zero, y: zero, z: zero },
        bb_max: Vec3 { x: zero, y: zero, z: zero },
    }
}

/// A mesh assembled from polygons that name what was declared is well formed.
pub proof fn lemma_assembled_wf<S>(
    positions: Seq<Vec3<S>>,
    normals: Seq<Vec3<S>>,
    faces: Seq<Seq<ObjCorner>>,
    zero: S,
)
    requires
        !mixed_corners(faces),
        all_polygons(faces),
        all_in_range(faces, positions.len() as int, normals.len() as int),
        positions.len() <= usize::MAX,
        all_with_normals(faces) ==> unified(faces).len() <= usize::MAX,
    ensures
        assembled(positions, normals, faces, zero).wf(),
{
    let m = assembled(positions, normals, faces, zero);
    assert forall|f: int, c: int| 0 <= f < m.faces.len() && 0 <= c < m.faces[f].len() implies (
    #[trigger] m.faces[f][c]) < m.verts.len() by {
        if all_with_normals(faces) {
            lemma_unified_injective(faces, f, c, f, c);
        } else {
            assert(face_in_range(faces[f], positions.len() as int, normals.len() as int));
        }
    }
    assert forall|f: int| 0 <= f < m.faces.len() implies (#[trigger] m.faces[f]).len() >= 3 by {
        assert(faces[f].len() >= 3);
    }
    if m.is_triangulated {
        assert forall|f: int| 0 <= f < m.faces.len() implies (#[trigger] m.faces[f]).len() == 3 by {
            assert(faces[f].len() == 3);
        }
    }
}

impl<S> Mesh<S> {
    #[verifier::type_invariant]
    spec fn inv(self) -> bool {
        well_formed(self.verts@, face_seqs(self.faces@), self.is_triangulated)
    }
}

impl<S: Copy> Mesh<S> {
    /// Makes a mesh of positions, normals and the faces that name them.
    ///
    /// The faces are refused where some corners name a normal and others none, where a
    /// face has fewer than three corners, and where a corner names a position or a normal
    /// that is not there, in this order.
    pub fn assemble(
        positions: &Vec<Vec3<S>>,
        normals: &Vec<Vec3<S>>,
        faces: &Vec<Vec<ObjCorner>>,
        zero: S,
    ) -> (r: Result<Mesh<S>, MeshError>)
        ensures
            match r {
                Ok(m) => {
                    &&& !mixed_corners(corner_seqs(faces@))
                    &&& all_polygons(corner_seqs(faces@))
                    &&& all_in_range(
                        corner_seqs(faces@),
                        positions@.len() as int,
                        normals@.len() as int,
                    )
                    &&& m@ == assembled(positions@, normals@, corner_seqs(faces@), zero)
                    &&& m@.wf()
                },
                Err(MeshError::MixedFaceSyntax) => mixed_corners(corner_seqs(faces@)),
                Err(MeshError::DegenerateFace) => !mixed_corners(corner_seqs(faces@))
                    && !all_polygons(corner_seqs(faces@)),
                Err(MeshError::MalformedIndex) => {
                    &&& !mixed_corners(corner_seqs(faces@))
                    &&& all_polygons(corner_seqs(faces@))
                    &&& !all_in_range(
                        corner_seqs(faces@),
                        positions@.len() as int,
                        normals@.len() as int,
                    )
                },
                Err(_) => false,
            },
    {
        let ghost all = corner_seqs(faces@);
        let with = match check_faces(faces, positions.len(), normals.len()) {
            Ok(with) => with,
            Err(e) => {
                return Err(e);
            },
        };
        let mut triangles: bool = true;
        let mut f: usize = 0;
        while f < faces.len()
            invariant
                f <= faces.len(),
                all == corner_seqs(faces@),
                triangles == (forall|k: int| 0 <= k < f ==> (#[trigger] all[k]).len() == 3),
            decreases faces.len() - f,
        {
            assert(all[f as int] == faces@[f as int]@);
            triangles = triangles && faces[f].len() == 3;
            f += 1;
        }
        let (verts, out) = if with {
            unify(positions, normals, faces)
        } else {
            proof {
                assert forall|j: int, c: int|
                    0 <= j < all.len() && 0 <= c < all[j].len() implies 0 <= (
                #[trigger] all[j][c]).position < positions@.len() by {
                    assert(face_in_range(all[j], positions@.len() as int, normals@.len() as int));
                }
            }
            plain(positions, faces, zero)
        };
        proof {
            assert(with ==> verts@.len() == unified(all).len());
            assert(verts@.len() == verts.len() as nat);
            lemma_assembled_wf(positions@, normals@, all, zero);
        }
        Ok(
            Mesh {
                verts: verts,
                faces: out,
                is_triangulated: triangles,
                bb_min: Vec3 { x: zero, y: zero, z: zero },
                bb_max: Vec3 { x: zero, y: zero, z: zero },
            },
        )
    }

    /// The vertices.
    pub fn verts(&self) -> (r: &Vec<Vertex<S>>)
        ensures
            r@ == self@.verts,
    {
        &self.verts
    }

    /// The faces.
    pub fn faces(&self) -> (r: &Vec<Face>)
        ensures
            face_seqs(r@) == self@.faces,
            self@.wf(),
    {
        proof {
            use_type_invariant(&*self);
        }
        &self.faces
    }

    /// Whether every face is known to be a triangle.
    pub fn is_triangulated(&self) -> (r: bool)
        ensures
            r == self@.is_triangulated,
            self@.wf(),
    {
        proof {
            use_type_invariant(&*self);
        }
        self.is_triangulated
    }

    /// The corner of the box with the least coordinates.
    pub fn bb_min(&self) -> (r: Vec3<S>)
        ensures
            r == self@.bb_min,
    {
        self.bb_min
    }

    /// The corner of the box with the greatest coordinates.
    pub fn bb_max(&self) -> (r: Vec3<S>)
        ensures
            r == self@.bb_max,
    {
        self.bb_max
    }

    /// Moves vertex `i` to `pos`.
    pub fn set_position(&mut self, i: usize, pos: Vec3<S>)
        requires
            i < old(self)@.verts.len(),
        ensures
            final(self)@.verts == old(self)@.verts.update(
                i as int,
                Vertex { pos: pos, normal: old(self)@.verts[i as int].normal },
            ),
            final(self)@.faces == old(self)@.faces,
            final(self)@.is_triangulated == old(self)@.is_triangulated,
            final(self)@.bb_min == old(self)@.bb_min,
            final(self)@.bb_max == old(self)@.bb_max,
    {
        proof {
            use_type_invariant(&*self);
        }
        let normal = self.verts[i].normal;
        self.verts[i] = Vertex { pos: pos, normal: normal };
    }

    /// Gives vertex `i` the normal `normal`.
    pub fn set_normal(&mut self, i: usize, normal: Vec3<S>)
        requires
            i < old(self)@.verts.len(),
        ensures
            final(self)@.verts == old(self)@.verts.update(
                i as int,
                Vertex { pos: old(self)@.verts[i as int].pos, normal: normal },
            ),
            final(self)@.faces == old(self)@.faces,
            final(self)@.is_triangulated == old(self)@.is_triangulated,
            final(self)@.bb_min == old(self)@.bb_min,
            final(self)@.bb_max == old(self)@.bb_max,
    {
        proof {
            use_type_invariant(&*self);
        }
        let pos = self.verts[i].pos;
        self.verts[i] = Vertex { pos: pos, normal: normal };
    }

    /// Stores the box around the vertices.
    pub fn set_bounds(&mut self, bb_min: Vec3<S>, bb_max: Vec3<S>)
        ensures
            final(self)@.verts == old(self)@.verts,
            final(self)@.faces == old(self)@.faces,
            final(self)@.is_triangulated == old(self)@.is_triangulated,
            final(self)@.bb_min == bb_min,
            final(self)@.bb_max == bb_max,
    {
        proof {
            use_type_invariant(&*self);
        }
        self.bb_min = bb_min;
        self.bb_max = bb_max;
    }

    /// Replaces every face by its fan of triangles. Triangles stay as they are.
    pub fn triangulate_faces(&mut self) -> (r: Result<(), MeshError>)
        ensures
            r.is_ok(),
            final(self)@.verts == old(self)@.verts,
            final(self)@.faces == triangulated(old(self)@.faces),
            final(self)@.is_triangulated,
            all_triangles(final(self)@.faces),
            final(self)@.bb_min == old(self)@.bb_min,
            final(self)@.bb_max == old(self)@.bb_max,
            final(self)@.wf(),
    {
        proof {
            use_type_invariant(&*self);
        }
        let ghost before = face_seqs(self.faces@);
        let ghost verts = self.verts@;
        if self.is_triangulated {
            proof {
                lemma_triangulated_triangles(before);
            }
            return Ok(());
        }
        let mut new_faces: Vec<Face> = Vec::new();
        let mut f: usize = 0;
        assert(face_seqs(new_faces@) == triangulated(before.take(0)));
        while f < self.faces.len()
            invariant
                f <= self.faces.len(),
                before == face_seqs(self.faces@),
                verts == self.verts@,
                well_formed(verts, before, false),
                face_seqs(new_faces@) == triangulated(before.take(f as int)),
                well_formed(verts, face_seqs(new_faces@), true),
            decreases self.faces.len() - f,
        {
            let face = &self.faces[f];
            let n = face.verts.len();
            let ghost done = triangulated(before.take(f as int));
            let mut i: usize = 0;
            assert(face.verts@ == before[f as int]);
            assert(done + fan(before[f as int]).take(0) == done);
            while i + 2 < n
                invariant
                    i + 2 <= n,
                    n >= 3,
                    0 <= f < before.len(),
                    n == face.verts@.len(),
                    face.verts@ == before[f as int],
                    well_formed(verts, before, false),
                    face_seqs(new_faces@) == done + fan(before[f as int]).take(i as int),
                    well_formed(verts, face_seqs(new_faces@), true),
                decreases n - i,
            {
                let mut tri: Vec<usize> = Vec::new();
                tri.push(face.verts[0]);
                tri.push(face.verts[i + 1]);
                tri.push(face.verts[i + 2]);
                let ghost old_new = face_seqs(new_faces@);
                proof {
                    assert(tri@ == fan(before[f as int])[i as int]);
                    assert(before[f as int][0] < verts.len());
                    assert(before[f as int][i + 1] < verts.len());
                    assert(before[f as int][i + 2] < verts.len());
                }
                new_faces.push(Face { verts: tri });
                proof {
                    assert(face_seqs(new_faces@) == old_new.push(tri@));
                    assert(fan(before[f as int]).take(i + 1) == fan(before[f as int]).take(
                        i as int,
                    ).push(tri@));
                    assert(face_seqs(new_faces@) == done + fan(before[f as int]).take(i + 1));
                    assert forall|j: int| 0 <= j < face_seqs(new_faces@).len() implies (
                    #[trigger] face_seqs(new_faces@)[j]).len() == 3 by {
                        if j < old_new.len() {
                            assert(face_seqs(new_faces@)[j] == old_new[j]);
                        }
                    }
                    let now = face_seqs(new_faces@);
                    assert forall|j: int, c: int|
                        0 <= j < now.len() && 0 <= c < now[j].len() implies (#[trigger] now[j][c])
                        < verts.len() by {
                        if j < old_new.len() {
                            assert(face_seqs(new_faces@)[j] == old_new[j]);
                            assert(old_new[j][c] < verts.len());
                        }
                    }
                }
                i += 1;
            }
            proof {
                assert(fan(before[f as int]).take(i as int) == fan(before[f as int]));
                assert(before.take(f + 1).drop_last() == before.take(f as int));
                assert(before.take(f + 1).last() == before[f as int]);
            }
            f += 1;
        }
        proof {
            assert(before.take(f as int) == before);
        }
        self.faces = new_faces;
        self.is_triangulated = true;
        Ok(())
    }
}

} // verus!
