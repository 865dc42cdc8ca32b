use crate::buffers::{interleave, interleaved};
use crate::error::MeshError;
use crate::mesh::{face_seqs, well_formed, Mesh, Vec3, Vertex};
use vstd::prelude::*;

verus! {

/// What flat shading has laid out after some of the faces.
pub struct FlatLayout<S> {
    /// The records of the vertex buffer.
    pub records: Seq<Vertex<S>>,
    /// For each vertex of the mesh, whether a face has put its normal there.
    pub claimed: Seq<bool>,
    /// The corners of the triangles laid out so far.
    pub indices: Seq<usize>,
}

/// Where flat shading starts: one record for each vertex, its normal made of `zero`, none
/// of them claimed.
pub open spec fn flat_start<S>(verts: Seq<Vertex<S>>, zero: S) -> FlatLayout<S> {
    FlatLayout {
        records: Seq::new(
            verts.len(),
            |k: int| Vertex { pos: verts[k].pos, normal: Vec3 { x: zero, y: zero, z: zero } },
        ),
        claimed: Seq::new(verts.len(), |k: int| false),
        indices: Seq::empty(),
    }
}

/// What one more triangle with the given normal does to the layout.
///
/// The normal of a triangle goes with its third corner. Where no earlier triangle has
/// claimed that vertex, this one claims it and writes its normal there. Where one has, the
/// vertex gets one more record, with this normal, and the triangle names that record.
pub open spec fn flat_step<S>(
    st: FlatLayout<S>,
    verts: Seq<Vertex<S>>,
    face: Seq<usize>,
    normal: Vec3<S>,
) -> FlatLayout<S> {
    let third = face[2] as int;
    let record = Vertex { pos: verts[third].pos, normal: normal };
    if st.claimed[third] {
        FlatLayout {
            records: st.records.push(record),
            claimed: st.claimed,
            indices: st.indices + seq![face[0], face[1], st.records.len() as usize],
        }
    } else {
        FlatLayout {
            records: st.records.update(third, record),
            claimed: st.claimed.update(third, true),
            indices: st.indices + seq![face[0], face[1], face[2]],
        }
    }
}

/// The layout after the first `n` faces, taken in their order.
pub open spec fn flat_after<S>(
    verts: Seq<Vertex<S>>,
    faces: Seq<Seq<usize>>,
    normals: Seq<Vec3<S>>,
    zero: S,
    n: nat,
) -> FlatLayout<S>
    decreases n,
{
    if n == 0 {
        flat_start(verts, zero)
    } else {
        flat_step(
            flat_after(verts, faces, normals, zero, (n - 1) as nat),
            verts,
            faces[n - 1],
            normals[n - 1],
        )
    }
}

/// The layout of a whole mesh for flat shading.
pub open spec fn flat_shaded<S>(
    verts: Seq<Vertex<S>>,
    faces: Seq<Seq<usize>>,
    normals: Seq<Vec3<S>>,
    zero: S,
) -> FlatLayout<S> {
    flat_after(verts, faces, normals, zero, faces.len())
}

/// What flat shading is for: after any number of faces, each triangle laid out so far
/// names records that lie where its corners lie, and the record of its third corner holds
/// the triangle's own normal. No record is lost, and at most one is added for each face.
pub proof fn lemma_flat_shading<S>(
    verts: Seq<Vertex<S>>,
    faces: Seq<Seq<usize>>,
    normals: Seq<Vec3<S>>,
    zero: S,
    n: nat,
)
    requires
        well_formed(verts, faces, true),
        n <= faces.len(),
        flat_after(verts, faces, normals, zero, n).records.len() <= usize::MAX,
    ensures
        ({
            let st = flat_after(verts, faces, normals, zero, n);
            &&& st.claimed.len() == verts.len()
            &&& verts.len() <= st.records.len() <= verts.len() + n
            &&& st.indices.len() == 3 * n
            &&& forall|k: int|
                0 <= k < verts.len() ==> (#[trigger] st.records[k]).pos == verts[k].pos
            &&& forall|m: int, c: int|
                0 <= m < n && 0 <= c < 3 ==> 0 <= #[trigger] st.indices[3 * m + c]
                    < st.records.len() && st.records[st.indices[3 * m + c] as int].pos
                    == verts[faces[m][c] as int].pos
            &&& forall|m: int|
                0 <= m < n ==> (#[trigger] st.records[st.indices[3 * m + 2] as int]).normal
                    == normals[m]
            &&& forall|m: int|
                0 <= m < n && st.indices[3 * m + 2] < verts.len()
                    ==> #[trigger] st.claimed[st.indices[3 * m + 2] as int]
        }),
    decreases n,
{
    if n > 0 {
        let prev = flat_after(verts, faces, normals, zero, (n - 1) as nat);
        let st = flat_after(verts, faces, normals, zero, n);
        lemma_flat_shading(verts, faces, normals, zero, (n - 1) as nat);
        let face = faces[n - 1];
        assert(face.len() == 3);
        assert(face[0] < verts.len() && face[1] < verts.len() && face[2] < verts.len());
        let third = face[2] as int;
        assert forall|m: int, c: int| 0 <= m < n && 0 <= c < 3 implies 0
            <= #[trigger] st.indices[3 * m + c] < st.records.len()
            && st.records[st.indices[3 * m + c] as int].pos == verts[faces[m][c] as int].pos by {
            if m < n - 1 {
                assert(st.indices[3 * m + c] == prev.indices[3 * m + c]);
                assert(faces[m].len() == 3);
                assert(faces[m][c] < verts.len());
            } else {
                assert(3 * m + c == prev.indices.len() + c);
            }
        }
        assert forall|m: int| 0 <= m < n implies (
        #[trigger] st.records[st.indices[3 * m + 2] as int]).normal == normals[m] by {
            if m < n - 1 {
                assert(st.indices[3 * m + 2] == prev.indices[3 * m + 2]);
                assert(0 <= prev.indices[3 * m + 2] < prev.records.len());
                assert(prev.records[prev.indices[3 * m + 2] as int].normal == normals[m]);
                if prev.indices[3 * m + 2] < verts.len() {
                    assert(prev.claimed[prev.indices[3 * m + 2] as int]);
                }
            } else {
                assert(3 * m + 2 == prev.indices.len() + 2);
            }
        }
        assert forall|m: int|
            0 <= m < n && st.indices[3 * m + 2] < verts.len()
            implies #[trigger] st.claimed[st.indices[3 * m + 2] as int] by {
            if m < n - 1 {
                assert(st.indices[3 * m + 2] == prev.indices[3 * m + 2]);
                assert(prev.claimed[prev.indices[3 * m + 2] as int]);
            } else {
                assert(3 * m + 2 == prev.indices.len() + 2);
            }
        }
    }
}

/// Whether one of the first `n` faces has `v` as its third corner.
pub open spec fn third_corner_before(faces: Seq<Seq<usize>>, n: int, v: int) -> bool {
    exists|m: int| 0 <= m < n && (#[trigger] faces[m])[2] == v
}

/// Which records flat shading adds: a vertex is claimed once a face has had it as its
/// third corner, and a triangle names a record of its own exactly if an earlier triangle
/// has the same third corner.
pub proof fn lemma_flat_claims<S>(
    verts: Seq<Vertex<S>>,
    faces: Seq<Seq<usize>>,
    normals: Seq<Vec3<S>>,
    zero: S,
    n: nat,
)
    requires
        well_formed(verts, faces, true),
        n <= faces.len(),
        flat_after(verts, faces, normals, zero, n).records.len() <= usize::MAX,
    ensures
        ({
            let st = flat_after(verts, faces, normals, zero, n);
            &&& st.claimed.len() == verts.len()
            &&& st.records.len() >= verts.len()
            &&& st.indices.len() == 3 * n
            &&& forall|v: int|
                0 <= v < verts.len() ==> (#[trigger] st.claimed[v] <==> third_corner_before(
                    faces,
                    n as int,
                    v,
                ))
            &&& forall|m: int|
                #![trigger faces[m]]
                0 <= m < n ==> st.indices[3 * m] == faces[m][0] && st.indices[3 * m + 1]
                    == faces[m][1] && st.indices[3 * m + 2] == (if third_corner_before(
                    faces,
                    m,
                    faces[m][2] as int,
                ) {
                    flat_after(verts, faces, normals, zero, m as nat).records.len() as usize
                } else {
                    faces[m][2]
                })
        }),
    decreases n,
{
    if n == 0 {
        let st = flat_after(verts, faces, normals, zero, n);
        assert forall|v: int| 0 <= v < verts.len() implies (#[trigger] st.claimed[v]
            <==> third_corner_before(faces, n as int, v)) by {}
    } else {
        let prev = flat_after(verts, faces, normals, zero, (n - 1) as nat);
        let st = flat_after(verts, faces, normals, zero, n);
        lemma_flat_claims(verts, faces, normals, zero, (n - 1) as nat);
        let face = faces[n - 1];
        assert(face.len() == 3);
        assert(face[2] < verts.len());
        let third = face[2] as int;
        assert forall|v: int| 0 <= v < verts.len() implies (#[trigger] st.claimed[v]
            <==> third_corner_before(faces, n as int, v)) by {
            if third_corner_before(faces, n as int, v) {
                let m = choose|m: int| 0 <= m < n && (#[trigger] faces[m])[2] == v;
                if m < n - 1 {
                    assert(third_corner_before(faces, n - 1, v));
                }
            }
            if st.claimed[v] {
                if v == third {
                    assert(faces[n - 1][2] == v);
                } else {
                    assert(prev.claimed[v]);
                    assert(third_corner_before(faces, n - 1, v));
                    let m = choose|m: int| 0 <= m < n - 1 && (#[trigger] faces[m])[2] == v;
                    assert(faces[m][2] == v);
                }
            }
        }
        assert forall|m: int| #![trigger faces[m]] 0 <= m < n implies st.indices[3 * m]
            == faces[m][0] && st.indices[3 * m + 1] == faces[m][1] && st.indices[3 * m + 2]
            == (if third_corner_before(faces, m, faces[m][2] as int) {
            flat_after(verts, faces, normals, zero, m as nat).records.len() as usize
        } else {
            faces[m][2]
        }) by {
            if m < n - 1 {
                assert(st.indices[3 * m] == prev.indices[3 * m]);
                assert(st.indices[3 * m + 1] == prev.indices[3 * m + 1]);
                assert(st.indices[3 * m + 2] == prev.indices[3 * m + 2]);
            } else {
                assert(3 * m == prev.indices.len());
                assert(prev.claimed[third] <==> third_corner_before(faces, n - 1, third));
            }
        }
    }
}

impl<S: Copy> Mesh<S> {
    /// The buffers for flat shading, where `face_normals` holds the normal of each face
    /// and a normal that no face has claimed is made of `zero`.
    pub fn create_primitive_buffers_flatshaded(&self, face_normals: &Vec<Vec3<S>>, zero: S) -> (r:
        Result<(Vec<S>, Vec<usize>), MeshError>)
        requires
            face_normals@.len() == self@.faces.len(),
        ensures
            match r {
                Ok(b) => {
                    &&& self@.is_triangulated
                    &&& b.0@ == interleaved(
                        flat_shaded(self@.verts, self@.faces, face_normals@, zero).records,
                    )
                    &&& b.1@ == flat_shaded(self@.verts, self@.faces, face_normals@, zero).indices
                },
                Err(e) => !self@.is_triangulated && e == MeshError::NotTriangulated,
            },
    {
        if !self.is_triangulated() {
            return Err(MeshError::NotTriangulated);
        }
        let verts = self.verts();
        let faces = self.faces();
        let ghost all = face_seqs(faces@);
        let mut records: Vec<Vertex<S>> = Vec::new();
        let mut is_used: Vec<bool> = Vec::new();
        let mut k: usize = 0;
        while k < verts.len()
            invariant
                k <= verts.len(),
                records@.len() == k,
                is_used@.len() == k,
                forall|j: int| 0 <= j < k ==> records@[j] == flat_start(verts@, zero).records[j],
                forall|j: int| 0 <= j < k ==> is_used@[j] == false,
            decreases verts.len() - k,
        {
            records.push(Vertex { pos: verts[k].pos, normal: Vec3 { x: zero, y: zero, z: zero } });
            is_used.push(false);
            k += 1;
        }
        let mut indices: Vec<usize> = Vec::new();
        assert(records@ == flat_start(verts@, zero).records);
        assert(is_used@ == flat_start(verts@, zero).claimed);
        let mut f: usize = 0;
        while f < faces.len()
            invariant
                f <= faces.len(),
                all == face_seqs(faces@),
                face_normals@.len() == all.len(),
                well_formed(verts@, all, true),
                records@ == flat_after(verts@, all, face_normals@, zero, f as nat).records,
                is_used@ == flat_after(verts@, all, face_normals@, zero, f as nat).claimed,
                indices@ == flat_after(verts@, all, face_normals@, zero, f as nat).indices,
                is_used@.len() == verts@.len(),
                records@.len() >= verts@.len(),
            decreases faces.len() - f,
        {
            let face = &faces[f];
            assert(face.verts@ == all[f as int]);
            assert(all[f as int].len() == 3);
            assert(all[f as int][2] < verts@.len());
            let third = face.verts[2];
            let record = Vertex { pos: verts[third].pos, normal: face_normals[f] };
            indices.push(face.verts[0]);
            indices.push(face.verts[1]);
            let ghost before = flat_after(verts@, all, face_normals@, zero, f as nat);
            if is_used[third] {
                indices.push(records.len());
                records.push(record);
            } else {
                is_used[third] = true;
                records[third] = record;
                indices.push(third);
            }
            proof {
                let after = flat_step(before, verts@, all[f as int], face_normals@[f as int]);
                assert(indices@ == after.indices);
                assert(records@ == after.records);
                assert(is_used@ == after.claimed);
            }
            f += 1;
        }
        Ok((interleave(&records), indices))
    }
}

} // verus!
