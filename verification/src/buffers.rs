use crate::error::MeshError;
use crate::mesh::{all_triangles, face_seqs, Mesh, Vec3, Vertex};
use vstd::prelude::*;

verus! {

/// The six values of a vertex as a buffer holds them: position, then normal.
pub open spec fn vertex_values<S>(v: Vertex<S>) -> Seq<S> {
    seq![v.pos.x, v.pos.y, v.pos.z, v.normal.x, v.normal.y, v.normal.z]
}

/// Positions and normals of `verts`, six values for each vertex, in the order of the
/// vertices.
pub open spec fn interleaved<S>(verts: Seq<Vertex<S>>) -> Seq<S> {
    Seq::new(6 * verts.len(), |i: int| vertex_values(verts[i / 6])[i % 6])
}

/// The positions of `verts`, three values for each vertex, in the order of the vertices.
pub open spec fn positions_only<S>(verts: Seq<Vertex<S>>) -> Seq<S> {
    Seq::new(3 * verts.len(), |i: int| vertex_values(verts[i / 3])[i % 3])
}

/// The corners of triangles, three for each, in the order of the triangles.
pub open spec fn triangle_indices(faces: Seq<Seq<usize>>) -> Seq<usize> {
    Seq::new(3 * faces.len(), |i: int| faces[i / 3][i % 3])
}

/// The eight corners of the box between `lo` and `hi`, three values for each.
pub open spec fn box_corners<S>(lo: Vec3<S>, hi: Vec3<S>) -> Seq<S> {
    seq![
        lo.x, lo.y, lo.z,
        lo.x, lo.y, hi.z,
        lo.x, hi.y, lo.z,
        lo.x, hi.y, hi.z,
        hi.x, lo.y, lo.z,
        hi.x, lo.y, hi.z,
        hi.x, hi.y, lo.z,
        hi.x, hi.y, hi.z,
    ]
}

/// The twelve edges of a box, each as the two corners that it joins.
pub open spec fn box_edges() -> Seq<u16> {
    seq![
        0u16, 1u16, 1u16, 5u16, 5u16, 4u16, 4u16, 0u16,
        2u16, 3u16, 3u16, 7u16, 7u16, 6u16, 6u16, 2u16,
        0u16, 2u16, 1u16, 3u16, 5u16, 7u16, 4u16, 6u16,
    ]
}

/// The corners of triangles in the order of the triangles are the triangles laid flat.
pub proof fn lemma_triangle_indices_flatten(faces: Seq<Seq<usize>>)
    requires
        all_triangles(faces),
    ensures
        triangle_indices(faces) == faces.flatten(),
    decreases faces.len(),
{
    if faces.len() == 0 {
        assert(triangle_indices(faces) == Seq::<usize>::empty());
    } else {
        let head = faces.drop_last();
        let last = faces.last();
        assert forall|f: int| 0 <= f < head.len() implies (#[trigger] head[f]).len() == 3 by {
            assert(head[f] == faces[f]);
        }
        lemma_triangle_indices_flatten(head);
        assert(head.push(last) == faces);
        head.lemma_flatten_push(last);
        assert(last == faces[faces.len() - 1]);
        assert(triangle_indices(faces) == triangle_indices(head) + last);
    }
}

/// Lays out positions and normals, six values for each vertex.
pub fn interleave<S: Copy>(verts: &Vec<Vertex<S>>) -> (out: Vec<S>)
    ensures
        out@ == interleaved(verts@),
{
    let mut out: Vec<S> = Vec::new();
    let mut k: usize = 0;
    while k < verts.len()
        invariant
            k <= verts.len(),
            out@.len() == 6 * k,
            forall|j: int| 0 <= j < 6 * k ==> out@[j] == vertex_values(verts@[j / 6])[j % 6],
        decreases verts.len() - k,
    {
        let v = verts[k];
        out.push(v.pos.x);
        out.push(v.pos.y);
        out.push(v.pos.z);
        out.push(v.normal.x);
        out.push(v.normal.y);
        out.push(v.normal.z);
        k += 1;
    }
    out
}

/// Lays out positions, three values for each vertex.
pub fn lay_out_positions<S: Copy>(verts: &Vec<Vertex<S>>) -> (out: Vec<S>)
    ensures
        out@ == positions_only(verts@),
{
    let mut out: Vec<S> = Vec::new();
    let mut k: usize = 0;
    while k < verts.len()
        invariant
            k <= verts.len(),
            out@.len() == 3 * k,
            forall|j: int| 0 <= j < 3 * k ==> out@[j] == vertex_values(verts@[j / 3])[j % 3],
        decreases verts.len() - k,
    {
        let v = verts[k];
        out.push(v.pos.x);
        out.push(v.pos.y);
        out.push(v.pos.z);
        k += 1;
    }
    out
}

impl<S: Copy> Mesh<S> {
    /// The buffers for smooth shading: every vertex once, with its own normal, and the
    /// corners of the triangles as they are.
    pub fn create_primitive_buffers(&self) -> (r: Result<(Vec<S>, Vec<usize>), MeshError>)
        ensures
            match r {
                Ok(b) => {
                    &&& self@.is_triangulated
                    &&& b.0@ == interleaved(self@.verts)
                    &&& b.1@ == triangle_indices(self@.faces)
                },
                Err(e) => !self@.is_triangulated && e == MeshError::NotTriangulated,
            },
    {
        if !self.is_triangulated() {
            return Err(MeshError::NotTriangulated);
        }
        let verts = interleave(self.verts());
        let faces = self.faces();
        let ghost all = face_seqs(faces@);
        let mut indices: Vec<usize> = Vec::new();
        let mut f: usize = 0;
        while f < faces.len()
            invariant
                f <= faces.len(),
                all == face_seqs(faces@),
                all_triangles(all),
                indices@.len() == 3 * f,
                forall|j: int| 0 <= j < 3 * f ==> indices@[j] == all[j / 3][j % 3],
            decreases faces.len() - f,
        {
            let face = &faces[f];
            assert(face.verts@ == all[f as int]);
            indices.push(face.verts[0]);
            indices.push(face.verts[1]);
            indices.push(face.verts[2]);
            f += 1;
        }
        Ok((verts, indices))
    }

    /// The buffers for the box around the mesh: its eight corners and its twelve edges.
    pub fn create_bb_primitive_buffers(&self) -> (r: Result<(Vec<S>, Vec<u16>), MeshError>)
        ensures
            match r {
                Ok(b) => b.0@ == box_corners(self@.bb_min, self@.bb_max) && b.1@ == box_edges(),
                Err(_) => false,
            },
    {
        let lo = self.bb_min();
        let hi = self.bb_max();
        let mut verts: Vec<S> = Vec::new();
        verts.push(lo.x); verts.push(lo.y); verts.push(lo.z);
        verts.push(lo.x); verts.push(lo.y); verts.push(hi.z);
        verts.push(lo.x); verts.push(hi.y); verts.push(lo.z);
        verts.push(lo.x); verts.push(hi.y); verts.push(hi.z);
        verts.push(hi.x); verts.push(lo.y); verts.push(lo.z);
        verts.push(hi.x); verts.push(lo.y); verts.push(hi.z);
        verts.push(hi.x); verts.push(hi.y); verts.push(lo.z);
        verts.push(hi.x); verts.push(hi.y); verts.push(hi.z);
        let mut indices: Vec<u16> = Vec::new();
        indices.push(0); indices.push(1); indices.push(1); indices.push(5);
        indices.push(5); indices.push(4); indices.push(4); indices.push(0);
        indices.push(2); indices.push(3); indices.push(3); indices.push(7);
        indices.push(7); indices.push(6); indices.push(6); indices.push(2);
        indices.push(0); indices.push(2); indices.push(1); indices.push(3);
        indices.push(5); indices.push(7); indices.push(4); indices.push(6);
        assert(verts@ == box_corners(lo, hi));
        assert(indices@ == box_edges());
        Ok((verts, indices))
    }
}

} // verus!
