use crate::buffers::{interleaved, positions_only, triangle_indices};
use crate::chunk_laws::chunk_fits;
use crate::chunks::{
    chunk_models, indices_below, split, split_into_chunks, vertex_count, GeometryChunk,
};
use crate::error::MeshError;
use crate::flat::{flat_shaded, lemma_flat_shading};
use crate::mesh::{Mesh, MeshModel, Vec3};
use crate::wire::{edge_indices, lemma_wire_edges_are_sides, sides, wire_edges};
use vstd::prelude::*;
use vstd::string::StringSliceAdditionalSpecFns;

verus! {

/// How a mesh is drawn.
#[derive(Clone, Copy, Debug, PartialEq, Eq, Structural)]
pub enum ShadingType {
    /// Triangles, every vertex with its own normal.
    Smooth,
    /// Triangles, every triangle with one normal.
    Flat,
    /// The edges of the triangles as lines.
    Wireframe,
}

/// The bytes of `smooth`.
pub open spec fn name_smooth() -> Seq<u8> {
    seq![115u8, 109u8, 111u8, 111u8, 116u8, 104u8]
}

/// The bytes of `flat`.
pub open spec fn name_flat() -> Seq<u8> {
    seq![102u8, 108u8, 97u8, 116u8]
}

/// The bytes of `wireframe`.
pub open spec fn name_wireframe() -> Seq<u8> {
    seq![119u8, 105u8, 114u8, 101u8, 102u8, 114u8, 97u8, 109u8, 101u8]
}

impl ShadingType {
    /// The shading that a name stands for.
    pub open spec fn spec_from_name(name: Seq<u8>) -> Option<ShadingType> {
        if name == name_smooth() {
            Some(ShadingType::Smooth)
        } else if name == name_flat() {
            Some(ShadingType::Flat)
        } else if name == name_wireframe() {
            Some(ShadingType::Wireframe)
        } else {
            None
        }
    }

    /// Reads `smooth`, `flat` or `wireframe`; any other name stands for no shading.
    pub fn from_name(name: &str) -> (r: Option<ShadingType>)
        ensures
            r == Self::spec_from_name(name.spec_bytes()),
    {
        let b = name.as_bytes();
        if b.len() == 6 && b[0] == 115 && b[1] == 109 && b[2] == 111 && b[3] == 111 && b[4] == 116
            && b[5] == 104 {
            assert(b@ == name_smooth());
            Some(ShadingType::Smooth)
        } else if b.len() == 4 && b[0] == 102 && b[1] == 108 && b[2] == 97 && b[3] == 116 {
            assert(b@ == name_flat());
            Some(ShadingType::Flat)
        } else if b.len() == 9 && b[0] == 119 && b[1] == 105 && b[2] == 114 && b[3] == 101 && b[4]
            == 102 && b[5] == 114 && b[6] == 97 && b[7] == 109 && b[8] == 101 {
            assert(b@ == name_wireframe());
            Some(ShadingType::Wireframe)
        } else {
            assert(b@ != name_smooth()) by {
                if b@ == name_smooth() {
                    assert(b@.len() == 6 && b@[0] == 115 && b@[1] == 109 && b@[2] == 111 && b@[3]
                        == 111 && b@[4] == 116 && b@[5] == 104);
                }
            }
            assert(b@ != name_flat()) by {
                if b@ == name_flat() {
                    assert(b@.len() == 4 && b@[0] == 102 && b@[1] == 108 && b@[2] == 97 && b@[3]
                        == 116);
                }
            }
            assert(b@ != name_wireframe()) by {
                if b@ == name_wireframe() {
                    assert(b@.len() == 9 && b@[0] == 119 && b@[1] == 105 && b@[2] == 114 && b@[3]
                        == 101 && b@[4] == 102 && b@[5] == 114 && b@[6] == 97 && b@[7] == 109
                        && b@[8] == 101);
                }
            }
            None
        }
    }

    /// How many values a vertex has in the buffers of this shading: position and normal
    /// for triangles, position alone for lines.
    pub open spec fn spec_values_per_vertex(self) -> usize {
        match self {
            ShadingType::Smooth => 6,
            ShadingType::Flat => 6,
            ShadingType::Wireframe => 3,
        }
    }

    /// How many indices make one primitive of this shading: three for a triangle, two for
    /// a line.
    pub open spec fn spec_primitive_size(self) -> usize {
        match self {
            ShadingType::Smooth => 3,
            ShadingType::Flat => 3,
            ShadingType::Wireframe => 2,
        }
    }

    /// How many values a vertex has in the buffers of this shading.
    pub fn values_per_vertex(&self) -> (r: usize)
        ensures
            r == self.spec_values_per_vertex(),
    {
        match self {
            ShadingType::Smooth => 6,
            ShadingType::Flat => 6,
            ShadingType::Wireframe => 3,
        }
    }

    /// How many indices make one primitive of this shading.
    pub fn primitive_size(&self) -> (r: usize)
        ensures
            r == self.spec_primitive_size(),
    {
        match self {
            ShadingType::Smooth => 3,
            ShadingType::Flat => 3,
            ShadingType::Wireframe => 2,
        }
    }
}

/// The values of the vertices that a mesh is drawn with under a shading, where
/// `face_normals` holds the normal of each face and `zero` stands for a normal that is
/// not known.
pub open spec fn shaded_vertices<S>(
    m: MeshModel<S>,
    shading: ShadingType,
    face_normals: Seq<Vec3<S>>,
    zero: S,
) -> Seq<S> {
    match shading {
        ShadingType::Smooth => interleaved(m.verts),
        ShadingType::Flat => interleaved(flat_shaded(m.verts, m.faces, face_normals, zero).records),
        ShadingType::Wireframe => positions_only(m.verts),
    }
}

/// The indices of the primitives that a mesh is drawn with under a shading.
pub open spec fn shaded_indices<S>(
    m: MeshModel<S>,
    shading: ShadingType,
    face_normals: Seq<Vec3<S>>,
    zero: S,
) -> Seq<usize> {
    match shading {
        ShadingType::Smooth => triangle_indices(m.faces),
        ShadingType::Flat => flat_shaded(m.verts, m.faces, face_normals, zero).indices,
        ShadingType::Wireframe => edge_indices(wire_edges(sides(m.faces))),
    }
}

/// The buffers of a triangulated mesh hold whole primitives, and every index in them
/// names a vertex that they hold.
pub proof fn lemma_shaded_indices_valid<S>(
    m: MeshModel<S>,
    shading: ShadingType,
    face_normals: Seq<Vec3<S>>,
    zero: S,
)
    requires
        m.wf(),
        m.is_triangulated,
        shading == ShadingType::Flat ==> flat_shaded(
            m.verts,
            m.faces,
            face_normals,
            zero,
        ).records.len() <= usize::MAX,
    ensures
        shaded_indices(m, shading, face_normals, zero).len() as int
            % shading.spec_primitive_size() as int == 0,
        indices_below(
            shaded_indices(m, shading, face_normals, zero),
            vertex_count(
                shaded_vertices(m, shading, face_normals, zero),
                shading.spec_values_per_vertex() as int,
            ),
        ),
{
    let indices = shaded_indices(m, shading, face_normals, zero);
    match shading {
        ShadingType::Smooth => {
            assert forall|i: int| 0 <= i < indices.len() implies (#[trigger] indices[i])
                < m.verts.len() by {
                assert(m.faces[i / 3].len() == 3);
                assert(m.faces[i / 3][i % 3] < m.verts.len());
            }
        },
        ShadingType::Flat => {
            lemma_flat_shading(m.verts, m.faces, face_normals, zero, m.faces.len());
            let st = flat_shaded(m.verts, m.faces, face_normals, zero);
            assert forall|i: int| 0 <= i < indices.len() implies (#[trigger] indices[i])
                < st.records.len() by {
                assert(i == 3 * (i / 3) + i % 3);
                assert(0 <= st.indices[3 * (i / 3) + i % 3] < st.records.len());
            }
        },
        ShadingType::Wireframe => {
            let e = sides(m.faces);
            let w = wire_edges(e);
            assert forall|i: int| 0 <= i < indices.len() implies (#[trigger] indices[i])
                < m.verts.len() by {
                let j = lemma_wire_edges_are_sides(e, i / 2);
                assert(m.faces[j / 3].len() == 3);
                assert(m.faces[j / 3][j % 3] < m.verts.len());
                assert(m.faces[j / 3][(j % 3 + 1) % 3] < m.verts.len());
            }
        },
    }
}

impl<S: Copy> Mesh<S> {
    /// The buffers that the mesh is drawn with under a shading.
    pub fn create_shaded_buffers(
        &self,
        shading: ShadingType,
        face_normals: &Vec<Vec3<S>>,
        zero: S,
    ) -> (r: Result<(Vec<S>, Vec<usize>), MeshError>)
        requires
            shading == ShadingType::Flat ==> face_normals@.len() == self@.faces.len(),
        ensures
            match r {
                Ok(b) => {
                    &&& self@.is_triangulated
                    &&& b.0@ == shaded_vertices(self@, shading, face_normals@, zero)
                    &&& b.1@ == shaded_indices(self@, shading, face_normals@, zero)
                },
                Err(e) => !self@.is_triangulated && e == MeshError::NotTriangulated,
            },
    {
        match shading {
            ShadingType::Smooth => self.create_primitive_buffers(),
            ShadingType::Flat => self.create_primitive_buffers_flatshaded(face_normals, zero),
            ShadingType::Wireframe => self.create_primitive_buffers_wireframe(),
        }
    }

    /// The chunks that the mesh is drawn with under a shading, each of them within the
    /// reach of sixteen-bit indices.
    pub fn create_chunks(
        &self,
        shading: ShadingType,
        face_normals: &Vec<Vec3<S>>,
        zero: S,
    ) -> (r: Result<Vec<GeometryChunk<S>>, MeshError>)
        requires
            shading == ShadingType::Flat ==> face_normals@.len() == self@.faces.len(),
        ensures
            match r {
                Ok(chunks) => {
                    &&& self@.is_triangulated
                    &&& chunk_models(chunks@) == split(
                        shaded_vertices(self@, shading, face_normals@, zero),
                        shaded_indices(self@, shading, face_normals@, zero),
                        shading.spec_values_per_vertex() as int,
                        shading.spec_primitive_size() as int,
                    )
                    &&& forall|i: int|
                        0 <= i < chunks@.len() ==> chunk_fits(
                            (#[trigger] chunks@[i])@,
                            shading.spec_values_per_vertex() as int,
                        )
                },
                Err(e) => !self@.is_triangulated && e == MeshError::NotTriangulated,
            },
    {
        if !self.is_triangulated() {
            return Err(MeshError::NotTriangulated);
        }
        let (vertices, indices) = match self.create_shaded_buffers(shading, face_normals, zero) {
            Ok(b) => b,
            Err(e) => {
                return Err(e);
            },
        };
        proof {
            assert(vertices@.len() == vertices.len());
            lemma_shaded_indices_valid(self@, shading, face_normals@, zero);
        }
        split_into_chunks(
            vertices.as_slice(),
            indices.as_slice(),
            shading.values_per_vertex(),
            shading.primitive_size(),
        )
    }
}

} // verus!
