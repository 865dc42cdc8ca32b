use vstd::prelude::*;

verus! {

/// Why a mesh could not be loaded or turned into buffers.
#[derive(Clone, Copy, Debug, PartialEq, Eq, Structural)]
pub enum MeshError {
    /// A line starts with a word that is neither `v`, `vn` nor `f`.
    UnrecognizedRecord,
    /// Faces written as bare indices and faces written as `p/t/n` groups occur together.
    MixedFaceSyntax,
    /// A position or normal line lacks one of its three numbers, or one is not a number.
    MalformedNumber,
    /// An index is not an integer, is below one, or points past what was declared.
    MalformedIndex,
    /// A face has fewer than three corners.
    DegenerateFace,
    /// Buffers were asked of a mesh that still holds polygons with more than three corners.
    NotTriangulated,
    /// More vertices than sixteen-bit indices can address were given where no splitting happens.
    IndexSpaceExceeded,
}

impl MeshError {
    /// The text of the message, as a sequence of characters.
    pub open spec fn spec_message(self) -> Seq<char> {
        match self {
            MeshError::UnrecognizedRecord => "Unexpected record"@,
            MeshError::MixedFaceSyntax => "Invalid face definition, simple and composite mixed"@,
            MeshError::MalformedNumber => "Invalid number"@,
            MeshError::MalformedIndex => "Invalid index"@,
            MeshError::DegenerateFace => "Face with fewer than three vertices"@,
            MeshError::NotTriangulated => "Mesh is not triangulated"@,
            MeshError::IndexSpaceExceeded => "Too many vertices for 16-bit indices"@,
        }
    }

    /// A message for a person to read.
    pub fn message(&self) -> (r: String)
        ensures
            r@ == self.spec_message(),
    {
        match self {
            MeshError::UnrecognizedRecord => "Unexpected record".to_owned(),
            MeshError::MixedFaceSyntax => {
                "Invalid face definition, simple and composite mixed".to_owned()
            },
            MeshError::MalformedNumber => "Invalid number".to_owned(),
            MeshError::MalformedIndex => "Invalid index".to_owned(),
            MeshError::DegenerateFace => "Face with fewer than three vertices".to_owned(),
            MeshError::NotTriangulated => "Mesh is not triangulated".to_owned(),
            MeshError::IndexSpaceExceeded => "Too many vertices for 16-bit indices".to_owned(),
        }
    }
}

} // verus!
