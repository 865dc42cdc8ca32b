//! Polygon meshes from text to vertex and index buffers.
//!
//! A mesh text declares positions (`v x y z`), normals (`vn x y z`) and faces (`f ...`).
//! The library reads such a text ([`parser`]), makes a mesh of what it declares
//! ([`mesh`], [`unify`]), cuts polygons into triangles ([`triangulate`]), lays the mesh
//! out for smooth shading, flat shading or as a wireframe ([`buffers`], [`flat`],
//! [`wire`], [`shading`]), and splits buffers into chunks that sixteen-bit indices can
//! address ([`chunks`]).
//!
//! The library moves coordinates about and never computes with them, so it is written
//! for any type of coordinate: a mesh is a `Mesh<S>`, and what depends on arithmetic
//! (the normal of a face, the box around a mesh) is handed to it by its caller. The
//! parser finds the words of a text that write numbers and leaves their values to the
//! caller as well.
//!
//! Every function states what it returns over the mathematical content of its
//! arguments, and the modules whose names end in `_laws`, together with the proof
//! functions beside the definitions, state what follows from those definitions.

pub mod buffers;
pub mod chunk_laws;
pub mod chunks;
pub mod error;
pub mod flat;
pub mod mesh;
pub mod parser;
pub mod parser_laws;
pub mod seqs;
pub mod shading;
pub mod text;
pub mod text_laws;
pub mod triangulate;
pub mod unify;
pub mod wire;
