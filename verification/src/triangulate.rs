use crate::mesh::all_triangles;
use vstd::prelude::*;

verus! {

/// How many triangles the fan of a polygon with `n` corners has.
pub open spec fn fan_len(n: nat) -> nat {
    if n >= 2 {
        (n - 2) as nat
    } else {
        0
    }
}

/// The fan of a polygon: the triangles that its first corner makes with each pair of
/// corners that follow one another among the rest.
///
/// The fan covers the polygon where it is convex and flat; no other polygon is treated
/// differently.
pub open spec fn fan(face: Seq<usize>) -> Seq<Seq<usize>> {
    Seq::new(fan_len(face.len()), |i: int| seq![face[0], face[i + 1], face[i + 2]])
}

/// The fans of all faces, in the order of the faces.
pub open spec fn triangulated(faces: Seq<Seq<usize>>) -> Seq<Seq<usize>>
    decreases faces.len(),
{
    if faces.len() == 0 {
        Seq::empty()
    } else {
        triangulated(faces.drop_last()) + fan(faces.last())
    }
}

/// How many triangles the fans of all faces have together.
pub open spec fn triangle_count(faces: Seq<Seq<usize>>) -> nat
    decreases faces.len(),
{
    if faces.len() == 0 {
        0
    } else {
        triangle_count(faces.drop_last()) + fan_len(faces.last().len())
    }
}

/// Whether the three corners of a triangle are three different vertices.
pub open spec fn corners_differ(t: Seq<usize>) -> bool {
    t[0] != t[1] && t[1] != t[2] && t[0] != t[2]
}

/// Whether the three corners of every triangle are three different vertices.
pub open spec fn all_corners_differ(triangles: Seq<Seq<usize>>) -> bool {
    forall|t: int| 0 <= t < triangles.len() ==> corners_differ(#[trigger] triangles[t])
}

/// Every triangle of a triangulation comes from the fan of one face.
pub proof fn lemma_triangle_origin(faces: Seq<Seq<usize>>, t: int) -> (r: (int, int))
    requires
        0 <= t < triangulated(faces).len(),
    ensures
        0 <= r.0 < faces.len(),
        0 <= r.1 < fan(faces[r.0]).len(),
        triangulated(faces)[t] == fan(faces[r.0])[r.1],
    decreases faces.len(),
{
    let head = faces.drop_last();
    if t < triangulated(head).len() {
        let r = lemma_triangle_origin(head, t);
        r
    } else {
        (faces.len() - 1, t - triangulated(head).len())
    }
}

/// Triangulation leaves triangles alone: after it every face has three corners, so the
/// corners of all faces together are three times as many as the faces; a face with `n`
/// corners gives `n - 2` triangles; and where no face names a vertex twice, the three
/// corners of every triangle are three different vertices.
pub proof fn lemma_triangulation(faces: Seq<Seq<usize>>)
    ensures
        all_triangles(triangulated(faces)),
        triangulated(faces).flatten().len() == 3 * triangulated(faces).len(),
        triangulated(faces).len() == triangle_count(faces),
        (forall|f: int| 0 <= f < faces.len() ==> (#[trigger] faces[f]).no_duplicates())
            ==> all_corners_differ(triangulated(faces)),
    decreases faces.len(),
{
    let tris = triangulated(faces);
    assert forall|t: int| 0 <= t < tris.len() implies (#[trigger] tris[t]).len() == 3 by {
        let r = lemma_triangle_origin(faces, t);
    }
    lemma_flatten_triangles(tris);
    lemma_triangle_count(faces);
    if forall|f: int| 0 <= f < faces.len() ==> (#[trigger] faces[f]).no_duplicates() {
        assert forall|t: int| 0 <= t < tris.len() implies corners_differ(#[trigger] tris[t]) by {
            let r = lemma_triangle_origin(faces, t);
            assert(faces[r.0].no_duplicates());
        }
    }
}

/// Triangles laid flat are three times as many corners.
pub proof fn lemma_flatten_triangles<A>(tris: Seq<Seq<A>>)
    requires
        all_triangles(tris),
    ensures
        tris.flatten().len() == 3 * tris.len(),
    decreases tris.len(),
{
    if tris.len() > 0 {
        let head = tris.drop_last();
        assert forall|t: int| 0 <= t < head.len() implies (#[trigger] head[t]).len() == 3 by {
            assert(head[t] == tris[t]);
        }
        lemma_flatten_triangles(head);
        assert(head.push(tris.last()) == tris);
        head.lemma_flatten_push(tris.last());
    }
}

/// A triangulation has as many triangles as the fans of its faces have together.
pub proof fn lemma_triangle_count(faces: Seq<Seq<usize>>)
    ensures
        triangulated(faces).len() == triangle_count(faces),
    decreases faces.len(),
{
    if faces.len() > 0 {
        lemma_triangle_count(faces.drop_last());
    }
}

/// Triangulating triangles changes nothing.
pub proof fn lemma_triangulated_triangles(faces: Seq<Seq<usize>>)
    requires
        all_triangles(faces),
    ensures
        triangulated(faces) == faces,
    decreases faces.len(),
{
    if faces.len() > 0 {
        let head = faces.drop_last();
        assert forall|t: int| 0 <= t < head.len() implies (#[trigger] head[t]).len() == 3 by {
            assert(head[t] == faces[t]);
        }
        lemma_triangulated_triangles(head);
        let last = faces.last();
        assert(last == faces[faces.len() - 1]);
        assert(fan(last)[0] == last);
        assert(fan(last) == seq![last]);
        assert(head + seq![last] == faces);
    }
}

} // verus!
