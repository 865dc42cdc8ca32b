use crate::buffers::{lay_out_positions, positions_only};
use crate::error::MeshError;
use crate::mesh::{all_triangles, face_seqs, Mesh};
use crate::seqs::{
    distinct, lemma_distinct, lemma_distinct_len, lemma_equal_occurrences_len, occurrences,
};
use std::collections::HashSet;
use vstd::prelude::*;

verus! {

broadcast use vstd::std_specs::hash::group_hash_axioms;

/// An edge without its direction: the lesser of its two ends first.
pub open spec fn undirected(e: (usize, usize)) -> (usize, usize) {
    if e.0 < e.1 {
        e
    } else {
        (e.1, e.0)
    }
}

/// The sides of triangles, three for each, in the order of the triangles: from the first
/// corner to the second, from the second to the third, from the third to the first.
pub open spec fn sides(faces: Seq<Seq<usize>>) -> Seq<(usize, usize)> {
    Seq::new(3 * faces.len(), |i: int| (faces[i / 3][i % 3], faces[i / 3][(i % 3 + 1) % 3]))
}

/// The edges of `e` without their directions.
pub open spec fn all_undirected(e: Seq<(usize, usize)>) -> Seq<(usize, usize)> {
    Seq::new(e.len(), |i: int| undirected(e[i]))
}

/// Whether no edge before the one at `i` joins the same two ends.
pub open spec fn first_of_its_kind(e: Seq<(usize, usize)>, i: int) -> bool {
    forall|j: int| 0 <= j < i ==> undirected(#[trigger] e[j]) != undirected(e[i])
}

/// The edges of `e` that a wireframe draws: each one that is the first to join its two
/// ends, as it stands in `e`, in the order of `e`.
pub open spec fn wire_edges(e: Seq<(usize, usize)>) -> Seq<(usize, usize)>
    decreases e.len(),
{
    if e.len() == 0 {
        Seq::empty()
    } else if first_of_its_kind(e, e.len() - 1) {
        wire_edges(e.drop_last()).push(e.last())
    } else {
        wire_edges(e.drop_last())
    }
}

/// The ends of edges, two for each, in the order of the edges.
pub open spec fn edge_indices(w: Seq<(usize, usize)>) -> Seq<usize> {
    Seq::new(
        2 * w.len(),
        |i: int| if i % 2 == 0 {
            w[i / 2].0
        } else {
            w[i / 2].1
        },
    )
}

/// A wireframe draws every edge once, however many triangles share it: the edges that it
/// draws, without their directions, are the different edges among the sides, in the order
/// in which they first occur.
pub proof fn lemma_wire_edges_distinct(e: Seq<(usize, usize)>)
    ensures
        all_undirected(wire_edges(e)) == distinct(all_undirected(e)),
        all_undirected(wire_edges(e)).no_duplicates(),
        forall|i: int|
            0 <= i < e.len() ==> all_undirected(wire_edges(e)).contains(undirected(#[trigger] e[i])),
    decreases e.len(),
{
    let u = all_undirected(e);
    lemma_distinct(u);
    if e.len() == 0 {
        assert(all_undirected(wire_edges(e)) == distinct(u));
    } else {
        let head = e.drop_last();
        lemma_wire_edges_distinct(head);
        assert(u.drop_last() == all_undirected(head));
        lemma_distinct(all_undirected(head));
        let last = undirected(e.last());
        let seen = distinct(all_undirected(head));
        assert(u.last() == last);
        if first_of_its_kind(e, e.len() - 1) {
            if all_undirected(head).contains(last) {
                let j = choose|j: int| 0 <= j < head.len() && all_undirected(head)[j] == last;
                assert(undirected(e[j]) == last);
            }
            assert(!seen.contains(last));
            assert(distinct(u) == seen.push(last));
            assert(all_undirected(wire_edges(head).push(e.last())) == seen.push(last));
        } else {
            let j = choose|j: int|
                0 <= j < e.len() - 1 && undirected(#[trigger] e[j]) == undirected(e[e.len() - 1]);
            assert(all_undirected(head)[j] == last);
            assert(all_undirected(head).contains(last));
            assert(seen.contains(last));
            assert(distinct(u) == seen);
        }
    }
    assert forall|i: int| 0 <= i < e.len() implies distinct(u).contains(
        undirected(#[trigger] e[i]),
    ) by {
        assert(u[i] == undirected(e[i]));
        assert(u.contains(undirected(e[i])));
    }
}

/// A wireframe draws as many edges as there are different pairs of ends among the sides.
pub proof fn lemma_wire_edge_count(e: Seq<(usize, usize)>)
    ensures
        wire_edges(e).len() == all_undirected(e).to_set().len(),
        wire_edges(e).len() == distinct(all_undirected(e)).len(),
{
    lemma_wire_edges_distinct(e);
    lemma_distinct_len(all_undirected(e));
    assert(all_undirected(wire_edges(e)).len() == wire_edges(e).len());
}

/// Whether every edge of the triangles is a side of exactly two of them, as in a closed
/// surface.
pub open spec fn closed_surface(faces: Seq<Seq<usize>>) -> bool {
    forall|i: int|
        0 <= i < sides(faces).len() ==> occurrences(
            all_undirected(sides(faces)),
            #[trigger] all_undirected(sides(faces))[i],
        ) == 2
}

/// The wireframe of a closed surface has three edges for every two triangles.
pub proof fn lemma_closed_surface_edges(faces: Seq<Seq<usize>>)
    requires
        closed_surface(faces),
    ensures
        2 * wire_edges(sides(faces)).len() == 3 * faces.len(),
        edge_indices(wire_edges(sides(faces))).len() == 3 * faces.len(),
{
    let u = all_undirected(sides(faces));
    lemma_equal_occurrences_len(u, 2);
    lemma_wire_edge_count(sides(faces));
}

/// A wireframe draws no edge that is not a side.
pub proof fn lemma_wire_edges_are_sides(e: Seq<(usize, usize)>, k: int) -> (j: int)
    requires
        0 <= k < wire_edges(e).len(),
    ensures
        0 <= j < e.len(),
        wire_edges(e)[k] == e[j],
    decreases e.len(),
{
    let head = e.drop_last();
    if k < wire_edges(head).len() {
        let j = lemma_wire_edges_are_sides(head, k);
        j
    } else {
        e.len() - 1
    }
}

/// The number under which an edge is kept while a wireframe is laid out.
pub open spec fn edge_key(e: (usize, usize)) -> u128 {
    (e.0 as int * 0x1_0000_0000_0000_0000 + e.1 as int) as u128
}

/// Whether `seen` holds the keys of the first `n` edges of `e` and no other, `origin`
/// telling for each key one of the edges that it comes from.
pub open spec fn keys_of(
    seen: Set<u128>,
    origin: Map<u128, int>,
    e: Seq<(usize, usize)>,
    n: int,
) -> bool {
    &&& forall|j: int| 0 <= j < n ==> seen.contains(edge_key(undirected(#[trigger] e[j])))
    &&& forall|k: u128| #[trigger]
        seen.contains(k) ==> 0 <= origin[k] < n && edge_key(undirected(e[origin[k]])) == k
}

/// One more edge adds its two ends to the indices.
pub proof fn lemma_edge_indices_push(w: Seq<(usize, usize)>, e: (usize, usize))
    ensures
        edge_indices(w.push(e)) == edge_indices(w).push(e.0).push(e.1),
{
    let a = edge_indices(w.push(e));
    let b = edge_indices(w).push(e.0).push(e.1);
    assert forall|i: int| 0 <= i < a.len() implies a[i] == b[i] by {
        if i < 2 * w.len() {
            assert(w.push(e)[i / 2] == w[i / 2]);
        }
    }
    assert(a == b);
}

impl<S: Copy> Mesh<S> {
    /// The buffers for a wireframe: the position of every vertex, and the ends of every
    /// edge, each edge once.
    pub fn create_primitive_buffers_wireframe(&self) -> (r: Result<(Vec<S>, Vec<usize>), MeshError>)
        ensures
            match r {
                Ok(b) => {
                    &&& self@.is_triangulated
                    &&& b.0@ == positions_only(self@.verts)
                    &&& b.1@ == edge_indices(wire_edges(sides(self@.faces)))
                },
                Err(e) => !self@.is_triangulated && e == MeshError::NotTriangulated,
            },
    {
        if !self.is_triangulated() {
            return Err(MeshError::NotTriangulated);
        }
        let verts = lay_out_positions(self.verts());
        let faces = self.faces();
        let ghost all = face_seqs(faces@);
        let ghost e = sides(all);
        let mut indices: Vec<usize> = Vec::new();
        let mut edge_set: HashSet<u128> = HashSet::new();
        let ghost mut origin: Map<u128, int> = Map::empty();
        let mut f: usize = 0;
        assert(e.take(0) == Seq::<(usize, usize)>::empty());
        while f < faces.len()
            invariant
                f <= faces.len(),
                all == face_seqs(faces@),
                all_triangles(all),
                e == sides(all),
                indices@ == edge_indices(wire_edges(e.take(3 * f))),
                keys_of(edge_set@, origin, e, 3 * f),
            decreases faces.len() - f,
        {
            let face = &faces[f];
            assert(face.verts@ == all[f as int]);
            let mut c: usize = 0;
            while c < 3
                invariant
                    c <= 3,
                    0 <= f < all.len(),
                    face.verts@ == all[f as int],
                    all[f as int].len() == 3,
                    e == sides(all),
                    indices@ == edge_indices(wire_edges(e.take(3 * f + c))),
                    keys_of(edge_set@, origin, e, 3 * f + c),
                decreases 3 - c,
            {
                let a = face.verts[c];
                let b = face.verts[if c == 2 { 0 } else { c + 1 }];
                let ghost i = 3 * f + c;
                assert(e[i] == (a, b));
                let (lo, hi) = if a < b { (a, b) } else { (b, a) };
                assert((lo, hi) == undirected(e[i]));
                let key: u128 = (lo as u128) * 0x1_0000_0000_0000_0000u128 + (hi as u128);
                assert(key == edge_key(undirected(e[i])));
                let ghost shorter = e.take(i);
                let ghost longer = e.take(i + 1);
                let fresh = edge_set.insert(key);
                proof {
                    assert(longer.drop_last() == shorter);
                    assert(longer.last() == e[i]);
                    if fresh {
                        assert forall|j: int| 0 <= j < i implies undirected(#[trigger] longer[j])
                            != undirected(longer[i]) by {
                            assert(longer[j] == e[j]);
                            if undirected(e[j]) == undirected(e[i]) {
                                assert(edge_key(undirected(e[j])) == key);
                            }
                        }
                        origin = origin.insert(key, i);
                        lemma_edge_indices_push(wire_edges(shorter), e[i]);
                    } else {
                        let j = origin[key];
                        assert(edge_key(undirected(e[j])) == edge_key(undirected(e[i])));
                        assert(undirected(e[j]) == undirected(e[i]));
                        assert(longer[j] == e[j]);
                        assert(!first_of_its_kind(longer, i));
                    }
                }
                if fresh {
                    indices.push(a);
                    indices.push(b);
                }
                c += 1;
            }
            f += 1;
        }
        proof {
            assert(e.take(3 * f) == e);
        }
        Ok((verts, indices))
    }
}

} // verus!
