//! Vertex numbering of a triangulation's output mesh.
//!
//! The triangulation yields triangles whose corners carry point ids. The
//! output mesh lists each distinct point once, in the order in which it
//! first appears among the triangle corners, and refers to it by its place
//! in that list.

use vstd::prelude::*;
use std::collections::HashMap;

verus! {

broadcast use vstd::std_specs::hash::group_hash_axioms;

/// The distinct ids among the first `n` corners, in order of first
/// appearance.
pub open spec fn first_appearances(ids: Seq<i32>, n: int) -> Seq<i32>
    decreases n,
{
    if n <= 0 {
        Seq::empty()
    } else {
        let earlier = first_appearances(ids, n - 1);
        if earlier.contains(ids[n - 1]) {
            earlier
        } else {
            earlier.push(ids[n - 1])
        }
    }
}

/// Numbers the distinct ids of `corner_ids` by first appearance. Returns
/// the face array (each corner replaced by its vertex number) and the ids
/// of the vertices in number order.
pub fn compact_vertices(corner_ids: &Vec<i32>) -> (r: (Vec<i32>, Vec<i32>))
    requires
        corner_ids@.len() <= i32::MAX,
    ensures
        r.1@ == first_appearances(corner_ids@, corner_ids@.len() as int),
        r.1@.no_duplicates(),
        r.0@.len() == corner_ids@.len(),
        forall|k: int|
            0 <= k < corner_ids@.len() ==> 0 <= #[trigger] r.0@[k] < r.1@.len() && r.1@[r.0@[k]
                as int] == corner_ids@[k],
{
    let ghost ids = corner_ids@;
    let n = corner_ids.len();
    let mut index_of: HashMap<i32, usize> = HashMap::new();
    let mut vertex_ids: Vec<i32> = Vec::new();
    let mut faces: Vec<i32> = Vec::new();
    let mut i: usize = 0;
    while i < n
        invariant
            ids == corner_ids@,
            n == ids.len(),
            n <= i32::MAX,
            i <= n,
            vertex_ids@ == first_appearances(ids, i as int),
            vertex_ids@.len() <= i,
            faces@.len() == i,
            forall|x: i32| #[trigger]
                index_of@.contains_key(x) <==> vertex_ids@.contains(x),
            forall|x: i32| #[trigger]
                index_of@.contains_key(x) ==> index_of@[x] < vertex_ids@.len()
                    && vertex_ids@[index_of@[x] as int] == x,
            forall|j: int|
                0 <= j < vertex_ids@.len() ==> #[trigger] index_of@[vertex_ids@[j]] == j,
            forall|k: int|
                0 <= k < i ==> 0 <= #[trigger] faces@[k] < vertex_ids@.len() && vertex_ids@[faces@[k]
                    as int] == ids[k],
        decreases n - i,
    {
        let id = corner_ids[i];
        let ghost before = vertex_ids@;
        match index_of.get(&id) {
            Some(v) => {
                faces.push(*v as i32);
                assert(before.contains(id));
            },
            None => {
                let v = vertex_ids.len();
                assert(!before.contains(id));
                index_of.insert(id, v);
                vertex_ids.push(id);
                faces.push(v as i32);
                assert(vertex_ids@[v as int] == id);
                assert forall|x: i32| #[trigger]
                    index_of@.contains_key(x) <==> vertex_ids@.contains(x) by {
                    if vertex_ids@.contains(x) && x != id {
                        let j = choose|j: int| 0 <= j < vertex_ids@.len() && vertex_ids@[j] == x;
                        assert(before[j] == x);
                    }
                    if x != id && before.contains(x) {
                        let j = choose|j: int| 0 <= j < before.len() && before[j] == x;
                        assert(vertex_ids@[j] == x);
                    }
                }
                assert forall|j: int|
                    0 <= j < vertex_ids@.len() implies #[trigger] index_of@[vertex_ids@[j]] == j by {
                    if j < before.len() {
                        assert(vertex_ids@[j] == before[j]);
                        assert(before.contains(before[j]));
                    }
                }
            },
        }
        i = i + 1;
    }
    assert forall|a: int, b: int|
        0 <= a < vertex_ids@.len() && 0 <= b < vertex_ids@.len() && a != b implies vertex_ids@[a]
        != vertex_ids@[b] by {
        assert(index_of@[vertex_ids@[a]] == a);
        assert(index_of@[vertex_ids@[b]] == b);
    }
    (faces, vertex_ids)
}

} // verus!
