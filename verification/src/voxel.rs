//! Voxel-grid downsampling: one output point per occupied voxel.
//!
//! The caller maps each input point to the integer coordinates of its voxel;
//! this module picks, for every occupied voxel, the first point that falls
//! in it. That point gives the output's colour.

use vstd::prelude::*;
use std::collections::HashSet;

verus! {

broadcast use vstd::std_specs::hash::group_hash_axioms;

/// Grid size per axis used when a request does not name a positive one.
pub const DEFAULT_MAX_GRID_DIM: i32 = 500;

/// The per-axis grid limit used for a requested value.
pub fn effective_max_grid_dim(requested: i32) -> (r: i32)
    ensures
        r == if requested > 0 {
            requested
        } else {
            DEFAULT_MAX_GRID_DIM
        },
{
    if requested > 0 {
        requested
    } else {
        DEFAULT_MAX_GRID_DIM
    }
}

/// Integer coordinates of a voxel.
pub type VoxelKey = (u32, u32, u32);

/// Point `i` is the first to fall in its voxel.
pub open spec fn is_first_in_voxel(keys: Seq<VoxelKey>, i: int) -> bool {
    forall|j: int| 0 <= j < i ==> keys[j] != keys[i]
}

/// The points among the first `n` that are first in their voxel, in input
/// order.
pub open spec fn first_occurrences(keys: Seq<VoxelKey>, n: int) -> Seq<usize>
    decreases n,
{
    if n <= 0 {
        Seq::empty()
    } else if is_first_in_voxel(keys, n - 1) {
        first_occurrences(keys, n - 1).push((n - 1) as usize)
    } else {
        first_occurrences(keys, n - 1)
    }
}

/// A single number for a voxel, distinct for distinct voxels.
pub open spec fn pack_key(k: VoxelKey) -> int {
    k.0 * 0x1_0000_0000_0000_0000 + k.1 * 0x1_0000_0000 + k.2
}

pub proof fn lemma_pack_injective(a: VoxelKey, b: VoxelKey)
    ensures
        pack_key(a) == pack_key(b) ==> a == b,
{
}

fn pack(k: VoxelKey) -> (r: u128)
    ensures
        r as int == pack_key(k),
{
    (k.0 as u128) * 0x1_0000_0000_0000_0000u128 + (k.1 as u128) * 0x1_0000_0000u128 + (k.2 as u128)
}

/// Indices of the points that are the first to fall in their voxel, in
/// input order.
pub fn first_in_each_voxel(keys: &Vec<VoxelKey>) -> (r: Vec<usize>)
    ensures
        r@ == first_occurrences(keys@, keys@.len() as int),
{
    let n = keys.len();
    let mut seen: HashSet<u128> = HashSet::new();
    let mut out: Vec<usize> = Vec::new();
    let mut i: usize = 0;
    while i < n
        invariant
            n == keys@.len(),
            i <= n,
            out@ == first_occurrences(keys@, i as int),
            forall|p: u128| #[trigger]
                seen@.contains(p) <==> exists|j: int|
                    0 <= j < i && #[trigger] pack_key(keys@[j]) == p as int,
        decreases n - i,
    {
        let k = keys[i];
        let p = pack(k);
        let fresh = seen.insert(p);
        proof {
            if fresh {
                assert forall|j: int| 0 <= j < i implies keys@[j] != keys@[i as int] by {
                    if keys@[j] == keys@[i as int] {
                        assert(pack_key(keys@[j]) == p as int);
                    }
                }
            } else {
                let j = choose|j: int| 0 <= j < i && #[trigger] pack_key(keys@[j]) == p as int;
                lemma_pack_injective(keys@[j], keys@[i as int]);
            }
            assert forall|q: u128| #[trigger]
                seen@.contains(q) <==> exists|j: int|
                    0 <= j < i + 1 && #[trigger] pack_key(keys@[j]) == q as int by {
                if q == p {
                    assert(pack_key(keys@[i as int]) == q as int);
                }
            }
        }
        if fresh {
            out.push(i);
        }
        i = i + 1;
    }
    out
}

/// The chosen points lie in distinct voxels, in increasing input order,
/// and each is the first in its voxel.
pub proof fn lemma_first_occurrences_distinct(keys: Seq<VoxelKey>, n: int)
    requires
        0 <= n <= keys.len(),
        keys.len() <= usize::MAX,
    ensures
        forall|a: int, b: int|
            0 <= a < b < first_occurrences(keys, n).len() ==> keys[#[trigger] first_occurrences(
                keys,
                n,
            )[a] as int] != keys[#[trigger] first_occurrences(keys, n)[b] as int]
                && first_occurrences(keys, n)[a] < first_occurrences(keys, n)[b],
        forall|a: int|
            0 <= a < first_occurrences(keys, n).len() ==> 0 <= #[trigger] first_occurrences(
                keys,
                n,
            )[a] < n && is_first_in_voxel(keys, first_occurrences(keys, n)[a] as int),
    decreases n,
{
    if n > 0 {
        lemma_first_occurrences_distinct(keys, n - 1);
        let prev = first_occurrences(keys, n - 1);
        let cur = first_occurrences(keys, n);
        if is_first_in_voxel(keys, n - 1) {
            assert(cur == prev.push((n - 1) as usize));
            assert forall|a: int| 0 <= a < cur.len() implies 0 <= #[trigger] cur[a] < n
                && is_first_in_voxel(keys, cur[a] as int) by {
                if a < prev.len() {
                    assert(cur[a] == prev[a]);
                }
            }
            assert forall|a: int, b: int| 0 <= a < b < cur.len() implies keys[#[trigger] cur[a]
                as int] != keys[#[trigger] cur[b] as int] && cur[a] < cur[b] by {
                assert(cur[a] == prev[a]);
                if b < prev.len() {
                    assert(cur[b] == prev[b]);
                } else {
                    assert(cur[b] == n - 1);
                    assert(prev[a] < n - 1);
                }
            }
        }
    }
}

/// Every voxel that some point falls in is represented.
pub proof fn lemma_first_occurrences_cover(keys: Seq<VoxelKey>, n: int, i: int)
    requires
        0 <= i < n <= keys.len(),
        keys.len() <= usize::MAX,
    ensures
        exists|a: int|
            0 <= a < first_occurrences(keys, n).len() && keys[#[trigger] first_occurrences(
                keys,
                n,
            )[a] as int] == keys[i],
    decreases i,
{
    if is_first_in_voxel(keys, i) {
        lemma_first_occurrences_contains(keys, n, i);
        let a = choose|a: int|
            0 <= a < first_occurrences(keys, n).len() && #[trigger] first_occurrences(keys, n)[a]
                == i;
        assert(keys[first_occurrences(keys, n)[a] as int] == keys[i]);
    } else {
        let j = choose|j: int| 0 <= j < i && keys[j] == keys[i];
        lemma_first_occurrences_cover(keys, n, j);
    }
}

/// A point that is first in its voxel is chosen.
pub proof fn lemma_first_occurrences_contains(keys: Seq<VoxelKey>, n: int, i: int)
    requires
        0 <= i < n <= keys.len(),
        keys.len() <= usize::MAX,
        is_first_in_voxel(keys, i),
    ensures
        exists|a: int|
            0 <= a < first_occurrences(keys, n).len() && #[trigger] first_occurrences(keys, n)[a]
                == i,
    decreases n,
{
    let prev = first_occurrences(keys, n - 1);
    if i < n - 1 {
        lemma_first_occurrences_contains(keys, n - 1, i);
        let a = choose|a: int| 0 <= a < prev.len() && #[trigger] prev[a] == i;
        if is_first_in_voxel(keys, n - 1) {
            assert(first_occurrences(keys, n) == prev.push((n - 1) as usize));
            assert(first_occurrences(keys, n)[a] == i);
        } else {
            assert(first_occurrences(keys, n)[a] == i);
        }
    } else {
        assert(first_occurrences(keys, n) == prev.push((n - 1) as usize));
        assert(first_occurrences(keys, n)[prev.len() as int] == i);
    }
}

/// Downsampling law: exactly one input point is chosen for each occupied
/// voxel, and it is the first point that falls in that voxel.
pub proof fn lemma_one_point_per_voxel(keys: Seq<VoxelKey>)
    requires
        keys.len() <= usize::MAX,
    ensures
        ({
            let chosen = first_occurrences(keys, keys.len() as int);
            &&& forall|a: int, b: int|
                0 <= a < b < chosen.len() ==> keys[chosen[a] as int] != keys[chosen[b] as int]
            &&& forall|i: int|
                0 <= i < keys.len() ==> exists|a: int|
                    0 <= a < chosen.len() && keys[#[trigger] chosen[a] as int] == #[trigger] keys[i]
            &&& forall|a: int|
                0 <= a < chosen.len() ==> is_first_in_voxel(keys, #[trigger] chosen[a] as int)
        }),
{
    lemma_first_occurrences_distinct(keys, keys.len() as int);
    let chosen = first_occurrences(keys, keys.len() as int);
    assert forall|i: int| 0 <= i < keys.len() implies exists|a: int|
        0 <= a < chosen.len() && keys[#[trigger] chosen[a] as int] == #[trigger] keys[i] by {
        lemma_first_occurrences_cover(keys, keys.len() as int, i);
        let a = choose|a: int|
            0 <= a < chosen.len() && keys[#[trigger] chosen[a] as int] == keys[i];
        assert(keys[chosen[a] as int] == keys[i]);
    }
}

} // verus!
