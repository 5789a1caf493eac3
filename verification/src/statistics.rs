//! Sampling plan of the display-size estimate for point clouds.
//!
//! The display size is the smallest positive distance between a sampled
//! point and its next six neighbours in array order. Up to about a thousand
//! points are sampled at an even stride. This module lists the index pairs
//! to measure; the caller computes the distances.

use vstd::prelude::*;

verus! {

/// Number of points sampled at most (before rounding of the stride).
pub const SAMPLE_SIZE: usize = 1000;

/// Each sampled point is compared with the points up to this many places
/// after it, itself excluded.
pub const NEIGHBOURS: usize = 7;

/// The stride between sampled points of a cloud of `n` points.
pub open spec fn spec_sample_step(n: nat) -> nat {
    if n > SAMPLE_SIZE {
        n / (SAMPLE_SIZE as nat)
    } else {
        1
    }
}

/// The pairs measured for the sampled point `si`: `(si, j)` for every `j`
/// after it, up to six places on and before `n`.
pub open spec fn neighbour_row(si: nat, n: nat) -> Seq<(usize, usize)> {
    let end: int = if si + NEIGHBOURS < n {
        si + NEIGHBOURS
    } else {
        n as int
    };
    Seq::new((end - si - 1) as nat, |t: int| (si as usize, (si + 1 + t) as usize))
}

/// The pairs of the sampled points from `si` on, sampled point by sampled
/// point.
pub open spec fn pairs_from(si: nat, step: nat, n: nat) -> Seq<(usize, usize)>
    decreases n - si,
{
    if si >= n || step == 0 {
        Seq::empty()
    } else {
        let next = if si + step < n {
            si + step
        } else {
            n
        };
        neighbour_row(si, n) + pairs_from(next, step, n)
    }
}

/// All index pairs measured for a cloud of `n` points (none below two).
pub open spec fn spec_distance_pairs(n: nat) -> Seq<(usize, usize)> {
    if n < 2 {
        Seq::empty()
    } else {
        pairs_from(0, spec_sample_step(n), n)
    }
}

/// The stride between sampled points.
pub fn sample_step(n: usize) -> (r: usize)
    ensures
        r == spec_sample_step(n as nat),
        r >= 1,
{
    if n > SAMPLE_SIZE {
        n / SAMPLE_SIZE
    } else {
        1
    }
}

/// The index pairs whose distances give the display-size estimate of a
/// cloud of `n` points, in the order they are measured.
pub fn distance_pairs(n: usize) -> (r: Vec<(usize, usize)>)
    ensures
        r@ == spec_distance_pairs(n as nat),
{
    if n < 2 {
        return Vec::new();
    }
    let step = sample_step(n);
    let mut out: Vec<(usize, usize)> = Vec::new();
    let mut si: usize = 0;
    while si < n
        invariant
            step == spec_sample_step(n as nat),
            step >= 1,
            n >= 2,
            si <= n,
            out@ + pairs_from(si as nat, step as nat, n as nat) == spec_distance_pairs(n as nat),
        decreases n - si,
    {
        let end = if n - si > NEIGHBOURS {
            si + NEIGHBOURS
        } else {
            n
        };
        let ghost before = out@;
        let mut j = si + 1;
        while j < end
            invariant
                si < n,
                end <= n,
                si + 1 <= j,
                j <= end || j == si + 1,
                end == (if si + NEIGHBOURS < n {
                    si + NEIGHBOURS
                } else {
                    n as int
                }),
                out@ == before + Seq::new((j - si - 1) as nat, |t: int| (si, (si + 1 + t) as usize)),
            decreases end - j,
        {
            out.push((si, j));
            j = j + 1;
            assert(out@ =~= before + Seq::new(
                (j - si - 1) as nat,
                |t: int| (si, (si + 1 + t) as usize),
            ));
        }
        proof {
            let row = neighbour_row(si as nat, n as nat);
            if end > si + 1 {
                assert(j == end);
            }
            assert(out@ =~= before + row);
            let next: nat = if si + step < n {
                (si + step) as nat
            } else {
                n as nat
            };
            let rest = pairs_from(next, step as nat, n as nat);
            assert(pairs_from(si as nat, step as nat, n as nat) == row + rest);
            assert(before + (row + rest) =~= before + row + rest);
        }
        if step >= n - si {
            si = n;
        } else {
            si = si + step;
        }
    }
    proof {
        assert(pairs_from(si as nat, step as nat, n as nat) =~= Seq::<(usize, usize)>::empty());
        assert(out@ + Seq::<(usize, usize)>::empty() =~= out@);
    }
    out
}

} // verus!
