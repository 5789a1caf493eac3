//! Which points a detected laser-line profile yields.
//!
//! A profile gives, per image row, a left/upper and a right/lower position;
//! zero means nothing was detected. Rows are read up to the shorter of the
//! two profiles. A row yields its left point when the left position was
//! detected, and then its right point too when that was detected; a row
//! whose left position is missing yields nothing. The caller converts the
//! listed positions to coordinates.

use vstd::prelude::*;

verus! {

/// Points of the first `i` rows, in order: `(row, is_right)`.
pub open spec fn plan_upto(left: Seq<bool>, right: Seq<bool>, i: int) -> Seq<(usize, bool)>
    decreases i,
{
    if i <= 0 {
        Seq::empty()
    } else {
        let r = (i - 1) as usize;
        plan_upto(left, right, i - 1) + (if left[i - 1] {
            seq![(r, false)]
        } else {
            Seq::empty()
        }) + (if left[i - 1] && right[i - 1] {
            seq![(r, true)]
        } else {
            Seq::empty()
        })
    }
}

/// The points a profile yields, from which rows have a detected left and
/// right position.
pub open spec fn spec_profile_plan(left: Seq<bool>, right: Seq<bool>) -> Seq<(usize, bool)> {
    plan_upto(left, right, if left.len() < right.len() {
        left.len() as int
    } else {
        right.len() as int
    })
}

/// Lists the points a profile yields, as `(row, is_right)` in output order.
pub fn profile_point_plan(left_present: &Vec<bool>, right_present: &Vec<bool>) -> (r: Vec<
    (usize, bool),
>)
    ensures
        r@ == spec_profile_plan(left_present@, right_present@),
{
    let len = if left_present.len() < right_present.len() {
        left_present.len()
    } else {
        right_present.len()
    };
    let mut out: Vec<(usize, bool)> = Vec::new();
    let mut i: usize = 0;
    while i < len
        invariant
            len <= left_present@.len(),
            len <= right_present@.len(),
            len == (if left_present@.len() < right_present@.len() {
                left_present@.len()
            } else {
                right_present@.len()
            }),
            i <= len,
            out@ == plan_upto(left_present@, right_present@, i as int),
        decreases len - i,
    {
        let ghost before = out@;
        let l = left_present[i];
        let rt = right_present[i];
        if l {
            out.push((i, false));
        }
        let ghost mid = out@;
        if l && rt {
            out.push((i, true));
        }
        proof {
            let a: Seq<(usize, bool)> = if l {
                seq![(i, false)]
            } else {
                Seq::empty()
            };
            let b: Seq<(usize, bool)> = if l && rt {
                seq![(i, true)]
            } else {
                Seq::empty()
            };
            assert(mid =~= before + a);
            assert(out@ =~= before + a + b);
        }
        i = i + 1;
    }
    out
}

/// Profile law: a row yields at most two points, the left one first, and a
/// right point only where the left position was detected.
pub proof fn lemma_plan_rows(left: Seq<bool>, right: Seq<bool>, i: int)
    requires
        0 <= i <= left.len(),
        i <= right.len(),
        i <= usize::MAX,
    ensures
        forall|k: int|
            0 <= k < plan_upto(left, right, i).len() ==> {
                let (row, is_right) = #[trigger] plan_upto(left, right, i)[k];
                &&& row < i
                &&& (is_right ==> left[row as int] && right[row as int])
                &&& (!is_right ==> left[row as int])
            },
    decreases i,
{
    if i > 0 {
        lemma_plan_rows(left, right, i - 1);
        let p = plan_upto(left, right, i - 1);
        let r = (i - 1) as usize;
        let a: Seq<(usize, bool)> = if left[i - 1] {
            seq![(r, false)]
        } else {
            Seq::empty()
        };
        let b: Seq<(usize, bool)> = if left[i - 1] && right[i - 1] {
            seq![(r, true)]
        } else {
            Seq::empty()
        };
        assert forall|k: int| 0 <= k < (p + a + b).len() implies {
            let (row, is_right) = #[trigger] (p + a + b)[k];
            &&& row < i
            &&& (is_right ==> left[row as int] && right[row as int])
            &&& (!is_right ==> left[row as int])
        } by {
            if k < p.len() {
                assert((p + a + b)[k] == p[k]);
            } else if k < p.len() + a.len() {
                assert((p + a + b)[k] == a[k - p.len()]);
            } else {
                assert((p + a + b)[k] == b[k - p.len() - a.len()]);
            }
        }
    }
}

} // verus!
