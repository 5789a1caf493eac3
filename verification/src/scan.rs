//! Scan dataset discovery: which directory entries are slices, and the
//! order in which datasets and slices are listed.
//!
//! A dataset is a directory of slice images named `<angle_radians>.png`.
//! Names are ordered character by character by code point (the order of
//! `String`'s comparison, since UTF-8 keeps code-point order), a proper
//! prefix first.

use vstd::prelude::*;
use vstd::relations::{sorted_by, total_ordering};
use crate::launcher::chars_of;

verus! {

broadcast use vstd::seq_lib::group_to_multiset_ensures;

/// File-name suffix of slice images.
pub const SLICE_SUFFIX: &'static str = ".png";

/// The name ends with `.png`.
pub open spec fn spec_is_slice_name(name: Seq<char>) -> bool {
    name.len() >= 4 && name.subrange(name.len() - 4, name.len() as int) == seq!['.', 'p', 'n', 'g']
}

/// Whether a directory entry name is a slice image name.
pub fn is_slice_name(name: &str) -> (r: bool)
    ensures
        r == spec_is_slice_name(name@),
{
    let n = name.unicode_len();
    if n < 4 {
        return false;
    }
    let r = name.get_char(n - 4) == '.' && name.get_char(n - 3) == 'p' && name.get_char(n - 2)
        == 'n' && name.get_char(n - 1) == 'g';
    assert(r == (name@.subrange(n - 4, n as int) =~= seq!['.', 'p', 'n', 'g']));
    r
}

/// Lexicographic order on names, by code point.
pub open spec fn name_le(a: Seq<char>, b: Seq<char>) -> bool
    decreases a.len(),
{
    if a.len() == 0 {
        true
    } else if b.len() == 0 {
        false
    } else if a[0] != b[0] {
        a[0] < b[0]
    } else {
        name_le(a.drop_first(), b.drop_first())
    }
}

pub proof fn lemma_name_le_reflexive(a: Seq<char>)
    ensures
        name_le(a, a),
    decreases a.len(),
{
    if a.len() > 0 {
        lemma_name_le_reflexive(a.drop_first());
    }
}

pub proof fn lemma_name_le_antisymmetric(a: Seq<char>, b: Seq<char>)
    requires
        name_le(a, b),
        name_le(b, a),
    ensures
        a == b,
    decreases a.len(),
{
    if a.len() > 0 && b.len() > 0 && a[0] == b[0] {
        lemma_name_le_antisymmetric(a.drop_first(), b.drop_first());
        assert(a =~= seq![a[0]] + a.drop_first());
        assert(b =~= seq![b[0]] + b.drop_first());
    } else if a.len() > 0 && b.len() > 0 {
    }
}

pub proof fn lemma_name_le_transitive(a: Seq<char>, b: Seq<char>, c: Seq<char>)
    requires
        name_le(a, b),
        name_le(b, c),
    ensures
        name_le(a, c),
    decreases a.len(),
{
    if a.len() > 0 && b.len() > 0 && c.len() > 0 && a[0] == b[0] && b[0] == c[0] {
        lemma_name_le_transitive(a.drop_first(), b.drop_first(), c.drop_first());
    }
}

pub proof fn lemma_name_le_total(a: Seq<char>, b: Seq<char>)
    ensures
        name_le(a, b) || name_le(b, a),
    decreases a.len(),
{
    if a.len() > 0 && b.len() > 0 && a[0] == b[0] {
        lemma_name_le_total(a.drop_first(), b.drop_first());
    }
}

/// The name order is a total order.
pub proof fn lemma_name_order_total()
    ensures
        total_ordering(|a: Seq<char>, b: Seq<char>| name_le(a, b)),
{
    let leq = |a: Seq<char>, b: Seq<char>| name_le(a, b);
    assert forall|a: Seq<char>| #[trigger] leq(a, a) by {
        lemma_name_le_reflexive(a);
    }
    assert forall|a: Seq<char>, b: Seq<char>| #[trigger] leq(a, b) && #[trigger] leq(b, a) implies a
        == b by {
        lemma_name_le_antisymmetric(a, b);
    }
    assert forall|a: Seq<char>, b: Seq<char>, c: Seq<char>| #[trigger]
        leq(a, b) && #[trigger] leq(b, c) implies leq(a, c) by {
        lemma_name_le_transitive(a, b, c);
    }
    assert forall|a: Seq<char>, b: Seq<char>| #[trigger] leq(a, b) || #[trigger] leq(b, a) by {
        lemma_name_le_total(a, b);
    }
}

/// Whether `a` comes no later than `b` in name order.
pub fn name_le_exec(a: &str, b: &str) -> (r: bool)
    ensures
        r == name_le(a@, b@),
{
    let ac = chars_of(a);
    let bc = chars_of(b);
    let mut i: usize = 0;
    assert(a@.subrange(0, a@.len() as int) =~= a@);
    assert(b@.subrange(0, b@.len() as int) =~= b@);
    while i < ac.len()
        invariant
            ac@ == a@,
            bc@ == b@,
            i <= ac@.len(),
            i <= bc@.len(),
            name_le(a@, b@) == name_le(a@.subrange(i as int, a@.len() as int), b@.subrange(
                i as int,
                b@.len() as int,
            )),
        decreases ac.len() - i,
    {
        let ghost sa = a@.subrange(i as int, a@.len() as int);
        let ghost sb = b@.subrange(i as int, b@.len() as int);
        if i >= bc.len() {
            return false;
        }
        assert(sa[0] == ac@[i as int]);
        assert(sb[0] == bc@[i as int]);
        if ac[i] != bc[i] {
            return ac[i] < bc[i];
        }
        assert(sa.drop_first() =~= a@.subrange(i + 1, a@.len() as int));
        assert(sb.drop_first() =~= b@.subrange(i + 1, b@.len() as int));
        i = i + 1;
    }
    true
}

pub open spec fn names_view(v: Seq<String>) -> Seq<Seq<char>> {
    v.map_values(|s: String| s@)
}

/// The names in name order.
pub open spec fn sorted_names(names: Seq<Seq<char>>) -> Seq<Seq<char>> {
    names.sort_by(|a: Seq<char>, b: Seq<char>| name_le(a, b))
}

/// Sorts names into name order.
pub fn sort_by_name(names: Vec<String>) -> (r: Vec<String>)
    ensures
        names_view(r@) == sorted_names(names_view(names@)),
{
    let ghost leq = |a: Seq<char>, b: Seq<char>| name_le(a, b);
    let ghost input = names_view(names@);
    let n = names.len();
    let mut out: Vec<String> = Vec::new();
    let mut i: usize = 0;
    let mut rest = names;
    let mut taken: Vec<String> = Vec::new();
    proof {
        lemma_name_order_total();
        assert(names_view(out@) =~= Seq::<Seq<char>>::empty());
        assert(input.subrange(0, 0) =~= Seq::<Seq<char>>::empty());
    }
    while i < n
        invariant
            n == input.len(),
            rest@.len() == n,
            input == names_view(rest@),
            i <= n,
            total_ordering(leq),
            leq == (|a: Seq<char>, b: Seq<char>| name_le(a, b)),
            sorted_by(names_view(out@), leq),
            names_view(out@).to_multiset() == input.subrange(0, i as int).to_multiset(),
            out@.len() == i,
        decreases n - i,
    {
        let name = rest[i].clone();
        let mut pos: usize = 0;
        let ghost ov = names_view(out@);
        while pos < out.len() && name_le_exec(out[pos].as_str(), name.as_str())
            invariant
                ov == names_view(out@),
                pos <= out@.len(),
                forall|j: int| 0 <= j < pos ==> name_le(#[trigger] ov[j], name@),
            decreases out.len() - pos,
        {
            pos = pos + 1;
        }
        proof {
            let nv = name@;
            if pos < ov.len() {
                assert(!name_le(ov[pos as int], nv));
                lemma_name_le_total(ov[pos as int], nv);
            }
        }
        out.insert(pos, name);
        proof {
            let nv = input[i as int];
            let nov = names_view(out@);
            assert(nov =~= ov.insert(pos as int, nv));
            assert forall|a: int, b: int| 0 <= a < b < nov.len() implies #[trigger] leq(
                nov[a],
                nov[b],
            ) by {
                if b < pos {
                    assert(nov[a] == ov[a] && nov[b] == ov[b]);
                } else if b == pos {
                    assert(nov[a] == ov[a]);
                } else if a < pos {
                    assert(nov[a] == ov[a] && nov[b] == ov[b - 1]);
                    lemma_name_le_transitive(ov[a], nv, ov[pos as int]);
                    if b - 1 > pos {
                        assert(leq(ov[pos as int], ov[b - 1]));
                        lemma_name_le_transitive(ov[a], ov[pos as int], ov[b - 1]);
                    }
                } else if a == pos {
                    assert(nov[b] == ov[b - 1]);
                    if b - 1 > pos {
                        assert(leq(ov[pos as int], ov[b - 1]));
                        lemma_name_le_transitive(nv, ov[pos as int], ov[b - 1]);
                    }
                } else {
                    assert(nov[a] == ov[a - 1] && nov[b] == ov[b - 1]);
                }
            }
            vstd::seq_lib::to_multiset_insert(ov, pos as int, nv);
            assert(input.subrange(0, i + 1) =~= input.subrange(0, i as int).push(nv));
            vstd::seq_lib::to_multiset_build(input.subrange(0, i as int), nv);
        }
        i = i + 1;
    }
    proof {
        assert(input.subrange(0, n as int) =~= input);
        input.lemma_sort_by_ensures(leq);
        vstd::seq_lib::lemma_sorted_unique(names_view(out@), input.sort_by(leq), leq);
    }
    out
}

/// Ordering law: the sorted names are in name order and are the same names,
/// each as often as in the input.
pub proof fn lemma_sorted_names_ordered(names: Seq<Seq<char>>)
    ensures
        sorted_by(sorted_names(names), |a: Seq<char>, b: Seq<char>| name_le(a, b)),
        sorted_names(names).to_multiset() == names.to_multiset(),
{
    lemma_name_order_total();
    names.lemma_sort_by_ensures(|a: Seq<char>, b: Seq<char>| name_le(a, b));
}

/// The slice names among `names`, in name order.
pub open spec fn spec_slice_names(names: Seq<Seq<char>>) -> Seq<Seq<char>> {
    sorted_names(names.filter(|s: Seq<char>| spec_is_slice_name(s)))
}

/// Keeps the slice image names among a directory's entry names and puts
/// them in name order.
pub fn select_slice_names(names: Vec<String>) -> (r: Vec<String>)
    ensures
        names_view(r@) == spec_slice_names(names_view(names@)),
{
    let ghost pred = |s: Seq<char>| spec_is_slice_name(s);
    let ghost input = names_view(names@);
    let n = names.len();
    let mut kept: Vec<String> = Vec::new();
    let mut i: usize = 0;
    proof {
        assert(input.subrange(0, 0).filter(pred) =~= Seq::<Seq<char>>::empty()) by {
            reveal_with_fuel(Seq::<_>::filter, 1);
        }
        assert(names_view(kept@) =~= Seq::<Seq<char>>::empty());
    }
    while i < n
        invariant
            n == input.len(),
            input == names_view(names@),
            names@.len() == n,
            i <= n,
            pred == (|s: Seq<char>| spec_is_slice_name(s)),
            names_view(kept@) == input.subrange(0, i as int).filter(pred),
        decreases n - i,
    {
        let ghost before = names_view(kept@);
        let ghost pre = input.subrange(0, i as int);
        let ghost next = input.subrange(0, i + 1);
        proof {
            assert(next.drop_last() =~= pre);
            reveal_with_fuel(Seq::<_>::filter, 1);
        }
        if is_slice_name(names[i].as_str()) {
            kept.push(names[i].clone());
            assert(names_view(kept@) =~= before.push(input[i as int]));
        } else {
            assert(names_view(kept@) =~= before);
        }
        i = i + 1;
    }
    assert(input.subrange(0, n as int) =~= input);
    sort_by_name(kept)
}

/// Keeping the names that satisfy `pred` keeps each such name as often as
/// before and drops the others.
pub proof fn lemma_filter_count(names: Seq<Seq<char>>, pred: spec_fn(Seq<char>) -> bool, x: Seq<char>)
    ensures
        names.filter(pred).to_multiset().count(x) == if pred(x) {
            names.to_multiset().count(x)
        } else {
            0
        },
    decreases names.len(),
{
    reveal(Seq::filter);
    broadcast use vstd::multiset::group_multiset_axioms;
    if names.len() == 0 {
        assert(names.filter(pred) =~= Seq::<Seq<char>>::empty());
    } else {
        let init = names.drop_last();
        let last = names.last();
        lemma_filter_count(init, pred, x);
        assert(names =~= init.push(last));
        vstd::seq_lib::to_multiset_build(init, last);
        if pred(last) {
            vstd::seq_lib::to_multiset_build(init.filter(pred), last);
        }
    }
}

/// Listing law: the names listed for a directory depend only on which
/// names it holds, not on the order in which they are read.
pub proof fn lemma_listing_order_independent(a: Seq<Seq<char>>, b: Seq<Seq<char>>)
    requires
        a.to_multiset() == b.to_multiset(),
    ensures
        sorted_names(a) == sorted_names(b),
        spec_slice_names(a) == spec_slice_names(b),
{
    let leq = |x: Seq<char>, y: Seq<char>| name_le(x, y);
    let pred = |s: Seq<char>| spec_is_slice_name(s);
    lemma_name_order_total();
    a.lemma_sort_by_ensures(leq);
    b.lemma_sort_by_ensures(leq);
    vstd::seq_lib::lemma_sorted_unique(a.sort_by(leq), b.sort_by(leq), leq);
    let fa = a.filter(pred);
    let fb = b.filter(pred);
    assert forall|x: Seq<char>| fa.to_multiset().count(x) == fb.to_multiset().count(x) by {
        lemma_filter_count(a, pred, x);
        lemma_filter_count(b, pred, x);
    }
    assert(fa.to_multiset() =~= fb.to_multiset());
    fa.lemma_sort_by_ensures(leq);
    fb.lemma_sort_by_ensures(leq);
    vstd::seq_lib::lemma_sorted_unique(fa.sort_by(leq), fb.sort_by(leq), leq);
}

} // verus!
