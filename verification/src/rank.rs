//! Order statistics of numbers.

use vstd::prelude::*;
use std::cmp::Ordering;
use crate::ieee::Double;

verus! {

/// No entry is NaN.
pub open spec fn all_numbers(s: Seq<Double>) -> bool {
    forall|i: int| 0 <= i < s.len() ==> !(#[trigger] s[i]).nan()
}

/// The entry at `rank` stands where it would in ascending order: nothing
/// before it is greater, nothing after it is smaller.
pub open spec fn ranked(s: Seq<Double>, rank: int) -> bool {
    &&& forall|i: int| 0 <= i < rank ==> (#[trigger] s[i]).le_spec(s[rank])
    &&& forall|i: int| rank < i < s.len() ==> s[rank].le_spec(#[trigger] s[i])
}

/// Orders two numbers by value. A NaN is put level with everything, so the
/// order is total only among numbers.
pub fn numeric_order(a: &Double, b: &Double) -> (o: Ordering)
    ensures
        (o == Ordering::Less) == a.lt_spec(*b),
        (o == Ordering::Greater) == b.lt_spec(*a),
{
    if a.lt(*b) {
        Ordering::Less
    } else if b.lt(*a) {
        Ordering::Greater
    } else {
        Ordering::Equal
    }
}

/// `select_nth_unstable_by` of std's slices, under [`numeric_order`]: the
/// entries are rearranged, none lost and none added, so that the one at
/// `rank` is the one ascending order would put there, with nothing greater
/// before it and nothing smaller after it. NaN entries are left out by the
/// precondition: among them the order is not total, and std may then panic.
#[verifier::external_body]
pub(crate) fn select_rank(v: &mut Vec<Double>, rank: usize)
    requires
        rank < old(v).len(),
        all_numbers(old(v)@),
    ensures
        final(v)@.to_multiset() == old(v)@.to_multiset(),
        final(v).len() == old(v).len(),
        forall|k: int| k == rank ==> ranked(final(v)@, k),
{
    v.select_nth_unstable_by(rank, |a, b| numeric_order(a, b));
}

/// Decides whether no entry is NaN.
pub fn are_all_numbers(v: &Vec<Double>) -> (b: bool)
    ensures
        b == all_numbers(v@),
{
    let mut i: usize = 0;
    while i < v.len()
        invariant
            i <= v.len(),
            forall|k: int| 0 <= k < i ==> !(#[trigger] v[k]).nan(),
        decreases v.len() - i,
    {
        if v[i].is_nan() {
            return false;
        }
        i = i + 1;
    }
    true
}

/// `r` is the entry that ascending order puts at `rank`: some arrangement
/// of the same entries has it there, with nothing greater before it and
/// nothing smaller after it.
pub open spec fn is_order_statistic(sample: Seq<Double>, rank: int, r: Double) -> bool {
    exists|arranged: Seq<Double>|
        arranged.to_multiset() == sample.to_multiset() && ranked(arranged, rank)
            && #[trigger] arranged[rank] == r
}

/// The entry that ascending order puts at `rank`, where every entry is a
/// number; `None` where one is NaN.
pub fn order_statistic(sample: Vec<Double>, rank: usize) -> (r: Option<Double>)
    requires
        rank < sample.len(),
    ensures
        r.is_some() <==> all_numbers(sample@),
        r.is_some() ==> !r.unwrap().nan() && sample@.to_multiset().count(r.unwrap()) > 0,
        r.is_some() ==> is_order_statistic(sample@, rank as int, r.unwrap()),
{
    let mut sample = sample;
    if !are_all_numbers(&sample) {
        return None;
    }
    let ghost before = sample@;
    select_rank(&mut sample, rank);
    let picked = sample[rank];
    proof {
        let after = sample@;
        after.to_multiset_ensures();
        before.to_multiset_ensures();
        assert(after[rank as int] == picked);
        assert(after.contains(picked));
        assert(after.to_multiset().count(picked) > 0);
        assert(before.to_multiset().count(picked) > 0);
        assert(before.contains(picked));
        assert(after.to_multiset() == before.to_multiset() && ranked(after, rank as int)
            && after[rank as int] == picked);
    }
    Some(picked)
}

} // verus!
